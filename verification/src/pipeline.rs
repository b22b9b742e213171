use vstd::prelude::*;
use crate::codegen::{assembly, code, complete, gen, lemma_wf_complete};
use crate::error::CompileError;
use crate::grammar::lemma_parse_all_sound;
use crate::machine::{eval, lemma_outcome_is_eval, outcome};
use crate::parse::{parse_all, parse_into_ast};
use crate::token::{lex, tokenize, Token, TokenCursor};

verus! {

/// The assembly routine for a source text: the text is lexed, the tokens are
/// parsed as one expression, and the tree is written out as code. The first
/// stage that fails gives the error of the whole.
pub open spec fn compiled(source: Seq<char>) -> Result<Seq<char>, CompileError> {
    match lex(source, 0) {
        Err(e) => Err(e),
        Ok(tokens) => match parse_all(tokens, 0) {
            Err((e, _)) => Err(e),
            Ok((node, _)) => Ok(assembly(code(node))),
        },
    }
}

/// Every tree that the grammar builds can be compiled, and its code computes
/// on the stack machine the value that the tree has.
pub proof fn lemma_parsed_tree_runs(tokens: Seq<Token>, pos: nat)
    ensures
        parse_all(tokens, pos) matches Ok((node, _)) ==> complete(node) && outcome(code(node))
            == eval(node),
{
    lemma_parse_all_sound(tokens, pos);
    if let Ok((node, _)) = parse_all(tokens, pos) {
        lemma_wf_complete(node);
        lemma_outcome_is_eval(node);
    }
}

/// Compiles an expression to an assembly routine that returns its value, or
/// reports the first error. Nothing is returned beside an error.
pub fn compile(input: &str) -> (res: Result<String, CompileError>)
    ensures
        match res {
            Ok(text) => compiled(input@) == Ok::<Seq<char>, CompileError>(text@),
            Err(e) => compiled(input@) == Err::<Seq<char>, CompileError>(e),
        },
{
    let tokens = match tokenize(input) {
        Ok(tokens) => tokens,
        Err(e) => {
            return Err(e);
        },
    };
    let mut cursor = TokenCursor::new(tokens);
    let node = match parse_into_ast(&mut cursor) {
        Ok(node) => node,
        Err(e) => {
            return Err(e);
        },
    };
    proof {
        lemma_wf_complete(node);
    }
    gen(&node)
}

} // verus!
