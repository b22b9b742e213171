use vstd::prelude::*;
use crate::error::CompileError;
use crate::grammar::lemma_parse_all_sound;
use crate::token::{consume, expect, expect_number, token_at, Token, TokenCursor, TokenKind};

verus! {

#[derive(Debug, Copy, Clone, PartialEq, Eq, Structural)]
pub enum NodeKind {
    Add,
    Sub,
    Mul,
    Div,
    Eq,
    Neq,
    Lt,
    Leq,
    Gt,
    Geq,
    Num(u64),
}

pub type NodeRef = Box<Node>;

/// A node of the expression tree. A parent owns its children: the structure
/// is a tree.
#[derive(Debug, PartialEq, Eq)]
pub struct Node {
    pub kind: NodeKind,
    pub lhs: Option<NodeRef>,
    pub rhs: Option<NodeRef>,
}

impl Node {
    /// The leaf that holds `num`.
    pub open spec fn leaf(num: u64) -> Node {
        Node { kind: NodeKind::Num(num), lhs: None, rhs: None }
    }

    /// The operator node of kind `kind` over `lhs` and `rhs`.
    pub open spec fn binary(kind: NodeKind, lhs: Node, rhs: Node) -> Node {
        Node { kind, lhs: Some(Box::new(lhs)), rhs: Some(Box::new(rhs)) }
    }

    /// The shape that every tree of the parser has: a leaf has no children,
    /// an operator has both, and the children have that shape too.
    pub open spec fn wf(self) -> bool
        decreases self,
    {
        match self.kind {
            NodeKind::Num(_) => self.lhs is None && self.rhs is None,
            _ => self.lhs is Some && self.rhs is Some && (*self.lhs->0).wf() && (*self.rhs->0).wf(),
        }
    }

    pub fn new(kind: NodeKind, lhs: Option<NodeRef>, rhs: Option<NodeRef>) -> (node: Node)
        ensures
            node == (Node { kind, lhs, rhs }),
    {
        Self { kind, lhs, rhs }
    }

    pub fn new_num(num: u64) -> (node: Node)
        ensures
            node == Node::leaf(num),
    {
        Self { kind: NodeKind::Num(num), lhs: None, rhs: None }
    }

    pub fn make_ref(self) -> (r: Option<NodeRef>)
        ensures
            r == Some(Box::new(self)),
    {
        Some(Box::new(self))
    }
}

/// The four grammar rules that fold binary operators, from the tightest
/// binding to the loosest.
pub enum Level {
    Term,
    Additive,
    Relational,
    Equality,
}

impl Level {
    pub open spec fn rank(self) -> nat {
        match self {
            Level::Term => 1,
            Level::Additive => 2,
            Level::Relational => 3,
            Level::Equality => 4,
        }
    }

    /// The node kind that a token of kind `kind` stands for as an operator of
    /// this rule, if it is one.
    pub open spec fn operator(self, kind: TokenKind) -> Option<NodeKind> {
        match (self, kind) {
            (Level::Term, TokenKind::Mul) => Some(NodeKind::Mul),
            (Level::Term, TokenKind::Div) => Some(NodeKind::Div),
            (Level::Additive, TokenKind::Plus) => Some(NodeKind::Add),
            (Level::Additive, TokenKind::Minus) => Some(NodeKind::Sub),
            (Level::Relational, TokenKind::Lt) => Some(NodeKind::Lt),
            (Level::Relational, TokenKind::Leq) => Some(NodeKind::Leq),
            (Level::Relational, TokenKind::Gt) => Some(NodeKind::Gt),
            (Level::Relational, TokenKind::Geq) => Some(NodeKind::Geq),
            (Level::Equality, TokenKind::Eq) => Some(NodeKind::Eq),
            (Level::Equality, TokenKind::Neq) => Some(NodeKind::Neq),
            _ => None,
        }
    }
}

/// What a grammar rule gives at some index of a token sequence: the tree it
/// built and the number of tokens it consumed, or the error it stopped on and
/// the number of tokens it had consumed by then.
pub type Parsed = Result<(Node, nat), (CompileError, nat)>;

/// `parsed`, with `extra` more tokens consumed before it.
pub open spec fn shifted(parsed: Parsed, extra: nat) -> Parsed {
    match parsed {
        Ok((node, consumed)) => Ok((node, consumed + extra)),
        Err((e, consumed)) => Err((e, consumed + extra)),
    }
}

/// How many tokens stand at or behind index `pos`.
pub open spec fn tokens_left(tokens: Seq<Token>, pos: nat) -> nat {
    if pos < tokens.len() {
        (tokens.len() - pos) as nat
    } else {
        0
    }
}

/// `primary := number | "(" expr ")"`
pub open spec fn parse_primary(tokens: Seq<Token>, pos: nat) -> Parsed
    decreases tokens_left(tokens, pos), 0nat, 0nat,
{
    match token_at(tokens, pos) {
        None => Err((CompileError::EndOfTokens, 0)),
        Some(token) => match token.kind {
            TokenKind::Num(value) => Ok((Node::leaf(value), 1)),
            TokenKind::LParen => match parse_level(tokens, pos + 1, Level::Equality) {
                Ok((node, consumed)) => match token_at(tokens, pos + 1 + consumed) {
                    None => Err((CompileError::EndOfTokens, consumed + 1)),
                    Some(close) => if close.kind == TokenKind::RParen {
                        Ok((node, consumed + 2))
                    } else {
                        Err(
                            (
                                CompileError::UnexpectedToken {
                                    expected: TokenKind::RParen,
                                    found: close,
                                },
                                consumed + 1,
                            ),
                        )
                    },
                },
                Err((e, consumed)) => Err((e, consumed + 1)),
            },
            _ => Err((CompileError::ExpectedNumber(token), 0)),
        },
    }
}

/// `unary := ("+" | "-")? primary`, where `-x` stands for `0 - x`.
pub open spec fn parse_unary(tokens: Seq<Token>, pos: nat) -> Parsed
    decreases tokens_left(tokens, pos), 0nat, 1nat,
{
    match token_at(tokens, pos) {
        Some(token) => if token.kind == TokenKind::Plus {
            shifted(parse_primary(tokens, pos + 1), 1)
        } else if token.kind == TokenKind::Minus {
            match parse_primary(tokens, pos + 1) {
                Ok((node, consumed)) => Ok(
                    (Node::binary(NodeKind::Sub, Node::leaf(0), node), consumed + 1),
                ),
                Err((e, consumed)) => Err((e, consumed + 1)),
            }
        } else {
            parse_primary(tokens, pos)
        },
        None => parse_primary(tokens, pos),
    }
}

/// One operand of the rule `level`: the rule that binds one step tighter.
pub open spec fn parse_operand(tokens: Seq<Token>, pos: nat, level: Level) -> Parsed
    decreases tokens_left(tokens, pos), level.rank(), 0nat,
{
    match level {
        Level::Term => parse_unary(tokens, pos),
        Level::Additive => parse_level(tokens, pos, Level::Term),
        Level::Relational => parse_level(tokens, pos, Level::Additive),
        Level::Equality => parse_level(tokens, pos, Level::Relational),
    }
}

/// `operand (operator operand)*`, folded to the left.
pub open spec fn parse_level(tokens: Seq<Token>, pos: nat, level: Level) -> Parsed
    decreases tokens_left(tokens, pos), level.rank(), 2nat,
{
    match parse_operand(tokens, pos, level) {
        Ok((first, consumed)) => shifted(
            parse_fold(tokens, pos + consumed, level, first),
            consumed,
        ),
        Err(failure) => Err(failure),
    }
}

/// `(operator operand)*` behind the operands already folded into `left`: each
/// further operand becomes the right child of a new root over `left`.
pub open spec fn parse_fold(tokens: Seq<Token>, pos: nat, level: Level, left: Node) -> Parsed
    decreases tokens_left(tokens, pos), level.rank(), 1nat,
{
    if token_at(tokens, pos) is Some && level.operator(token_at(tokens, pos)->0.kind) is Some {
        let kind = level.operator(token_at(tokens, pos)->0.kind)->0;
        match parse_operand(tokens, pos + 1, level) {
            Ok((right, consumed)) => shifted(
                parse_fold(tokens, pos + 1 + consumed, level, Node::binary(kind, left, right)),
                1 + consumed,
            ),
            Err((e, consumed)) => Err((e, consumed + 1)),
        }
    } else {
        Ok((left, 0))
    }
}

/// A whole expression and the end marker behind it.
pub open spec fn parse_all(tokens: Seq<Token>, pos: nat) -> Parsed {
    match parse_level(tokens, pos, Level::Equality) {
        Ok((node, consumed)) => match token_at(tokens, pos + consumed) {
            None => Err((CompileError::EndOfTokens, consumed)),
            Some(token) => if token.kind == TokenKind::Eof {
                Ok((node, consumed + 1))
            } else {
                Err((CompileError::TrailingToken(token), consumed))
            },
        },
        Err(failure) => Err(failure),
    }
}

/// A parsing function that turned the cursor `before` into `after` and
/// returned `res` did what the grammar says, `expected`: it built that tree
/// and consumed that many tokens, or it failed with that error after that
/// many tokens.
pub open spec fn parsed_as(
    before: &TokenCursor,
    after: &TokenCursor,
    res: Result<Node, CompileError>,
    expected: Parsed,
) -> bool {
    &&& after.tokens() == before.tokens()
    &&& after.index() >= before.index()
    &&& match res {
        Ok(node) => expected == Ok::<(Node, nat), (CompileError, nat)>(
            (node, (after.index() - before.index()) as nat),
        ),
        Err(e) => expected == Err::<(Node, nat), (CompileError, nat)>(
            (e, (after.index() - before.index()) as nat),
        ),
    }
}

/// One round of `parse_fold`: where an operator of the rule stands at `pos`,
/// the fold goes by what the operand behind it gives.
proof fn lemma_fold_step(tokens: Seq<Token>, pos: nat, level: Level, left: Node, kind: NodeKind)
    requires
        token_at(tokens, pos) is Some,
        level.operator(token_at(tokens, pos)->0.kind) == Some(kind),
    ensures
        parse_fold(tokens, pos, level, left) == match parse_operand(tokens, pos + 1, level) {
            Ok((right, consumed)) => shifted(
                parse_fold(tokens, pos + 1 + consumed, level, Node::binary(kind, left, right)),
                1 + consumed,
            ),
            Err((e, consumed)) => Err((e, consumed + 1)),
        },
{
}

/// `primary := number | "(" expr ")"`
fn primary(tokens: &mut TokenCursor) -> (res: Result<Node, CompileError>)
    ensures
        parsed_as(
            old(tokens),
            final(tokens),
            res,
            parse_primary(old(tokens).tokens(), old(tokens).index()),
        ),
    decreases tokens_left(old(tokens).tokens(), old(tokens).index()), 0nat, 0nat,
{
    if consume(TokenKind::LParen, tokens) {
        let node = match expr(tokens) {
            Ok(node) => node,
            Err(e) => {
                return Err(e);
            },
        };
        match expect(TokenKind::RParen, tokens) {
            Ok(_) => Ok(node),
            Err(e) => Err(e),
        }
    } else {
        match expect_number(tokens) {
            Ok(num) => Ok(Node::new_num(num)),
            Err(e) => Err(e),
        }
    }
}

/// `unary := ("+" | "-")? primary`
fn unary(tokens: &mut TokenCursor) -> (res: Result<Node, CompileError>)
    ensures
        parsed_as(
            old(tokens),
            final(tokens),
            res,
            parse_unary(old(tokens).tokens(), old(tokens).index()),
        ),
    decreases tokens_left(old(tokens).tokens(), old(tokens).index()), 0nat, 1nat,
{
    if consume(TokenKind::Plus, tokens) {
        primary(tokens)
    } else if consume(TokenKind::Minus, tokens) {
        match primary(tokens) {
            Ok(operand) => Ok(
                Node::new(NodeKind::Sub, Node::new_num(0).make_ref(), operand.make_ref()),
            ),
            Err(e) => Err(e),
        }
    } else {
        primary(tokens)
    }
}

/// `term := unary (("*" | "/") unary)*`
fn mul(tokens: &mut TokenCursor) -> (res: Result<Node, CompileError>)
    ensures
        parsed_as(
            old(tokens),
            final(tokens),
            res,
            parse_level(old(tokens).tokens(), old(tokens).index(), Level::Term),
        ),
    decreases tokens_left(old(tokens).tokens(), old(tokens).index()), 1nat, 2nat,
{
    let ghost all = tokens.tokens();
    let ghost start = tokens.index();
    let mut node = match unary(tokens) {
        Ok(node) => node,
        Err(e) => {
            return Err(e);
        },
    };
    loop
        invariant
            tokens.tokens() == all,
            tokens.index() >= start,
            all == old(tokens).tokens(),
            start == old(tokens).index(),
            parse_level(all, start, Level::Term) == shifted(
                parse_fold(all, tokens.index(), Level::Term, node),
                (tokens.index() - start) as nat,
            ),
        decreases tokens_left(all, tokens.index()),
    {
        let kind = if consume(TokenKind::Mul, tokens) {
            NodeKind::Mul
        } else if consume(TokenKind::Div, tokens) {
            NodeKind::Div
        } else {
            return Ok(node);
        };
        proof {
            lemma_fold_step(all, (tokens.index() - 1) as nat, Level::Term, node, kind);
        }
        let rhs = match unary(tokens) {
            Ok(rhs) => rhs,
            Err(e) => {
                return Err(e);
            },
        };
        node = Node::new(kind, node.make_ref(), rhs.make_ref());
    }
}

/// `additive := term (("+" | "-") term)*`
fn add(tokens: &mut TokenCursor) -> (res: Result<Node, CompileError>)
    ensures
        parsed_as(
            old(tokens),
            final(tokens),
            res,
            parse_level(old(tokens).tokens(), old(tokens).index(), Level::Additive),
        ),
    decreases tokens_left(old(tokens).tokens(), old(tokens).index()), 2nat, 2nat,
{
    let ghost all = tokens.tokens();
    let ghost start = tokens.index();
    let mut node = match self::mul(tokens) {
        Ok(node) => node,
        Err(e) => {
            return Err(e);
        },
    };
    loop
        invariant
            tokens.tokens() == all,
            tokens.index() >= start,
            all == old(tokens).tokens(),
            start == old(tokens).index(),
            parse_level(all, start, Level::Additive) == shifted(
                parse_fold(all, tokens.index(), Level::Additive, node),
                (tokens.index() - start) as nat,
            ),
        decreases tokens_left(all, tokens.index()),
    {
        let kind = if consume(TokenKind::Plus, tokens) {
            NodeKind::Add
        } else if consume(TokenKind::Minus, tokens) {
            NodeKind::Sub
        } else {
            return Ok(node);
        };
        proof {
            lemma_fold_step(all, (tokens.index() - 1) as nat, Level::Additive, node, kind);
        }
        let rhs = match self::mul(tokens) {
            Ok(rhs) => rhs,
            Err(e) => {
                return Err(e);
            },
        };
        node = Node::new(kind, node.make_ref(), rhs.make_ref());
    }
}

/// `relational := additive (("<" | "<=" | ">" | ">=") additive)*`
fn relational(tokens: &mut TokenCursor) -> (res: Result<Node, CompileError>)
    ensures
        parsed_as(
            old(tokens),
            final(tokens),
            res,
            parse_level(old(tokens).tokens(), old(tokens).index(), Level::Relational),
        ),
    decreases tokens_left(old(tokens).tokens(), old(tokens).index()), 3nat, 2nat,
{
    let ghost all = tokens.tokens();
    let ghost start = tokens.index();
    let mut node = match self::add(tokens) {
        Ok(node) => node,
        Err(e) => {
            return Err(e);
        },
    };
    loop
        invariant
            tokens.tokens() == all,
            tokens.index() >= start,
            all == old(tokens).tokens(),
            start == old(tokens).index(),
            parse_level(all, start, Level::Relational) == shifted(
                parse_fold(all, tokens.index(), Level::Relational, node),
                (tokens.index() - start) as nat,
            ),
        decreases tokens_left(all, tokens.index()),
    {
        let kind = if consume(TokenKind::Lt, tokens) {
            NodeKind::Lt
        } else if consume(TokenKind::Leq, tokens) {
            NodeKind::Leq
        } else if consume(TokenKind::Gt, tokens) {
            NodeKind::Gt
        } else if consume(TokenKind::Geq, tokens) {
            NodeKind::Geq
        } else {
            return Ok(node);
        };
        proof {
            lemma_fold_step(all, (tokens.index() - 1) as nat, Level::Relational, node, kind);
        }
        let rhs = match self::add(tokens) {
            Ok(rhs) => rhs,
            Err(e) => {
                return Err(e);
            },
        };
        node = Node::new(kind, node.make_ref(), rhs.make_ref());
    }
}

/// `equality := relational (("==" | "!=") relational)*`
fn equality(tokens: &mut TokenCursor) -> (res: Result<Node, CompileError>)
    ensures
        parsed_as(
            old(tokens),
            final(tokens),
            res,
            parse_level(old(tokens).tokens(), old(tokens).index(), Level::Equality),
        ),
    decreases tokens_left(old(tokens).tokens(), old(tokens).index()), 4nat, 2nat,
{
    let ghost all = tokens.tokens();
    let ghost start = tokens.index();
    let mut node = match relational(tokens) {
        Ok(node) => node,
        Err(e) => {
            return Err(e);
        },
    };
    loop
        invariant
            tokens.tokens() == all,
            tokens.index() >= start,
            all == old(tokens).tokens(),
            start == old(tokens).index(),
            parse_level(all, start, Level::Equality) == shifted(
                parse_fold(all, tokens.index(), Level::Equality, node),
                (tokens.index() - start) as nat,
            ),
        decreases tokens_left(all, tokens.index()),
    {
        let kind = if consume(TokenKind::Eq, tokens) {
            NodeKind::Eq
        } else if consume(TokenKind::Neq, tokens) {
            NodeKind::Neq
        } else {
            return Ok(node);
        };
        proof {
            lemma_fold_step(all, (tokens.index() - 1) as nat, Level::Equality, node, kind);
        }
        let rhs = match relational(tokens) {
            Ok(rhs) => rhs,
            Err(e) => {
                return Err(e);
            },
        };
        node = Node::new(kind, node.make_ref(), rhs.make_ref());
    }
}

/// `expr := equality`
fn expr(tokens: &mut TokenCursor) -> (res: Result<Node, CompileError>)
    ensures
        parsed_as(
            old(tokens),
            final(tokens),
            res,
            parse_level(old(tokens).tokens(), old(tokens).index(), Level::Equality),
        ),
    decreases tokens_left(old(tokens).tokens(), old(tokens).index()), 4nat, 3nat,
{
    equality(tokens)
}

/// Parses the tokens from the cursor on as one expression followed by the end
/// marker, and consumes both. The tree and the number of tokens consumed, or
/// the error, are those of `parse_all`. The tree of a success is well formed,
/// and the last token consumed is the end marker.
pub fn parse_into_ast(tokens: &mut TokenCursor) -> (res: Result<Node, CompileError>)
    ensures
        parsed_as(
            old(tokens),
            final(tokens),
            res,
            parse_all(old(tokens).tokens(), old(tokens).index()),
        ),
        res matches Ok(node) ==> {
            &&& node.wf()
            &&& 0 < final(tokens).index() <= final(tokens).tokens().len()
            &&& final(tokens).tokens()[final(tokens).index() - 1].kind == TokenKind::Eof
        },
{
    proof {
        lemma_parse_all_sound(tokens.tokens(), tokens.index());
    }
    let node = match expr(tokens) {
        Ok(node) => node,
        Err(e) => {
            return Err(e);
        },
    };
    match tokens.peek() {
        None => Err(CompileError::EndOfTokens),
        Some(token) => {
            if token.kind != TokenKind::Eof {
                return Err(CompileError::TrailingToken(token));
            }
            tokens.next();
            Ok(node)
        },
    }
}

} // verus!
