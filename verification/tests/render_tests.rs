use rust9cc::diag::render_compile_error;
use rust9cc::dot::{count_nodes, do_dot, dotify_ast, Counter};
use rust9cc::error::CompileError;
use rust9cc::parse::{parse_into_ast, Node, NodeKind};
use rust9cc::pipeline::compile;
use rust9cc::token::{tokenize, Loc, Token, TokenCursor, TokenKind};

fn ast(input: &str) -> Node {
    let mut cursor = TokenCursor::new(tokenize(input).unwrap());
    parse_into_ast(&mut cursor).unwrap()
}

#[test]
fn diagnostic_has_three_lines() {
    assert_eq!(
        render_compile_error("1 & 2", Loc { line: 0, col: 2 }, "Unexpected char &"),
        Some("1 & 2\n  ^\nUnexpected char &\n".to_string())
    );
    assert_eq!(
        render_compile_error("abc", Loc { line: 0, col: 0 }, ""),
        Some("abc\n^\n\n".to_string())
    );
}

#[test]
fn diagnostic_selects_the_line() {
    let source = "first\nsecond\n";
    assert_eq!(
        render_compile_error(source, Loc { line: 1, col: 3 }, "here"),
        Some("second\n   ^\nhere\n".to_string())
    );
    assert_eq!(
        render_compile_error(source, Loc { line: 2, col: 0 }, "end"),
        Some("\n^\nend\n".to_string())
    );
    assert_eq!(render_compile_error(source, Loc { line: 3, col: 0 }, "none"), None);
    assert_eq!(render_compile_error("", Loc { line: 1, col: 0 }, "none"), None);
    assert_eq!(
        render_compile_error("", Loc { line: 0, col: 1 }, "empty"),
        Some("\n ^\nempty\n".to_string())
    );
}

#[test]
fn diagnostic_for_a_tokenize_error() {
    let source = "1 & 2";
    match tokenize(source) {
        Err(CompileError::Tokenize(c, loc)) => {
            assert_eq!(c, '&');
            assert_eq!(
                render_compile_error(source, loc, "Unexpected char &"),
                Some("1 & 2\n  ^\nUnexpected char &\n".to_string())
            );
        }
        other => panic!("unexpected result {:?}", other),
    }
}

#[test]
fn graph_numbers_nodes_in_preorder() {
    assert_eq!(
        dotify_ast(&ast("1+2*3")),
        Some(
            "digraph G {\n0[label=\"Add\"];\n0 -> 1;\n1[label=\"Num(1)\"];\n0 -> 2;\n2[label=\"Mul\"];\n2 -> 3;\n3[label=\"Num(2)\"];\n2 -> 4;\n4[label=\"Num(3)\"];\n}\n"
                .to_string()
        )
    );
    assert_eq!(
        dotify_ast(&ast("(1-2)==30")),
        Some(
            "digraph G {\n0[label=\"Eq\"];\n0 -> 1;\n1[label=\"Sub\"];\n1 -> 2;\n2[label=\"Num(1)\"];\n1 -> 3;\n3[label=\"Num(2)\"];\n0 -> 4;\n4[label=\"Num(30)\"];\n}\n"
                .to_string()
        )
    );
    assert_eq!(
        dotify_ast(&ast("7")),
        Some("digraph G {\n0[label=\"Num(7)\"];\n}\n".to_string())
    );
}

#[test]
fn graph_labels_every_kind() {
    let label = |input: &str| {
        let text = dotify_ast(&ast(input)).unwrap();
        text.lines().nth(1).unwrap().to_string()
    };
    assert_eq!(label("1+1"), "0[label=\"Add\"];");
    assert_eq!(label("1-1"), "0[label=\"Sub\"];");
    assert_eq!(label("1*1"), "0[label=\"Mul\"];");
    assert_eq!(label("1/1"), "0[label=\"Div\"];");
    assert_eq!(label("1==1"), "0[label=\"Eq\"];");
    assert_eq!(label("1!=1"), "0[label=\"Neq\"];");
    assert_eq!(label("1<1"), "0[label=\"Lt\"];");
    assert_eq!(label("1<=1"), "0[label=\"Leq\"];");
    assert_eq!(label("1>1"), "0[label=\"Gt\"];");
    assert_eq!(label("1>=1"), "0[label=\"Geq\"];");
}

#[test]
fn graph_of_a_tree_with_one_child() {
    let tree = Node::new(NodeKind::Add, None, Node::new_num(4).make_ref());
    assert_eq!(
        dotify_ast(&tree),
        Some("digraph G {\n0[label=\"Add\"];\n0 -> 1;\n1[label=\"Num(4)\"];\n}\n".to_string())
    );
    assert_eq!(count_nodes(&tree), Some(2));
    assert_eq!(count_nodes(&ast("1+2*3")), Some(5));
}

#[test]
fn counter_is_explicit_state() {
    let mut counter = Counter::new();
    assert_eq!(counter.get(), 0);
    counter.inc();
    assert_eq!(counter.get(), 1);
    assert_eq!(counter.next(), Some(1));
    assert_eq!(counter.get(), 2);
    let mut out = String::new();
    do_dot(&ast("5"), &mut counter, &mut out);
    assert_eq!(out, "2[label=\"Num(5)\"];\n");
    assert_eq!(counter.get(), 3);
}

#[test]
fn compile_runs_the_whole_pipeline() {
    assert_eq!(
        compile(" 1 + 2 ").unwrap(),
        ".intel_syntax noprefix\n.globl main\nmain:\n  push 1\n  push 2\n  pop rdi\n  pop rax\n  add rax, rdi\n  push rax\n  pop rax\n  ret\n"
    );
    assert_eq!(
        compile("1 & 2"),
        Err(CompileError::Tokenize('&', Loc { line: 0, col: 2 }))
    );
    assert_eq!(
        compile("1+"),
        Err(CompileError::ExpectedNumber(Token {
            kind: TokenKind::Eof,
            loc: Loc { line: 0, col: 2 },
        }))
    );
    assert_eq!(
        compile("(1"),
        Err(CompileError::UnexpectedToken {
            expected: TokenKind::RParen,
            found: Token { kind: TokenKind::Eof, loc: Loc { line: 0, col: 2 } },
        })
    );
}
