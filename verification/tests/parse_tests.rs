use rust9cc::error::CompileError;
use rust9cc::parse::{parse_into_ast, Node, NodeKind};
use rust9cc::token::{consume, expect, expect_number, tokenize, Loc, Token, TokenCursor, TokenKind};

fn num(value: u64) -> Node {
    Node::new_num(value)
}

fn op(kind: NodeKind, lhs: Node, rhs: Node) -> Node {
    Node::new(kind, lhs.make_ref(), rhs.make_ref())
}

fn ast(input: &str) -> Result<Node, CompileError> {
    let mut cursor = TokenCursor::new(tokenize(input).unwrap());
    parse_into_ast(&mut cursor)
}

fn at(col: usize, kind: TokenKind) -> Token {
    Token { kind, loc: Loc { line: 0, col } }
}

#[test]
fn subtraction_associates_to_the_left() {
    assert_eq!(
        ast("1-2-3"),
        Ok(op(NodeKind::Sub, op(NodeKind::Sub, num(1), num(2)), num(3)))
    );
}

#[test]
fn multiplication_binds_tighter_than_addition() {
    assert_eq!(
        ast("1+2*3"),
        Ok(op(NodeKind::Add, num(1), op(NodeKind::Mul, num(2), num(3))))
    );
}

#[test]
fn parentheses_override_precedence() {
    assert_eq!(
        ast("(1+2)*3"),
        Ok(op(NodeKind::Mul, op(NodeKind::Add, num(1), num(2)), num(3)))
    );
}

#[test]
fn unary_minus_subtracts_from_zero() {
    assert_eq!(ast("-5"), Ok(op(NodeKind::Sub, num(0), num(5))));
    assert_eq!(ast("+5"), Ok(num(5)));
    assert_eq!(
        ast("2*-(3)"),
        Ok(op(NodeKind::Mul, num(2), op(NodeKind::Sub, num(0), num(3))))
    );
}

#[test]
fn comparison_levels_nest() {
    assert_eq!(
        ast("1+2<3==4>=5"),
        Ok(op(
            NodeKind::Eq,
            op(NodeKind::Lt, op(NodeKind::Add, num(1), num(2)), num(3)),
            op(NodeKind::Geq, num(4), num(5)),
        ))
    );
    assert_eq!(
        ast("1!=2<=3>4"),
        Ok(op(
            NodeKind::Neq,
            num(1),
            op(NodeKind::Gt, op(NodeKind::Leq, num(2), num(3)), num(4)),
        ))
    );
    assert_eq!(
        ast("8/4/2"),
        Ok(op(NodeKind::Div, op(NodeKind::Div, num(8), num(4)), num(2)))
    );
}

#[test]
fn missing_right_operand_is_an_error() {
    assert_eq!(
        ast("1+"),
        Err(CompileError::ExpectedNumber(at(2, TokenKind::Eof)))
    );
}

#[test]
fn parse_errors_name_the_token_found() {
    assert_eq!(
        ast("(1+2"),
        Err(CompileError::UnexpectedToken {
            expected: TokenKind::RParen,
            found: at(4, TokenKind::Eof),
        })
    );
    assert_eq!(
        ast("1 2"),
        Err(CompileError::TrailingToken(at(2, TokenKind::Num(2))))
    );
    assert_eq!(
        ast("1)"),
        Err(CompileError::TrailingToken(at(1, TokenKind::RParen)))
    );
    assert_eq!(ast(""), Err(CompileError::ExpectedNumber(at(0, TokenKind::Eof))));
    assert_eq!(ast("--1"), Err(CompileError::ExpectedNumber(at(1, TokenKind::Minus))));
    assert_eq!(ast("*1"), Err(CompileError::ExpectedNumber(at(0, TokenKind::Mul))));
}

#[test]
fn exhausted_cursor_is_an_error() {
    let mut cursor = TokenCursor::new(vec![at(0, TokenKind::Num(1))]);
    assert_eq!(parse_into_ast(&mut cursor), Err(CompileError::EndOfTokens));
    let mut cursor = TokenCursor::new(vec![]);
    assert_eq!(parse_into_ast(&mut cursor), Err(CompileError::EndOfTokens));
    let mut cursor = TokenCursor::new(vec![at(0, TokenKind::LParen), at(1, TokenKind::Num(1))]);
    assert_eq!(parse_into_ast(&mut cursor), Err(CompileError::EndOfTokens));
}

#[test]
fn successful_parse_consumes_the_end_marker() {
    let mut cursor = TokenCursor::new(tokenize("1+2").unwrap());
    assert!(parse_into_ast(&mut cursor).is_ok());
    assert_eq!(cursor.peek(), None);
}

#[test]
fn cursor_consume_and_expect() {
    let mut cursor = TokenCursor::new(tokenize("7+").unwrap());
    assert_eq!(cursor.peek(), Some(at(0, TokenKind::Num(7))));
    assert!(!consume(TokenKind::Plus, &mut cursor));
    assert_eq!(cursor.peek(), Some(at(0, TokenKind::Num(7))));
    assert!(!consume(TokenKind::Num(8), &mut cursor));
    assert_eq!(
        expect(TokenKind::Plus, &mut cursor),
        Err(CompileError::UnexpectedToken {
            expected: TokenKind::Plus,
            found: at(0, TokenKind::Num(7)),
        })
    );
    assert_eq!(expect_number(&mut cursor), Ok(7));
    assert_eq!(
        expect_number(&mut cursor),
        Err(CompileError::ExpectedNumber(at(1, TokenKind::Plus)))
    );
    assert_eq!(expect(TokenKind::Plus, &mut cursor), Ok(()));
    assert!(consume(TokenKind::Eof, &mut cursor));
    assert!(!consume(TokenKind::Eof, &mut cursor));
    assert_eq!(expect(TokenKind::Eof, &mut cursor), Err(CompileError::EndOfTokens));
    assert_eq!(expect_number(&mut cursor), Err(CompileError::EndOfTokens));
    assert_eq!(cursor.next(), None);
}

#[test]
fn node_constructors() {
    let leaf = Node::new(NodeKind::Num(3), None, None);
    assert_eq!(leaf, Node::new_num(3));
    assert_eq!(leaf.kind, NodeKind::Num(3));
    let boxed = leaf.make_ref();
    assert_eq!(boxed, Some(Box::new(Node::new_num(3))));
    let node = Node::new(NodeKind::Add, boxed, None);
    assert_eq!(node.kind, NodeKind::Add);
    assert!(node.lhs.is_some());
    assert!(node.rhs.is_none());
}

#[test]
fn tighter_operator_binds_first_on_either_side() {
    assert_eq!(
        ast("2*3+1"),
        Ok(op(NodeKind::Add, op(NodeKind::Mul, num(2), num(3)), num(1)))
    );
    assert_eq!(
        ast("1<2+3"),
        Ok(op(NodeKind::Lt, num(1), op(NodeKind::Add, num(2), num(3))))
    );
    assert_eq!(
        ast("1==2<3"),
        Ok(op(NodeKind::Eq, num(1), op(NodeKind::Lt, num(2), num(3))))
    );
    assert_eq!(
        ast("(1)/(2)-(3)"),
        Ok(op(NodeKind::Sub, op(NodeKind::Div, num(1), num(2)), num(3)))
    );
}

#[test]
fn operators_of_one_rule_associate_to_the_left() {
    assert_eq!(
        ast("1+2-3"),
        Ok(op(NodeKind::Sub, op(NodeKind::Add, num(1), num(2)), num(3)))
    );
    assert_eq!(
        ast("1<2>=3"),
        Ok(op(NodeKind::Geq, op(NodeKind::Lt, num(1), num(2)), num(3)))
    );
    assert_eq!(
        ast("1==2!=3"),
        Ok(op(NodeKind::Neq, op(NodeKind::Eq, num(1), num(2)), num(3)))
    );
}

#[test]
fn fully_bracketed_text_parses_to_its_tree() {
    assert_eq!(
        ast("((1+(2*3))==((4-5)<=6))"),
        Ok(op(
            NodeKind::Eq,
            op(NodeKind::Add, num(1), op(NodeKind::Mul, num(2), num(3))),
            op(NodeKind::Leq, op(NodeKind::Sub, num(4), num(5)), num(6)),
        ))
    );
    assert_eq!(
        ast("(1-(2-3))"),
        Ok(op(NodeKind::Sub, num(1), op(NodeKind::Sub, num(2), num(3))))
    );
    assert_eq!(ast("((7))"), Ok(num(7)));
}

#[test]
fn failed_parse_stops_at_the_token_found() {
    let mut cursor = TokenCursor::new(tokenize("1+2 3").unwrap());
    assert_eq!(
        parse_into_ast(&mut cursor),
        Err(CompileError::TrailingToken(at(4, TokenKind::Num(3))))
    );
    assert_eq!(cursor.peek(), Some(at(4, TokenKind::Num(3))));

    let mut cursor = TokenCursor::new(tokenize("(1*)").unwrap());
    assert_eq!(
        parse_into_ast(&mut cursor),
        Err(CompileError::ExpectedNumber(at(3, TokenKind::RParen)))
    );
    assert_eq!(cursor.peek(), Some(at(3, TokenKind::RParen)));
}
