use rust9cc::codegen::{emit, gen, lower, Instr};
use rust9cc::error::CompileError;
use rust9cc::machine::{combine, evaluate, execute, word};
use rust9cc::parse::{parse_into_ast, Node, NodeKind};
use rust9cc::text::{append_decimal, append_spaces, digit_str};
use rust9cc::token::{tokenize, TokenCursor};

fn ast(input: &str) -> Node {
    let mut cursor = TokenCursor::new(tokenize(input).unwrap());
    parse_into_ast(&mut cursor).unwrap()
}

fn run(input: &str) -> Option<i64> {
    let tree = ast(input);
    let direct = evaluate(&tree);
    let compiled = execute(&lower(&tree).unwrap());
    assert_eq!(direct, compiled);
    compiled
}

#[test]
fn code_is_post_order() {
    assert_eq!(
        lower(&ast("1+2*3")),
        Ok(vec![Instr::Push(1), Instr::Push(2), Instr::Push(3), Instr::Mul, Instr::Add])
    );
    assert_eq!(
        lower(&ast("(1+2)*3")),
        Ok(vec![Instr::Push(1), Instr::Push(2), Instr::Add, Instr::Push(3), Instr::Mul])
    );
    assert_eq!(lower(&ast("-5")), Ok(vec![Instr::Push(0), Instr::Push(5), Instr::Sub]));
}

#[test]
fn assembly_of_a_literal() {
    assert_eq!(
        gen(&ast("42")).unwrap(),
        ".intel_syntax noprefix\n.globl main\nmain:\n  push 42\n  pop rax\n  ret\n"
    );
    assert_eq!(
        gen(&ast("0")).unwrap(),
        ".intel_syntax noprefix\n.globl main\nmain:\n  push 0\n  pop rax\n  ret\n"
    );
}

#[test]
fn assembly_of_operators() {
    assert_eq!(
        gen(&ast("10-3")).unwrap(),
        ".intel_syntax noprefix\n.globl main\nmain:\n  push 10\n  push 3\n  pop rdi\n  pop rax\n  sub rax, rdi\n  push rax\n  pop rax\n  ret\n"
    );
    assert_eq!(
        emit(&vec![Instr::Div]),
        ".intel_syntax noprefix\n.globl main\nmain:\n  pop rdi\n  pop rax\n  cqo\n  idiv rdi\n  push rax\n  pop rax\n  ret\n"
    );
    assert_eq!(
        emit(&vec![Instr::Add, Instr::Mul]),
        ".intel_syntax noprefix\n.globl main\nmain:\n  pop rdi\n  pop rax\n  add rax, rdi\n  push rax\n  pop rdi\n  pop rax\n  imul rax, rdi\n  push rax\n  pop rax\n  ret\n"
    );
    let compare = |instr: Instr, set: &str| {
        assert_eq!(
            emit(&vec![instr]),
            format!(
                ".intel_syntax noprefix\n.globl main\nmain:\n  pop rdi\n  pop rax\n  cmp rax, rdi\n  {} al\n  movzb rax, al\n  push rax\n  pop rax\n  ret\n",
                set
            )
        );
    };
    compare(Instr::Eq, "sete");
    compare(Instr::Neq, "setne");
    compare(Instr::Lt, "setl");
    compare(Instr::Leq, "setle");
    compare(Instr::Gt, "setg");
    compare(Instr::Geq, "setge");
    assert_eq!(emit(&vec![]), ".intel_syntax noprefix\n.globl main\nmain:\n  pop rax\n  ret\n");
}

#[test]
fn operator_without_operand_is_rejected() {
    let no_rhs = Node::new(NodeKind::Add, Node::new_num(1).make_ref(), None);
    assert_eq!(gen(&no_rhs), Err(CompileError::MissingOperand));
    assert_eq!(lower(&no_rhs), Err(CompileError::MissingOperand));
    assert_eq!(evaluate(&no_rhs), None);
    let no_lhs = Node::new(NodeKind::Mul, None, Node::new_num(1).make_ref());
    assert_eq!(gen(&no_lhs), Err(CompileError::MissingOperand));
    let deep = Node::new(NodeKind::Sub, Node::new_num(1).make_ref(), no_lhs.make_ref());
    assert_eq!(gen(&deep), Err(CompileError::MissingOperand));
}

#[test]
fn compiled_code_computes_the_value_of_the_tree() {
    assert_eq!(run("  2 * (1+23) - 456 / 7"), Some(-17));
    assert_eq!(run("1-2-3"), Some(-4));
    assert_eq!(run("1+2*3"), Some(7));
    assert_eq!(run("(1+2)*3"), Some(9));
    assert_eq!(run("-5"), Some(-5));
    assert_eq!(run("- 3 * + 4"), Some(-12));
    assert_eq!(run("1 < 2 == 2 >= 3"), Some(0));
    assert_eq!(run("(5 > 3) + (5 >= 5) + (3 <= 2) + (1 != 1) + (7 == 7)"), Some(3));
}

#[test]
fn division_rounds_toward_zero() {
    assert_eq!(run("7/2"), Some(3));
    assert_eq!(run("-7/2"), Some(-3));
    assert_eq!(run("7/-2"), Some(-3));
    assert_eq!(run("-7/-2"), Some(3));
    assert_eq!(run("0/5"), Some(0));
}

#[test]
fn division_faults() {
    assert_eq!(run("1/0"), None);
    assert_eq!(run("1/(2-2)+3"), None);
    assert_eq!(run("(0-9223372036854775807-1)/-1"), None);
    assert_eq!(combine(Instr::Div, i64::MIN, -1), None);
    assert_eq!(combine(Instr::Div, i64::MIN, 1), Some(i64::MIN));
}

#[test]
fn arithmetic_wraps_at_64_bits() {
    assert_eq!(run("9223372036854775807+1"), Some(i64::MIN));
    assert_eq!(run("0-9223372036854775807-2"), Some(i64::MAX));
    assert_eq!(run("4611686018427387904*4"), Some(0));
    assert_eq!(run("18446744073709551615"), Some(-1));
    assert_eq!(word(9223372036854775808), i64::MIN);
    assert_eq!(word(9223372036854775807), i64::MAX);
    assert_eq!(combine(Instr::Mul, i64::MAX, 2), Some(-2));
    assert_eq!(combine(Instr::Push(1), 1, 2), None);
}

#[test]
fn unbalanced_programs_compute_nothing() {
    assert_eq!(execute(&vec![]), None);
    assert_eq!(execute(&vec![Instr::Push(1), Instr::Push(2)]), None);
    assert_eq!(execute(&vec![Instr::Push(1), Instr::Add]), None);
    assert_eq!(execute(&vec![Instr::Push(6), Instr::Push(3), Instr::Div]), Some(2));
    assert_eq!(execute(&vec![Instr::Push(3), Instr::Push(6), Instr::Lt]), Some(1));
}

#[test]
fn decimal_numerals() {
    let mut text = String::from("x");
    append_decimal(&mut text, 0);
    append_spaces(&mut text, 2);
    append_decimal(&mut text, 1234567890);
    append_spaces(&mut text, 0);
    append_decimal(&mut text, u64::MAX);
    assert_eq!(text, "x0  123456789018446744073709551615");
    assert_eq!(digit_str(7), "7");
}
