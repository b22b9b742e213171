use vstd::prelude::*;
use vstd::string::*;
use crate::text::{append_decimal, decimal};
use crate::error::CompileError;
use crate::parse::{Node, NodeKind};

verus! {

/// An instruction of the stack machine. `Push` puts a literal on the
/// evaluation stack; every other instruction pops two values, the right
/// operand first, and pushes one.
#[derive(Debug, Copy, Clone, PartialEq, Eq, Structural)]
pub enum Instr {
    Push(u64),
    Add,
    Sub,
    Mul,
    Div,
    Eq,
    Neq,
    Lt,
    Leq,
    Gt,
    Geq,
}

/// The instruction that computes an operator node of kind `kind`, or pushes
/// the literal of a leaf.
pub open spec fn instr_of(kind: NodeKind) -> Instr {
    match kind {
        NodeKind::Num(value) => Instr::Push(value),
        NodeKind::Add => Instr::Add,
        NodeKind::Sub => Instr::Sub,
        NodeKind::Mul => Instr::Mul,
        NodeKind::Div => Instr::Div,
        NodeKind::Eq => Instr::Eq,
        NodeKind::Neq => Instr::Neq,
        NodeKind::Lt => Instr::Lt,
        NodeKind::Leq => Instr::Leq,
        NodeKind::Gt => Instr::Gt,
        NodeKind::Geq => Instr::Geq,
    }
}

/// Every operator of the tree has both its operands. Code is generated for
/// such trees and no others; what hangs below a leaf is not looked at.
pub open spec fn complete(node: Node) -> bool
    decreases node,
{
    match node.kind {
        NodeKind::Num(_) => true,
        _ => node.lhs is Some && node.rhs is Some && complete(*node.lhs->0) && complete(
            *node.rhs->0,
        ),
    }
}

/// The code of a complete tree, in post-order: the code of the left operand,
/// that of the right operand, then the operator. A leaf is one push.
pub open spec fn code(node: Node) -> Seq<Instr>
    decreases node,
{
    match node.kind {
        NodeKind::Num(value) => seq![Instr::Push(value)],
        _ => if node.lhs is Some && node.rhs is Some {
            code(*node.lhs->0) + code(*node.rhs->0) + seq![instr_of(node.kind)]
        } else {
            Seq::empty()
        },
    }
}

/// A tree of the shape that the parser builds is complete.
pub proof fn lemma_wf_complete(node: Node)
    requires
        node.wf(),
    ensures
        complete(node),
    decreases node,
{
    match node.kind {
        NodeKind::Num(_) => {},
        _ => {
            lemma_wf_complete(*node.lhs->0);
            lemma_wf_complete(*node.rhs->0);
        },
    }
}

/// The instruction that computes a node of kind `kind`.
pub fn operator_instr(kind: NodeKind) -> (instr: Instr)
    ensures
        instr == instr_of(kind),
{
    match kind {
        NodeKind::Num(value) => Instr::Push(value),
        NodeKind::Add => Instr::Add,
        NodeKind::Sub => Instr::Sub,
        NodeKind::Mul => Instr::Mul,
        NodeKind::Div => Instr::Div,
        NodeKind::Eq => Instr::Eq,
        NodeKind::Neq => Instr::Neq,
        NodeKind::Lt => Instr::Lt,
        NodeKind::Leq => Instr::Leq,
        NodeKind::Gt => Instr::Gt,
        NodeKind::Geq => Instr::Geq,
    }
}

/// Appends the code of `node` to `out`. On a tree that is not complete it
/// fails; `out` then holds what was emitted before the gap was met, behind
/// what it held before.
fn gen_main(node: &Node, out: &mut Vec<Instr>) -> (res: Result<(), CompileError>)
    ensures
        res is Ok <==> complete(*node),
        res is Ok ==> final(out)@ == old(out)@ + code(*node),
        res is Err ==> res == Err::<(), CompileError>(CompileError::MissingOperand),
        old(out)@.is_prefix_of(final(out)@),
    decreases *node,
{
    if let NodeKind::Num(num) = node.kind {
        out.push(Instr::Push(num));
        assert(final(out)@ =~= old(out)@ + code(*node));
        return Ok(());
    }
    let lhs = match &node.lhs {
        Some(lhs) => lhs,
        None => {
            return Err(CompileError::MissingOperand);
        },
    };
    let rhs = match &node.rhs {
        Some(rhs) => rhs,
        None => {
            return Err(CompileError::MissingOperand);
        },
    };
    match gen_main(lhs, out) {
        Ok(_) => {},
        Err(e) => {
            return Err(e);
        },
    }
    match gen_main(rhs, out) {
        Ok(_) => {},
        Err(e) => {
            return Err(e);
        },
    }
    out.push(operator_instr(node.kind));
    assert(final(out)@ =~= old(out)@ + code(*node));
    Ok(())
}

/// The instructions that compute `node`, in post-order. A tree with an
/// operator that lacks an operand gives `MissingOperand` and no code at all.
pub fn lower(node: &Node) -> (res: Result<Vec<Instr>, CompileError>)
    ensures
        match res {
            Ok(instrs) => complete(*node) && instrs@ == code(*node),
            Err(e) => !complete(*node) && e == CompileError::MissingOperand,
        },
{
    let mut out: Vec<Instr> = Vec::new();
    match gen_main(node, &mut out) {
        Ok(_) => {
            assert(out@ =~= code(*node));
            Ok(out)
        },
        Err(e) => Err(e),
    }
}

/// What stands before the code of the expression: the syntax directive and
/// the entry point.
pub open spec fn prologue() -> Seq<char> {
    ".intel_syntax noprefix\n.globl main\nmain:\n"@
}

/// What stands behind it: the one value left on the stack is popped and
/// returned.
pub open spec fn epilogue() -> Seq<char> {
    "  pop rax\n  ret\n"@
}

/// The lines that combine the left operand in `rax` with the right operand in
/// `rdi` and leave the result in `rax`.
pub open spec fn operator_text(instr: Instr) -> Seq<char> {
    match instr {
        Instr::Push(_) => Seq::empty(),
        Instr::Add => "  add rax, rdi\n"@,
        Instr::Sub => "  sub rax, rdi\n"@,
        Instr::Mul => "  imul rax, rdi\n"@,
        Instr::Div => "  cqo\n  idiv rdi\n"@,
        Instr::Eq => "  cmp rax, rdi\n  sete al\n  movzb rax, al\n"@,
        Instr::Neq => "  cmp rax, rdi\n  setne al\n  movzb rax, al\n"@,
        Instr::Lt => "  cmp rax, rdi\n  setl al\n  movzb rax, al\n"@,
        Instr::Leq => "  cmp rax, rdi\n  setle al\n  movzb rax, al\n"@,
        Instr::Gt => "  cmp rax, rdi\n  setg al\n  movzb rax, al\n"@,
        Instr::Geq => "  cmp rax, rdi\n  setge al\n  movzb rax, al\n"@,
    }
}

/// The assembly lines of one instruction. A push is one line with the literal
/// in decimal. An operator pops the right operand, then the left one, combines
/// them and pushes the result.
pub open spec fn instr_text(instr: Instr) -> Seq<char> {
    match instr {
        Instr::Push(value) => "  push "@ + decimal(value as nat) + "\n"@,
        _ => "  pop rdi\n  pop rax\n"@ + operator_text(instr) + "  push rax\n"@,
    }
}

/// The assembly lines of a sequence of instructions, in order.
pub open spec fn body_text(instrs: Seq<Instr>) -> Seq<char>
    decreases instrs.len(),
{
    if instrs.len() == 0 {
        Seq::empty()
    } else {
        body_text(instrs.drop_last()) + instr_text(instrs.last())
    }
}

/// The whole routine: prologue, code, epilogue.
pub open spec fn assembly(instrs: Seq<Instr>) -> Seq<char> {
    prologue() + body_text(instrs) + epilogue()
}

fn operator_str(instr: Instr) -> (s: &'static str)
    ensures
        s@ == operator_text(instr),
{
    match instr {
        Instr::Push(_) => {
            proof {
                reveal_strlit("");
            }
            assert(""@ =~= Seq::<char>::empty());
            ""
        },
        Instr::Add => "  add rax, rdi\n",
        Instr::Sub => "  sub rax, rdi\n",
        Instr::Mul => "  imul rax, rdi\n",
        Instr::Div => "  cqo\n  idiv rdi\n",
        Instr::Eq => "  cmp rax, rdi\n  sete al\n  movzb rax, al\n",
        Instr::Neq => "  cmp rax, rdi\n  setne al\n  movzb rax, al\n",
        Instr::Lt => "  cmp rax, rdi\n  setl al\n  movzb rax, al\n",
        Instr::Leq => "  cmp rax, rdi\n  setle al\n  movzb rax, al\n",
        Instr::Gt => "  cmp rax, rdi\n  setg al\n  movzb rax, al\n",
        Instr::Geq => "  cmp rax, rdi\n  setge al\n  movzb rax, al\n",
    }
}

/// Appends the assembly lines of one instruction to `text`.
fn append_instr(text: &mut String, instr: Instr)
    ensures
        final(text)@ == old(text)@ + instr_text(instr),
{
    match instr {
        Instr::Push(value) => {
            text.append("  push ");
            append_decimal(text, value);
            text.append("\n");
        },
        _ => {
            text.append("  pop rdi\n  pop rax\n");
            text.append(operator_str(instr));
            text.append("  push rax\n");
        },
    }
    assert(final(text)@ =~= old(text)@ + instr_text(instr));
}

/// Writes a program out as an assembly routine that returns what the program
/// computes.
pub fn emit(instrs: &Vec<Instr>) -> (text: String)
    ensures
        text@ == assembly(instrs@),
{
    let mut text = String::new();
    text.append(".intel_syntax noprefix\n.globl main\nmain:\n");
    let mut i: usize = 0;
    assert(text@ =~= prologue() + body_text(instrs@.take(0)));
    while i < instrs.len()
        invariant
            i <= instrs.len(),
            text@ == prologue() + body_text(instrs@.take(i as int)),
        decreases instrs.len() - i,
    {
        append_instr(&mut text, instrs[i]);
        proof {
            let done = instrs@.take(i + 1);
            assert(done.drop_last() =~= instrs@.take(i as int));
            assert(done.last() == instrs@[i as int]);
            assert(text@ =~= prologue() + body_text(done));
        }
        i += 1;
    }
    text.append("  pop rax\n  ret\n");
    assert(instrs@.take(i as int) =~= instrs@);
    text
}

/// Compiles a tree to an assembly routine that computes it on the stack
/// machine: the code of the tree in post-order between prologue and epilogue.
/// A tree with an operator that lacks an operand gives `MissingOperand`, and
/// no text.
pub fn gen(node: &Node) -> (res: Result<String, CompileError>)
    ensures
        match res {
            Ok(text) => complete(*node) && text@ == assembly(code(*node)),
            Err(e) => !complete(*node) && e == CompileError::MissingOperand,
        },
{
    match lower(node) {
        Ok(instrs) => Ok(emit(&instrs)),
        Err(e) => Err(e),
    }
}

} // verus!
