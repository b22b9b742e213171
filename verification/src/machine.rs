use vstd::prelude::*;
use crate::codegen::{code, complete, instr_of, operator_instr, Instr};
use crate::parse::{Node, NodeKind};

verus! {

/// The value that a literal has on the machine: its 64 bits, read as a
/// signed number.
pub open spec fn literal_word(value: u64) -> i64 {
    if value <= i64::MAX {
        value as int as i64
    } else {
        (value - 0x1_0000_0000_0000_0000) as i64
    }
}

/// `x` reduced to 64 bits and read as a signed number.
pub open spec fn wrap(x: int) -> i64 {
    let low = x % 0x1_0000_0000_0000_0000;
    if low > i64::MAX {
        (low - 0x1_0000_0000_0000_0000) as i64
    } else {
        low as i64
    }
}

/// The quotient of `a` by `b`, rounded toward zero.
pub open spec fn truncated_quotient(a: int, b: int) -> int
    recommends
        b != 0,
{
    if a >= 0 && b > 0 {
        a / b
    } else if a < 0 && b < 0 {
        (-a) / (-b)
    } else if a < 0 {
        -((-a) / b)
    } else {
        -(a / (-b))
    }
}

pub open spec fn flag(holds: bool) -> i64 {
    if holds {
        1
    } else {
        0
    }
}

/// What a binary instruction makes of the left operand `a` and the right
/// operand `b`. Sums, differences and products wrap at 64 bits. A division
/// has no result where the machine faults: on a zero divisor, and on a
/// quotient that does not fit in 64 bits. A comparison gives 1 or 0. `Push`
/// combines nothing.
pub open spec fn apply(instr: Instr, a: i64, b: i64) -> Option<i64> {
    match instr {
        Instr::Push(_) => None,
        Instr::Add => Some(wrap(a + b)),
        Instr::Sub => Some(wrap(a - b)),
        Instr::Mul => Some(wrap(a * b)),
        Instr::Div => if b == 0 || !(i64::MIN <= truncated_quotient(a as int, b as int)
            <= i64::MAX) {
            None
        } else {
            Some(truncated_quotient(a as int, b as int) as i64)
        },
        Instr::Eq => Some(flag(a == b)),
        Instr::Neq => Some(flag(a != b)),
        Instr::Lt => Some(flag(a < b)),
        Instr::Leq => Some(flag(a <= b)),
        Instr::Gt => Some(flag(a > b)),
        Instr::Geq => Some(flag(a >= b)),
    }
}

/// The stack after one instruction, or `None` where the machine stops: on a
/// fault, or where the stack holds fewer than two values for an operator.
pub open spec fn step(stack: Seq<i64>, instr: Instr) -> Option<Seq<i64>> {
    match instr {
        Instr::Push(value) => Some(stack.push(literal_word(value))),
        _ => if stack.len() < 2 {
            None
        } else {
            match apply(instr, stack[stack.len() - 2], stack[stack.len() - 1]) {
                Some(result) => Some(stack.take(stack.len() - 2).push(result)),
                None => None,
            }
        },
    }
}

/// The stack after running `instrs` in order from `stack`.
pub open spec fn run(instrs: Seq<Instr>, stack: Seq<i64>) -> Option<Seq<i64>>
    decreases instrs.len(),
{
    if instrs.len() == 0 {
        Some(stack)
    } else {
        match step(stack, instrs[0]) {
            Some(next) => run(instrs.drop_first(), next),
            None => None,
        }
    }
}

/// The value of a tree, computed on the tree itself with the arithmetic of
/// the machine. A tree in which a division faults, or an operator lacks an
/// operand, has none.
pub open spec fn eval(node: Node) -> Option<i64>
    decreases node,
{
    match node.kind {
        NodeKind::Num(value) => Some(literal_word(value)),
        _ => if node.lhs is Some && node.rhs is Some {
            match (eval(*node.lhs->0), eval(*node.rhs->0)) {
                (Some(a), Some(b)) => apply(instr_of(node.kind), a, b),
                _ => None,
            }
        } else {
            None
        },
    }
}

/// Running two pieces of code one behind the other is running the second on
/// what the first leaves.
pub proof fn lemma_run_concat(first: Seq<Instr>, second: Seq<Instr>, stack: Seq<i64>)
    ensures
        run(first + second, stack) == match run(first, stack) {
            Some(middle) => run(second, middle),
            None => None,
        },
    decreases first.len(),
{
    if first.len() == 0 {
        assert(first + second =~= second);
    } else {
        assert((first + second)[0] == first[0]);
        assert((first + second).drop_first() =~= first.drop_first() + second);
        match step(stack, first[0]) {
            Some(next) => {
                lemma_run_concat(first.drop_first(), second, next);
            },
            None => {},
        }
    }
}

/// Compiling and running agrees with evaluating: on any stack, the code of a
/// complete tree pushes the value of the tree and leaves the rest of the
/// stack alone, and it stops on a fault exactly where the tree has no value.
pub proof fn lemma_code_computes_eval(node: Node, stack: Seq<i64>)
    requires
        complete(node),
    ensures
        run(code(node), stack) == match eval(node) {
            Some(value) => Some(stack.push(value)),
            None => None,
        },
    decreases node,
{
    match node.kind {
        NodeKind::Num(value) => {
            let c = code(node);
            assert(c.drop_first() =~= Seq::<Instr>::empty());
            assert(run(c.drop_first(), stack.push(literal_word(value))) == Some(
                stack.push(literal_word(value)),
            ));
        },
        _ => {
            let left = *node.lhs->0;
            let right = *node.rhs->0;
            let op = seq![instr_of(node.kind)];
            lemma_code_computes_eval(left, stack);
            lemma_run_concat(code(left) + code(right), op, stack);
            lemma_run_concat(code(left), code(right), stack);
            if let Some(a) = eval(left) {
                lemma_code_computes_eval(right, stack.push(a));
                if let Some(b) = eval(right) {
                    let both = stack.push(a).push(b);
                    assert(both.take(both.len() - 2) =~= stack);
                    assert(op.drop_first() =~= Seq::<Instr>::empty());
                    assert(run(op, both) == match step(both, op[0]) {
                        Some(next) => run(op.drop_first(), next),
                        None => None,
                    });
                }
            }
        },
    }
}

/// What a whole program computes: the one value that its run from the empty
/// stack leaves. A program that faults, or leaves no value or several, computes
/// nothing.
pub open spec fn outcome(instrs: Seq<Instr>) -> Option<i64> {
    match run(instrs, Seq::empty()) {
        Some(stack) => if stack.len() == 1 {
            Some(stack[0])
        } else {
            None
        },
        None => None,
    }
}

/// The code of a complete tree computes the value of the tree.
pub proof fn lemma_outcome_is_eval(node: Node)
    requires
        complete(node),
    ensures
        outcome(code(node)) == eval(node),
{
    lemma_code_computes_eval(node, Seq::empty());
}

/// What a binary instruction makes of `a` and `b` in unbounded arithmetic.
pub open spec fn exact(instr: Instr, a: int, b: int) -> Option<int> {
    match instr {
        Instr::Push(_) => None,
        Instr::Add => Some(a + b),
        Instr::Sub => Some(a - b),
        Instr::Mul => Some(a * b),
        Instr::Div => if b == 0 {
            None
        } else {
            Some(truncated_quotient(a, b))
        },
        Instr::Eq => Some(flag(a == b) as int),
        Instr::Neq => Some(flag(a != b) as int),
        Instr::Lt => Some(flag(a < b) as int),
        Instr::Leq => Some(flag(a <= b) as int),
        Instr::Gt => Some(flag(a > b) as int),
        Instr::Geq => Some(flag(a >= b) as int),
    }
}

/// The value of a tree in unbounded arithmetic: sums, differences and
/// products of integers, quotients rounded toward zero, comparisons as 1 or
/// 0. A division by zero has no value.
pub open spec fn value(node: Node) -> Option<int>
    decreases node,
{
    match node.kind {
        NodeKind::Num(literal) => Some(literal as int),
        _ => if node.lhs is Some && node.rhs is Some {
            match (value(*node.lhs->0), value(*node.rhs->0)) {
                (Some(a), Some(b)) => exact(instr_of(node.kind), a, b),
                _ => None,
            }
        } else {
            None
        },
    }
}

/// The tree and each of its subtrees has a value, and each of these values
/// is a signed number of 64 bits.
pub open spec fn in_range(node: Node) -> bool
    decreases node,
{
    &&& value(node) is Some
    &&& i64::MIN <= value(node)->0 <= i64::MAX
    &&& match node.kind {
        NodeKind::Num(_) => true,
        _ => node.lhs is Some && node.rhs is Some && in_range(*node.lhs->0) && in_range(
            *node.rhs->0,
        ),
    }
}

/// A number of 64 bits is not changed by wrapping.
pub proof fn lemma_wrap_in_range(x: int)
    requires
        i64::MIN <= x <= i64::MAX,
    ensures
        wrap(x) == x,
{
}

/// Where no intermediate result leaves 64 bits, the machine computes what
/// unbounded arithmetic gives.
pub proof fn lemma_eval_is_value(node: Node)
    requires
        in_range(node),
    ensures
        eval(node) == Some(value(node)->0 as i64),
    decreases node,
{
    match node.kind {
        NodeKind::Num(_) => {},
        _ => {
            reveal_with_fuel(in_range, 2);
            lemma_eval_is_value(*node.lhs->0);
            lemma_eval_is_value(*node.rhs->0);
            lemma_wrap_in_range(value(node)->0);
        },
    }
}

/// Zero divided by anything is zero.
proof fn lemma_zero_quotient(b: int)
    requires
        b != 0,
    ensures
        truncated_quotient(0, b) == 0,
{
    if b > 0 {
        assert(0int / b == 0) by (nonlinear_arith)
            requires
                b > 0,
        ;
    } else {
        assert(0int / (-b) == 0) by (nonlinear_arith)
            requires
                -b > 0,
        ;
    }
}

/// A tree whose values all fit has all its operands.
pub proof fn lemma_in_range_complete(node: Node)
    requires
        in_range(node),
    ensures
        complete(node),
    decreases node,
{
    match node.kind {
        NodeKind::Num(_) => {},
        _ => {
            lemma_in_range_complete(*node.lhs->0);
            lemma_in_range_complete(*node.rhs->0);
        },
    }
}

/// The round trip: where no intermediate result leaves 64 bits, the code of
/// a tree, run on the stack machine, computes the value that the tree has in
/// unbounded arithmetic.
pub proof fn lemma_code_computes_value(node: Node)
    requires
        in_range(node),
    ensures
        complete(node),
        outcome(code(node)) == Some(value(node)->0 as i64),
{
    lemma_in_range_complete(node);
    lemma_outcome_is_eval(node);
    lemma_eval_is_value(node);
}

/// The machine value of a literal.
pub fn word(value: u64) -> (w: i64)
    ensures
        w == literal_word(value),
{
    if value <= 0x7fff_ffff_ffff_ffff {
        value as i64
    } else {
        ((value - 0x8000_0000_0000_0000) as i64) + i64::MIN
    }
}

/// Applies a binary instruction to the left operand `a` and the right operand
/// `b`.
pub fn combine(instr: Instr, a: i64, b: i64) -> (res: Option<i64>)
    ensures
        res == apply(instr, a, b),
{
    match instr {
        Instr::Push(_) => None,
        Instr::Add => {
            let r = a.wrapping_add(b);
            assert(r == wrap(a + b));
            Some(r)
        },
        Instr::Sub => {
            let r = a.wrapping_sub(b);
            assert(r == wrap(a - b));
            Some(r)
        },
        Instr::Mul => {
            let r = a.wrapping_mul(b);
            assert(r == wrap(a * b));
            Some(r)
        },
        Instr::Div => {
            proof {
                if b != 0 && a == 0 {
                    lemma_zero_quotient(b as int);
                }
            }
            a.checked_div(b)
        },
        Instr::Eq => Some(if a == b { 1 } else { 0 }),
        Instr::Neq => Some(if a != b { 1 } else { 0 }),
        Instr::Lt => Some(if a < b { 1 } else { 0 }),
        Instr::Leq => Some(if a <= b { 1 } else { 0 }),
        Instr::Gt => Some(if a > b { 1 } else { 0 }),
        Instr::Geq => Some(if a >= b { 1 } else { 0 }),
    }
}

/// Runs a program from the empty stack and returns what it computes.
pub fn execute(instrs: &Vec<Instr>) -> (res: Option<i64>)
    ensures
        res == outcome(instrs@),
{
    let mut stack: Vec<i64> = Vec::new();
    let mut i: usize = 0;
    assert(instrs@.skip(0) =~= instrs@);
    while i < instrs.len()
        invariant
            i <= instrs.len(),
            run(instrs@, Seq::empty()) == run(instrs@.skip(i as int), stack@),
        decreases instrs.len() - i,
    {
        let ghost before = stack@;
        let ghost rest = instrs@.skip(i as int);
        assert(rest[0] == instrs@[i as int]);
        assert(rest.drop_first() =~= instrs@.skip(i + 1));
        match instrs[i] {
            Instr::Push(value) => {
                stack.push(word(value));
            },
            instr => {
                if stack.len() < 2 {
                    return None;
                }
                let b = stack[stack.len() - 1];
                let a = stack[stack.len() - 2];
                match combine(instr, a, b) {
                    Some(result) => {
                        stack.pop();
                        stack.pop();
                        stack.push(result);
                        assert(stack@ =~= before.take(before.len() - 2).push(result));
                    },
                    None => {
                        return None;
                    },
                }
            },
        }
        i += 1;
    }
    if stack.len() == 1 {
        Some(stack[0])
    } else {
        None
    }
}

/// The value of a tree, computed on the tree itself.
pub fn evaluate(node: &Node) -> (res: Option<i64>)
    ensures
        res == eval(*node),
    decreases *node,
{
    if let NodeKind::Num(value) = node.kind {
        return Some(word(value));
    }
    let lhs = match &node.lhs {
        Some(lhs) => lhs,
        None => {
            return None;
        },
    };
    let rhs = match &node.rhs {
        Some(rhs) => rhs,
        None => {
            return None;
        },
    };
    let a = match evaluate(lhs) {
        Some(a) => a,
        None => {
            return None;
        },
    };
    let b = match evaluate(rhs) {
        Some(b) => b,
        None => {
            return None;
        },
    };
    combine(operator_instr(node.kind), a, b)
}

} // verus!
