//! What the code of an operator leaves on the stack.
//!
//! `y` is the value on top of the stack and `x` the one below it. Values are
//! words: sums, differences and negations are taken in 16 bits.
use crate::arith::{
    binary_code, comparison_code, if_true_label, relation_jump, unary_code, BinaryOp, Relation,
    UnaryOp,
};
use crate::bootstrap::STACK_ORIGIN;
use crate::machine::{
    address, advance_by, jumps, lands, lemma_advance_more, lemma_advance_through, lemma_landing,
    run, run_first, sp, stands_at, straight, tells_apart, word_and, word_not, word_or, wrap, Layout,
    Machine, Progress, SP, WORD_MAX,
};
use crate::target::Code;
use crate::stack::{something_to_pop, top};
use vstd::prelude::*;

verus! {

/// Whether the stack holds two values.
pub open spec fn two_to_pop(m: Machine) -> bool {
    STACK_ORIGIN + 1 < sp(m) <= WORD_MAX
}

/// The value below the top of the stack.
pub open spec fn below_top(m: Machine) -> int {
    m.ram[sp(m) - 2]
}

/// The result of an operator with two operands.
pub open spec fn binary_result(op: BinaryOp, x: int, y: int) -> int {
    match op {
        BinaryOp::Add => wrap(x + y),
        BinaryOp::Sub => wrap(x - y),
        BinaryOp::And => word_and(x, y),
        BinaryOp::Or => word_or(x, y),
    }
}

/// The result of an operator with one operand.
pub open spec fn unary_result(op: UnaryOp, y: int) -> int {
    match op {
        UnaryOp::Neg => wrap(-y),
        UnaryOp::Not => word_not(y),
    }
}

/// Whether `x` and `y` stand in a relation as the machine sees it: whether
/// their difference, as a word, stands in the relation to zero.
pub open spec fn holds(relation: Relation, x: int, y: int) -> bool {
    jumps(relation_jump(relation), wrap(x - y))
}

/// The word that stands for a truth value: all bits set for true, none for
/// false.
pub open spec fn truth(b: bool) -> int {
    if b {
        -1
    } else {
        0
    }
}

/// The memory after the two topmost values were replaced by `v`.
pub open spec fn replaced_two(ram: Map<int, int>, v: int) -> Map<int, int> {
    ram.insert(SP as int, ram[SP as int] - 1).insert(ram[SP as int] - 2, v)
}

/// Conjunction and disjunction do not mind the order of their operands.
pub proof fn lemma_word_and_or_commute(x: int, y: int)
    ensures
        word_and(x, y) == word_and(y, x),
        word_or(x, y) == word_or(y, x),
{
    let a = x as i16;
    let b = y as i16;
    assert(a & b == b & a) by (bit_vector);
    assert(a | b == b | a) by (bit_vector);
}

/// An operator with two operands pops both and pushes `x op y`: the stack is
/// one slot lower, and no cell but that of the result and `SP` has changed.
pub proof fn lemma_binary(op: BinaryOp, m: Machine, layout: Layout)
    requires
        two_to_pop(m),
    ensures
        run(binary_code(op), m, layout).ram == replaced_two(
            m.ram,
            binary_result(op, below_top(m), top(m)),
        ),
{
    reveal_with_fuel(run_first, 6);
    lemma_word_and_or_commute(below_top(m), top(m));
    assert(run(binary_code(op), m, layout).ram =~= replaced_two(
        m.ram,
        binary_result(op, below_top(m), top(m)),
    ));
}

/// An operator with one operand replaces `y` by `op y`: the stack keeps its
/// height, and no other cell has changed.
pub proof fn lemma_unary(op: UnaryOp, m: Machine, layout: Layout)
    requires
        something_to_pop(m),
    ensures
        run(unary_code(op), m, layout).ram == m.ram.insert(
            sp(m) - 1,
            unary_result(op, top(m)),
        ),
{
    reveal_with_fuel(run_first, 4);
    assert(run(unary_code(op), m, layout).ram =~= m.ram.insert(
        sp(m) - 1,
        unary_result(op, top(m)),
    ));
}

/// The number of lines that the machine goes through in the code of a
/// comparison: it jumps over three where the relation holds.
pub open spec fn comparison_lines(taken: bool) -> nat {
    if taken {
        9
    } else {
        12
    }
}

/// A comparison, within a larger piece of code, pops both values and pushes
/// the truth value of the relation: the stack is one slot lower, no cell but
/// that of the result and `SP` has changed, and the machine has come to the
/// end of the comparison.
pub proof fn lemma_comparison(
    code: Code,
    k: int,
    relation: Relation,
    function: Seq<char>,
    id: u64,
    m: Machine,
    layout: Layout,
)
    requires
        stands_at(code, k, comparison_code(relation, function, id)),
        tells_apart(code, layout),
        two_to_pop(m),
    ensures
        advance_by(
            code,
            Progress { m, pc: k },
            layout,
            comparison_lines(holds(relation, below_top(m), top(m))),
        ).pc == k + comparison_code(relation, function, id).len(),
        advance_by(
            code,
            Progress { m, pc: k },
            layout,
            comparison_lines(holds(relation, below_top(m), top(m))),
        ).m.ram == replaced_two(m.ram, truth(holds(relation, below_top(m), top(m)))),
{
    let part = comparison_code(relation, function, id);
    let from = Progress { m, pc: k };
    let target = if_true_label(function, id);
    let taken = holds(relation, below_top(m), top(m));
    assert(straight(part.take(7)));
    lemma_advance_through(code, k, part, 7, m, layout);
    let at_jump = advance_by(code, from, layout, 7);
    reveal_with_fuel(run_first, 8);
    assert(at_jump.m.ram =~= replaced_two(m.ram, -1));
    assert(at_jump.m.d == wrap(below_top(m) - top(m)));
    assert(at_jump.m.a == address(layout, target));
    assert(code[k + 7] == code.subrange(k, k + 12)[7]);
    assert(code[k + 8] == code.subrange(k, k + 12)[8]);
    assert(code[k + 9] == code.subrange(k, k + 12)[9]);
    assert(code[k + 10] == code.subrange(k, k + 12)[10]);
    assert(code[k + 11] == code.subrange(k, k + 12)[11]);
    reveal_with_fuel(advance_by, 6);
    if taken {
        assert(lands(code, layout, at_jump.m.a, k + 11));
        lemma_landing(code, layout, at_jump.m.a, k + 11);
        lemma_advance_more(code, from, layout, 7, 2);
    } else {
        lemma_advance_more(code, from, layout, 7, 5);
        let at_end = advance_by(code, at_jump, layout, 5);
        assert(at_end.m.ram =~= replaced_two(m.ram, 0));
    }
}

/// The code of an operator with one or two operands is straight: the machine
/// goes through it line by line, and `run` tells what it does.
pub proof fn lemma_operator_straight(binary: BinaryOp, unary: UnaryOp)
    ensures
        straight(binary_code(binary)),
        straight(unary_code(unary)),
{
}

} // verus!
