//! Arithmetic on the top of the stack: the operators with two operands, those
//! with one, and the comparisons.
//!
//! `y` is the value on top of the stack and `x` the one below it.
use crate::target::{
    assign, at, branch, go, label, store, Code, Comp, Dest, Instr, Jump, Mark, Symbol, SymbolModel,
};
use vstd::prelude::*;

verus! {

/// The operators that replace `x` and `y` by one value.
#[derive(Clone, Copy, Debug, PartialEq, Eq, Structural)]
pub enum BinaryOp {
    Add,
    Sub,
    And,
    Or,
}

/// The operators that replace `y` by another value.
#[derive(Clone, Copy, Debug, PartialEq, Eq, Structural)]
pub enum UnaryOp {
    Neg,
    Not,
}

/// The relations between `x` and `y` that a comparison tests.
#[derive(Clone, Copy, Debug, PartialEq, Eq, Structural)]
pub enum Relation {
    Eq,
    Gt,
    Lt,
}

/// What the machine computes for `x op y` once `D` holds `y` and `M` is `x`.
pub open spec fn binary_comp(op: BinaryOp) -> Comp {
    match op {
        BinaryOp::Add => Comp::DPlusM,
        BinaryOp::Sub => Comp::MMinusD,
        BinaryOp::And => Comp::DAndM,
        BinaryOp::Or => Comp::DOrM,
    }
}

/// What the machine computes for `op y` once `M` is `y`.
pub open spec fn unary_comp(op: UnaryOp) -> Comp {
    match op {
        UnaryOp::Neg => Comp::NegM,
        UnaryOp::Not => Comp::NotM,
    }
}

/// The jump that is taken when `x - y` stands in the relation to zero.
pub open spec fn relation_jump(relation: Relation) -> Jump {
    match relation {
        Relation::Eq => Jump::Jeq,
        Relation::Gt => Jump::Jgt,
        Relation::Lt => Jump::Jlt,
    }
}

/// Pops `y`, and replaces `x` by `x op y`: the stack is one slot lower.
pub open spec fn binary_code(op: BinaryOp) -> Code {
    seq![
        at(SymbolModel::Sp),
        assign(Dest::AM, Comp::MMinusOne),
        assign(Dest::D, Comp::M),
        assign(Dest::A, Comp::AMinusOne),
        assign(Dest::M, binary_comp(op)),
    ]
}

/// Replaces `y` by `op y` where it lies: the stack keeps its height.
pub open spec fn unary_code(op: UnaryOp) -> Code {
    seq![
        at(SymbolModel::Sp),
        assign(Dest::A, Comp::MMinusOne),
        assign(Dest::M, unary_comp(op)),
    ]
}

/// The label that the comparison numbered `id` in `function` jumps to when
/// it holds.
pub open spec fn if_true_label(function: Seq<char>, id: u64) -> SymbolModel {
    SymbolModel::Minted { function, mark: Mark::IfTrue, id }
}

/// Pops `y`, and replaces `x` by all bits set if `x - y` stands in the
/// relation to zero, by zero if not: the stack is one slot lower. The slot is
/// first set to true; unless the jump is taken it is set to false after all.
pub open spec fn comparison_code(relation: Relation, function: Seq<char>, id: u64) -> Code {
    seq![
        at(SymbolModel::Sp),
        assign(Dest::AM, Comp::MMinusOne),
        assign(Dest::D, Comp::M),
        assign(Dest::A, Comp::AMinusOne),
        assign(Dest::D, Comp::MMinusD),
        assign(Dest::M, Comp::MinusOne),
        at(if_true_label(function, id)),
        branch(Comp::D, relation_jump(relation)),
        at(SymbolModel::Sp),
        assign(Dest::A, Comp::MMinusOne),
        assign(Dest::M, Comp::Zero),
        label(if_true_label(function, id)),
    ]
}

impl BinaryOp {
    /// What the machine computes for the operator.
    pub fn comp(self) -> (c: Comp)
        ensures
            c == binary_comp(self),
    {
        match self {
            BinaryOp::Add => Comp::DPlusM,
            BinaryOp::Sub => Comp::MMinusD,
            BinaryOp::And => Comp::DAndM,
            BinaryOp::Or => Comp::DOrM,
        }
    }
}

impl UnaryOp {
    /// What the machine computes for the operator.
    pub fn comp(self) -> (c: Comp)
        ensures
            c == unary_comp(self),
    {
        match self {
            UnaryOp::Neg => Comp::NegM,
            UnaryOp::Not => Comp::NotM,
        }
    }
}

impl Relation {
    /// The jump that is taken when the relation holds.
    pub fn jump(self) -> (j: Jump)
        ensures
            j == relation_jump(self),
    {
        match self {
            Relation::Eq => Jump::Jeq,
            Relation::Gt => Jump::Jgt,
            Relation::Lt => Jump::Jlt,
        }
    }
}

/// The code of an operator with two operands.
pub fn binary_op(op: BinaryOp) -> (code: Vec<Instr>)
    ensures
        code.deep_view() == binary_code(op),
{
    let code = vec![
        Instr::At(Symbol::Sp),
        store(Dest::AM, Comp::MMinusOne),
        store(Dest::D, Comp::M),
        store(Dest::A, Comp::AMinusOne),
        store(Dest::M, op.comp()),
    ];
    assert(code.deep_view() =~= binary_code(op));
    code
}

/// The code of an operator with one operand.
pub fn unary_op(op: UnaryOp) -> (code: Vec<Instr>)
    ensures
        code.deep_view() == unary_code(op),
{
    let code = vec![
        Instr::At(Symbol::Sp),
        store(Dest::A, Comp::MMinusOne),
        store(Dest::M, op.comp()),
    ];
    assert(code.deep_view() =~= unary_code(op));
    code
}

/// The code of a comparison in the function `function`. Its label carries
/// the number `id`.
pub fn cmp_op(relation: Relation, function: &str, id: u64) -> (code: Vec<Instr>)
    ensures
        code.deep_view() == comparison_code(relation, function@, id),
{
    let target = Symbol::Minted { function: String::from_str(function), mark: Mark::IfTrue, id };
    let here = target.copy();
    let code = vec![
        Instr::At(Symbol::Sp),
        store(Dest::AM, Comp::MMinusOne),
        store(Dest::D, Comp::M),
        store(Dest::A, Comp::AMinusOne),
        store(Dest::D, Comp::MMinusD),
        store(Dest::M, Comp::MinusOne),
        Instr::At(target),
        go(Comp::D, relation.jump()),
        Instr::At(Symbol::Sp),
        store(Dest::A, Comp::MMinusOne),
        store(Dest::M, Comp::Zero),
        Instr::Label(here),
    ];
    assert(code.deep_view() =~= comparison_code(relation, function@, id));
    code
}

} // verus!
