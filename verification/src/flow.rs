//! Control flow within a function: labels, and the jumps to them.
//!
//! A label of the source is known only inside the function that declares it:
//! its symbol carries that function's name. Whether a jump's label is
//! declared anywhere is not looked into; a jump to a label that is not leaves
//! a symbol in the target code that nothing defines.
use crate::segment::{pop_d, pop_d_code};
use crate::target::{at, branch, emit, go, label, Code, Comp, Instr, Jump, Symbol, SymbolModel};
use vstd::prelude::*;

verus! {

/// The symbol of the label `name` declared in `function`.
pub open spec fn scoped_label(name: Seq<char>, function: Seq<char>) -> SymbolModel {
    SymbolModel::Scoped { function, label: name }
}

/// Defines the label: no instruction, and no change to the stack.
pub open spec fn label_code(name: Seq<char>, function: Seq<char>) -> Code {
    seq![label(scoped_label(name, function))]
}

/// Jumps to the label, whatever the stack holds.
pub open spec fn goto_code(name: Seq<char>, function: Seq<char>) -> Code {
    seq![at(scoped_label(name, function)), branch(Comp::Zero, Jump::Jmp)]
}

/// Pops a value and jumps to the label unless the value is zero: the stack is
/// one slot lower whether the jump is taken or not.
pub open spec fn if_goto_code(name: Seq<char>, function: Seq<char>) -> Code {
    pop_d_code() + seq![at(scoped_label(name, function)), branch(Comp::D, Jump::Jne)]
}

fn scoped(name: &str, function: &str) -> (s: Symbol)
    ensures
        s@ == scoped_label(name@, function@),
{
    Symbol::Scoped { function: String::from_str(function), label: String::from_str(name) }
}

/// The code of `label name` in the function `function`.
pub fn label_op(name: &str, function: &str) -> (code: Vec<Instr>)
    ensures
        code.deep_view() == label_code(name@, function@),
{
    let code = vec![Instr::Label(scoped(name, function))];
    assert(code.deep_view() =~= label_code(name@, function@));
    code
}

/// The code of `goto name` in the function `function`.
pub fn goto_op(name: &str, function: &str) -> (code: Vec<Instr>)
    ensures
        code.deep_view() == goto_code(name@, function@),
{
    let code = vec![
        Instr::At(scoped(name, function)),
        go(Comp::Zero, Jump::Jmp),
    ];
    assert(code.deep_view() =~= goto_code(name@, function@));
    code
}

/// The code of `if-goto name` in the function `function`.
pub fn if_goto_op(name: &str, function: &str) -> (code: Vec<Instr>)
    ensures
        code.deep_view() == if_goto_code(name@, function@),
{
    let mut code = pop_d();
    let tail = vec![
        Instr::At(scoped(name, function)),
        go(Comp::D, Jump::Jne),
    ];
    assert(tail.deep_view() =~= if_goto_code(name@, function@).skip(3));
    emit(&mut code, tail);
    assert(code.deep_view() =~= if_goto_code(name@, function@));
    code
}

} // verus!
