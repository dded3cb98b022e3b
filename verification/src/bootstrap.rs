//! The prologue of a translated program.
//!
//! It stands before the code of the first source line. It sets the stack
//! pointer to the stack's origin, calls the program's entry function without
//! arguments, and idles in a loop should that function ever return.
use crate::call::{call_code, call_op};
use crate::context::top_level;
use crate::target::{
    assign, at, at_value, branch, code_text, emit, go, label, print_code, store, Code, Comp, Dest,
    Instr, Jump, Symbol, SymbolModel,
};
use vstd::prelude::*;

verus! {

/// The address at which the stack starts.
pub const STACK_ORIGIN: u16 = 256;

/// The function that a program starts in.
pub open spec fn entry_point() -> Seq<char> {
    "Sys.init"@
}

/// Sets the stack pointer to the stack's origin.
pub open spec fn origin_code() -> Code {
    seq![
        at_value(STACK_ORIGIN as int),
        assign(Dest::D, Comp::A),
        at(SymbolModel::Sp),
        assign(Dest::M, Comp::D),
    ]
}

/// Jumps to itself for ever.
pub open spec fn idle_code() -> Code {
    seq![label(SymbolModel::Idle), at(SymbolModel::Idle), branch(Comp::Zero, Jump::Jmp)]
}

/// The prologue: the stack pointer is set, the entry function is called once,
/// from top level and without arguments, and the idle loop follows. The call
/// carries the number 0, which no call of the source gets.
pub open spec fn bootstrap_code() -> Code {
    origin_code() + call_code(entry_point(), 0, top_level(), 0) + idle_code()
}

/// The prologue as target code.
pub fn bootstrap() -> (code: Vec<Instr>)
    ensures
        code.deep_view() == bootstrap_code(),
{
    let mut code = vec![
        Instr::At(Symbol::Value(STACK_ORIGIN as u32)),
        store(Dest::D, Comp::A),
        Instr::At(Symbol::Sp),
        store(Dest::M, Comp::D),
    ];
    assert(code.deep_view() =~= origin_code());
    emit(&mut code, call_op("Sys.init", 0, "undefined", 0));
    let idle = vec![
        Instr::Label(Symbol::Idle),
        Instr::At(Symbol::Idle),
        go(Comp::Zero, Jump::Jmp),
    ];
    assert(idle.deep_view() =~= idle_code());
    emit(&mut code, idle);
    code
}

/// The prologue as text, a line for each instruction.
pub fn print_bootstrap() -> (lines: Vec<String>)
    ensures
        lines.deep_view() == code_text(bootstrap_code()),
{
    let code = bootstrap();
    print_code(&code)
}

} // verus!
