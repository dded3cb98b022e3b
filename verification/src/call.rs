//! The calling convention: how a function is entered, called and left.
//!
//! A call pushes a frame of five cells on the arguments that the caller has
//! pushed before: the address to come back to, and the caller's `LCL`, `ARG`,
//! `THIS` and `THAT`, in that order. The callee's arguments start where the
//! caller pushed them, its locals right above the frame. A return takes the
//! frame down again in the opposite order and leaves the callee's result where
//! its first argument was.
use crate::segment::{
    pop_named_address, pop_named_address_code, push_name, push_name_code, push_named_address,
    push_named_address_code,
};
use crate::target::{
    assign, at, at_value, branch, emit, go, label, store, Code, Comp, Dest, Instr, InstrModel, Jump,
    Mark, Symbol, SymbolModel,
};
use vstd::prelude::*;

verus! {

/// The number of cells in a frame.
pub const FRAME_CELLS: u16 = 5;

/// The cell in which a return keeps the address to come back to.
pub const KEPT_RETURN: u16 = 13;

/// The cell in which a return keeps the address that the stack is cut back to.
pub const KEPT_TOP: u16 = 14;

/// The cell in which a return keeps the callee's result.
pub const KEPT_RESULT: u16 = 15;

/// The entry of the function `name`.
pub open spec fn entry_label(name: Seq<char>) -> SymbolModel {
    SymbolModel::Entry { function: name }
}

/// The place that the call numbered `id` in the function `caller` comes back
/// to.
pub open spec fn return_label(caller: Seq<char>, id: u64) -> SymbolModel {
    SymbolModel::Minted { function: caller, mark: Mark::Return, id }
}

/// The head of the loop numbered `id` that clears the locals of `function`.
pub open spec fn locals_top(function: Seq<char>, id: u64) -> SymbolModel {
    SymbolModel::Minted { function, mark: Mark::LocalsTop, id }
}

/// The exit of that loop.
pub open spec fn locals_done(function: Seq<char>, id: u64) -> SymbolModel {
    SymbolModel::Minted { function, mark: Mark::LocalsDone, id }
}

/// The loop that pushes `locals` zeros: `D` counts down from `locals`, and a
/// zero is pushed each time it has not gone below zero.
pub open spec fn clear_locals_code(function: Seq<char>, locals: u8, id: u64) -> Code {
    seq![
        at_value(locals as int),
        assign(Dest::D, Comp::A),
        label(locals_top(function, id)),
        at(locals_done(function, id)),
        InstrModel::Compute { dest: Dest::D, comp: Comp::DMinusOne, jump: Jump::Jlt },
        at(SymbolModel::Sp),
        assign(Dest::M, Comp::MPlusOne),
        assign(Dest::A, Comp::MMinusOne),
        assign(Dest::M, Comp::Zero),
        at(locals_top(function, id)),
        branch(Comp::Zero, Jump::Jmp),
        label(locals_done(function, id)),
    ]
}

/// The code at the head of the function `name` with `locals` local slots: its
/// entry label, and the loop that clears its locals. A function without locals
/// has the label alone.
pub open spec fn function_code(name: Seq<char>, locals: u8, id: u64) -> Code {
    if locals == 0 {
        seq![label(entry_label(name))]
    } else {
        seq![label(entry_label(name))] + clear_locals_code(name, locals, id)
    }
}

/// Points `ARG` and `LCL` at the callee's segments once the frame lies on the
/// stack: `ARG` at the first of the `args` arguments below the frame, `LCL`
/// at the top of the stack.
pub open spec fn repoint_code(args: u8) -> Code {
    seq![
        at(SymbolModel::Sp),
        assign(Dest::D, Comp::M),
        at_value(args + FRAME_CELLS),
        assign(Dest::D, Comp::DMinusA),
        at(SymbolModel::Arg),
        assign(Dest::M, Comp::D),
        at(SymbolModel::Sp),
        assign(Dest::D, Comp::M),
        at(SymbolModel::Lcl),
        assign(Dest::M, Comp::D),
    ]
}

/// Pushes the frame and points `ARG` and `LCL` at the callee's segments.
/// When it has run, `SP` is five cells higher.
pub open spec fn frame_code(back: SymbolModel, args: u8) -> Code {
    push_name_code(back) + push_named_address_code(SymbolModel::Lcl) + push_named_address_code(
        SymbolModel::Arg,
    ) + push_named_address_code(SymbolModel::This) + push_named_address_code(SymbolModel::That)
        + repoint_code(args)
}

/// The code of the call numbered `id`, in the function `caller`, of `callee`
/// with `args` arguments: the frame, the jump to the callee's entry, and the
/// label that the callee comes back to.
pub open spec fn call_code(callee: Seq<char>, args: u8, caller: Seq<char>, id: u64) -> Code {
    frame_code(return_label(caller, id), args) + seq![
        at(entry_label(callee)),
        branch(Comp::Zero, Jump::Jmp),
        label(return_label(caller, id)),
    ]
}

/// Keeps `ARG`, the address that the stack is cut back to, and moves `SP` to
/// `LCL`, right above the frame.
pub open spec fn keep_code() -> Code {
    seq![
        at(SymbolModel::Arg),
        assign(Dest::D, Comp::M),
        at_value(KEPT_TOP as int),
        assign(Dest::M, Comp::D),
        at(SymbolModel::Lcl),
        assign(Dest::D, Comp::M),
        at(SymbolModel::Sp),
        assign(Dest::M, Comp::D),
    ]
}

/// Cuts the stack back to the address that was kept.
pub open spec fn cut_code() -> Code {
    seq![
        at_value(KEPT_TOP as int),
        assign(Dest::D, Comp::M),
        at(SymbolModel::Sp),
        assign(Dest::M, Comp::D),
    ]
}

/// Loads `A` with the address to come back to.
pub open spec fn resume_code() -> Code {
    seq![at_value(KEPT_RETURN as int), assign(Dest::A, Comp::M)]
}

/// Takes the frame down. The result is popped and kept, and so is `ARG`;
/// `SP` goes to `LCL`, from where `THAT`, `THIS`, `ARG`, `LCL` and the address
/// to come back to are popped. Last the stack is cut back and the result
/// pushed. When it has run, `A` holds the address to come back to.
pub open spec fn unwind_code() -> Code {
    pop_named_address_code(SymbolModel::Value(KEPT_RESULT as u32)) + keep_code()
        + pop_named_address_code(SymbolModel::That) + pop_named_address_code(SymbolModel::This)
        + pop_named_address_code(SymbolModel::Arg) + pop_named_address_code(SymbolModel::Lcl)
        + pop_named_address_code(SymbolModel::Value(KEPT_RETURN as u32)) + cut_code()
        + push_named_address_code(SymbolModel::Value(KEPT_RESULT as u32)) + resume_code()
}

/// The code of `return`: the frame is taken down, and the caller goes on.
pub open spec fn return_code() -> Code {
    unwind_code() + seq![branch(Comp::Zero, Jump::Jmp)]
}

fn minted(function: &str, mark: Mark, id: u64) -> (s: Symbol)
    ensures
        s@ == (SymbolModel::Minted { function: function@, mark, id }),
{
    Symbol::Minted { function: String::from_str(function), mark, id }
}

/// The code at the head of the function `name` with `locals` local slots.
/// The labels of its loop carry the number `id`.
pub fn function_op(name: &str, locals: u8, id: u64) -> (code: Vec<Instr>)
    ensures
        code.deep_view() == function_code(name@, locals, id),
{
    let mut code = vec![Instr::Label(Symbol::Entry { function: String::from_str(name) })];
    assert(code.deep_view() =~= seq![label(entry_label(name@))]);
    if locals > 0 {
        let body = vec![
            Instr::At(Symbol::Value(locals as u32)),
            store(Dest::D, Comp::A),
            Instr::Label(minted(name, Mark::LocalsTop, id)),
            Instr::At(minted(name, Mark::LocalsDone, id)),
            Instr::Compute { dest: Dest::D, comp: Comp::DMinusOne, jump: Jump::Jlt },
            Instr::At(Symbol::Sp),
            store(Dest::M, Comp::MPlusOne),
            store(Dest::A, Comp::MMinusOne),
            store(Dest::M, Comp::Zero),
            Instr::At(minted(name, Mark::LocalsTop, id)),
            go(Comp::Zero, Jump::Jmp),
            Instr::Label(minted(name, Mark::LocalsDone, id)),
        ];
        assert(body.deep_view() =~= clear_locals_code(name@, locals, id));
        emit(&mut code, body);
    }
    code
}

fn frame(back: Symbol, args: u8) -> (code: Vec<Instr>)
    ensures
        code.deep_view() == frame_code(back@, args),
{
    let mut code = push_name(back);
    emit(&mut code, push_named_address(Symbol::Lcl));
    emit(&mut code, push_named_address(Symbol::Arg));
    emit(&mut code, push_named_address(Symbol::This));
    emit(&mut code, push_named_address(Symbol::That));
    let tail = vec![
        Instr::At(Symbol::Sp),
        store(Dest::D, Comp::M),
        Instr::At(Symbol::Value(args as u32 + FRAME_CELLS as u32)),
        store(Dest::D, Comp::DMinusA),
        Instr::At(Symbol::Arg),
        store(Dest::M, Comp::D),
        Instr::At(Symbol::Sp),
        store(Dest::D, Comp::M),
        Instr::At(Symbol::Lcl),
        store(Dest::M, Comp::D),
    ];
    assert(tail.deep_view() =~= repoint_code(args));
    emit(&mut code, tail);
    code
}

/// The code of a call of `callee` with `args` arguments from the function
/// `caller`. The label to come back to carries the number `id`.
pub fn call_op(callee: &str, args: u8, caller: &str, id: u64) -> (code: Vec<Instr>)
    ensures
        code.deep_view() == call_code(callee@, args, caller@, id),
{
    let mut code = frame(minted(caller, Mark::Return, id), args);
    let tail = vec![
        Instr::At(Symbol::Entry { function: String::from_str(callee) }),
        go(Comp::Zero, Jump::Jmp),
        Instr::Label(minted(caller, Mark::Return, id)),
    ];
    assert(tail.deep_view() =~= seq![
        at(entry_label(callee@)),
        branch(Comp::Zero, Jump::Jmp),
        label(return_label(caller@, id)),
    ]);
    emit(&mut code, tail);
    code
}

fn unwind() -> (code: Vec<Instr>)
    ensures
        code.deep_view() == unwind_code(),
{
    let mut code = pop_named_address(Symbol::Value(KEPT_RESULT as u32));
    let keep = vec![
        Instr::At(Symbol::Arg),
        store(Dest::D, Comp::M),
        Instr::At(Symbol::Value(KEPT_TOP as u32)),
        store(Dest::M, Comp::D),
        Instr::At(Symbol::Lcl),
        store(Dest::D, Comp::M),
        Instr::At(Symbol::Sp),
        store(Dest::M, Comp::D),
    ];
    assert(keep.deep_view() =~= keep_code());
    emit(&mut code, keep);
    emit(&mut code, pop_named_address(Symbol::That));
    emit(&mut code, pop_named_address(Symbol::This));
    emit(&mut code, pop_named_address(Symbol::Arg));
    emit(&mut code, pop_named_address(Symbol::Lcl));
    emit(&mut code, pop_named_address(Symbol::Value(KEPT_RETURN as u32)));
    let cut = vec![
        Instr::At(Symbol::Value(KEPT_TOP as u32)),
        store(Dest::D, Comp::M),
        Instr::At(Symbol::Sp),
        store(Dest::M, Comp::D),
    ];
    assert(cut.deep_view() =~= cut_code());
    emit(&mut code, cut);
    emit(&mut code, push_named_address(Symbol::Value(KEPT_RESULT as u32)));
    let back = vec![Instr::At(Symbol::Value(KEPT_RETURN as u32)), store(Dest::A, Comp::M)];
    assert(back.deep_view() =~= resume_code());
    emit(&mut code, back);
    code
}

/// The code of `return`.
pub fn return_op() -> (code: Vec<Instr>)
    ensures
        code.deep_view() == return_code(),
{
    let mut code = unwind();
    let jump = vec![go(Comp::Zero, Jump::Jmp)];
    assert(jump.deep_view() =~= seq![branch(Comp::Zero, Jump::Jmp)]);
    emit(&mut code, jump);
    code
}

} // verus!
