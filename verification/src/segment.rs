//! Segment addressing: how a variable of a memory segment is reached, pushed
//! on the stack and popped from it.
//!
//! The stack grows upwards; the cell `SP` holds the address of the first free
//! slot. A virtual segment starts at the address that its base cell holds, a
//! fixed segment at an address that never changes; a static variable is a
//! symbol of its own, and a constant is no variable at all.
use crate::target::{
    assign, at, at_value, emit, store, Code, Comp, Construct, Dest, Instr, InstrModel, Symbol,
    SymbolModel,
};
use crate::text::same_text;
use vstd::prelude::*;

verus! {

/// Where the `pointer` segment starts: the cells that hold `THIS` and `THAT`.
pub const POINTER_BASE: u16 = 3;

/// Where the `temp` segment starts.
pub const TEMP_BASE: u16 = 5;

/// The cell in which a pop keeps the address it is going to write.
pub const SCRATCH: u16 = 13;

/// The memory segments of the virtual machine.
#[derive(Clone, Copy, Debug, PartialEq, Eq, Structural)]
pub enum Segment {
    Argument,
    Local,
    This,
    That,
    Temp,
    Pointer,
    Static,
    Constant,
}

/// The segment that a word of the source names, if it names one.
pub open spec fn segment_named(word: Seq<char>) -> Option<Segment> {
    if word == "argument"@ {
        Some(Segment::Argument)
    } else if word == "local"@ {
        Some(Segment::Local)
    } else if word == "this"@ {
        Some(Segment::This)
    } else if word == "that"@ {
        Some(Segment::That)
    } else if word == "temp"@ {
        Some(Segment::Temp)
    } else if word == "pointer"@ {
        Some(Segment::Pointer)
    } else if word == "static"@ {
        Some(Segment::Static)
    } else if word == "constant"@ {
        Some(Segment::Constant)
    } else {
        None
    }
}

/// The cell that holds the base of a virtual segment.
pub open spec fn base_cell(segment: Segment) -> Option<SymbolModel> {
    match segment {
        Segment::Argument => Some(SymbolModel::Arg),
        Segment::Local => Some(SymbolModel::Lcl),
        Segment::This => Some(SymbolModel::This),
        Segment::That => Some(SymbolModel::That),
        _ => None,
    }
}

impl Segment {
    /// Reads the name of a segment.
    pub fn named(word: &str) -> (r: Option<Segment>)
        ensures
            r == segment_named(word@),
    {
        if same_text(word, "argument") {
            Some(Segment::Argument)
        } else if same_text(word, "local") {
            Some(Segment::Local)
        } else if same_text(word, "this") {
            Some(Segment::This)
        } else if same_text(word, "that") {
            Some(Segment::That)
        } else if same_text(word, "temp") {
            Some(Segment::Temp)
        } else if same_text(word, "pointer") {
            Some(Segment::Pointer)
        } else if same_text(word, "static") {
            Some(Segment::Static)
        } else if same_text(word, "constant") {
            Some(Segment::Constant)
        } else {
            None
        }
    }

    /// The cell that holds the segment's base, for a virtual segment.
    pub fn base(self) -> (r: Option<Symbol>)
        ensures
            match base_cell(self) {
                Some(cell) => r.is_some() && r.unwrap()@ == cell,
                None => r.is_none(),
            },
    {
        match self {
            Segment::Argument => Some(Symbol::Arg),
            Segment::Local => Some(Symbol::Lcl),
            Segment::This => Some(Symbol::This),
            Segment::That => Some(Symbol::That),
            _ => None,
        }
    }
}

/// Pushes `D`: stores it in the first free slot and moves `SP` up by one.
pub open spec fn push_d_code() -> Code {
    seq![
        at(SymbolModel::Sp),
        assign(Dest::M, Comp::MPlusOne),
        assign(Dest::A, Comp::MMinusOne),
        assign(Dest::M, Comp::D),
    ]
}

/// Pops into `D`: moves `SP` down by one and loads the slot it now addresses.
pub open spec fn pop_d_code() -> Code {
    seq![at(SymbolModel::Sp), assign(Dest::AM, Comp::MMinusOne), assign(Dest::D, Comp::M)]
}

/// Pushes the cell `index` places above the address that `base` holds. The
/// base cell itself is only read.
pub open spec fn push_virtual_code(base: SymbolModel, index: u16) -> Code {
    seq![
        at_value(index as int),
        assign(Dest::D, Comp::A),
        at(base),
        assign(Dest::A, Comp::M),
        assign(Dest::A, Comp::DPlusA),
        assign(Dest::D, Comp::M),
    ] + push_d_code()
}

/// Pushes what the cell `address` holds.
pub open spec fn push_named_address_code(address: SymbolModel) -> Code {
    seq![at(address), assign(Dest::D, Comp::M)] + push_d_code()
}

/// Pushes the address that `name` stands for: the number itself where `name`
/// is a number.
pub open spec fn push_name_code(name: SymbolModel) -> Code {
    seq![at(name), assign(Dest::D, Comp::A)] + push_d_code()
}

/// Pushes the cell `index` places above the fixed address `address`.
pub open spec fn push_ram_code(address: u16, index: u16) -> Code {
    push_named_address_code(SymbolModel::Value((address + index) as u32))
}

/// Pushes the static variable `index` of the unit `unit`.
pub open spec fn push_static_code(unit: Seq<char>, index: u16) -> Code {
    push_named_address_code(SymbolModel::Static { unit, index })
}

/// The line that stands for an access to a segment that does not exist.
pub open spec fn unknown_segment_code(segment: Seq<char>) -> Code {
    seq![InstrModel::Unsupported { what: Construct::Segment, name: segment }]
}

/// The code of `push segment index` in the unit `unit`.
pub open spec fn push_code(segment: Seq<char>, index: u16, unit: Seq<char>) -> Code {
    match segment_named(segment) {
        Some(Segment::Argument) => push_virtual_code(SymbolModel::Arg, index),
        Some(Segment::Local) => push_virtual_code(SymbolModel::Lcl, index),
        Some(Segment::This) => push_virtual_code(SymbolModel::This, index),
        Some(Segment::That) => push_virtual_code(SymbolModel::That, index),
        Some(Segment::Temp) => push_ram_code(TEMP_BASE, index),
        Some(Segment::Pointer) => push_ram_code(POINTER_BASE, index),
        Some(Segment::Static) => push_static_code(unit, index),
        Some(Segment::Constant) => push_name_code(SymbolModel::Value(index as u32)),
        None => unknown_segment_code(segment),
    }
}

/// Pops into the cell `index` places above the address that `base` holds.
/// The address is worked out first and kept in the scratch cell, so that `D`
/// is free to carry the value; the base cell itself is only read.
pub open spec fn pop_virtual_code(base: SymbolModel, index: u16) -> Code {
    seq![
        at(base),
        assign(Dest::D, Comp::M),
        at_value(index as int),
        assign(Dest::D, Comp::DPlusA),
        at_value(SCRATCH as int),
        assign(Dest::M, Comp::D),
    ] + pop_d_code() + seq![
        at_value(SCRATCH as int),
        assign(Dest::A, Comp::M),
        assign(Dest::M, Comp::D),
    ]
}

/// Pops into the cell `address`.
pub open spec fn pop_named_address_code(address: SymbolModel) -> Code {
    pop_d_code() + seq![at(address), assign(Dest::M, Comp::D)]
}

/// Pops into the cell `index` places above the fixed address `address`.
pub open spec fn pop_ram_code(address: u16, index: u16) -> Code {
    pop_named_address_code(SymbolModel::Value((address + index) as u32))
}

/// Pops into the static variable `index` of the unit `unit`.
pub open spec fn pop_static_code(unit: Seq<char>, index: u16) -> Code {
    pop_named_address_code(SymbolModel::Static { unit, index })
}

/// The code of `pop segment index` in the unit `unit`. A constant is no place
/// to pop into: `constant` counts as unknown here.
pub open spec fn pop_code(segment: Seq<char>, index: u16, unit: Seq<char>) -> Code {
    match segment_named(segment) {
        Some(Segment::Argument) => pop_virtual_code(SymbolModel::Arg, index),
        Some(Segment::Local) => pop_virtual_code(SymbolModel::Lcl, index),
        Some(Segment::This) => pop_virtual_code(SymbolModel::This, index),
        Some(Segment::That) => pop_virtual_code(SymbolModel::That, index),
        Some(Segment::Temp) => pop_ram_code(TEMP_BASE, index),
        Some(Segment::Pointer) => pop_ram_code(POINTER_BASE, index),
        Some(Segment::Static) => pop_static_code(unit, index),
        _ => unknown_segment_code(segment),
    }
}

/// The code that pushes `D`.
pub fn push_d() -> (code: Vec<Instr>)
    ensures
        code.deep_view() == push_d_code(),
{
    let code = vec![
        Instr::At(Symbol::Sp),
        store(Dest::M, Comp::MPlusOne),
        store(Dest::A, Comp::MMinusOne),
        store(Dest::M, Comp::D),
    ];
    assert(code.deep_view() =~= push_d_code());
    code
}

/// The code that pops into `D`.
pub fn pop_d() -> (code: Vec<Instr>)
    ensures
        code.deep_view() == pop_d_code(),
{
    let code = vec![
        Instr::At(Symbol::Sp),
        store(Dest::AM, Comp::MMinusOne),
        store(Dest::D, Comp::M),
    ];
    assert(code.deep_view() =~= pop_d_code());
    code
}

/// The code that pushes a variable of the virtual segment with the base
/// cell `base`.
pub fn push_virtual(base: Symbol, index: u16) -> (code: Vec<Instr>)
    ensures
        code.deep_view() == push_virtual_code(base@, index),
{
    let mut code = vec![
        Instr::At(Symbol::Value(index as u32)),
        store(Dest::D, Comp::A),
        Instr::At(base),
        store(Dest::A, Comp::M),
        store(Dest::A, Comp::DPlusA),
        store(Dest::D, Comp::M),
    ];
    assert(code.deep_view() =~= push_virtual_code(base@, index).take(6));
    emit(&mut code, push_d());
    assert(code.deep_view() =~= push_virtual_code(base@, index));
    code
}

/// The code that pushes what the cell `address` holds.
pub fn push_named_address(address: Symbol) -> (code: Vec<Instr>)
    ensures
        code.deep_view() == push_named_address_code(address@),
{
    let mut code = vec![Instr::At(address), store(Dest::D, Comp::M)];
    assert(code.deep_view() =~= push_named_address_code(address@).take(2));
    emit(&mut code, push_d());
    assert(code.deep_view() =~= push_named_address_code(address@));
    code
}

/// The code that pushes the address that `name` stands for.
pub fn push_name(name: Symbol) -> (code: Vec<Instr>)
    ensures
        code.deep_view() == push_name_code(name@),
{
    let mut code = vec![Instr::At(name), store(Dest::D, Comp::A)];
    assert(code.deep_view() =~= push_name_code(name@).take(2));
    emit(&mut code, push_d());
    assert(code.deep_view() =~= push_name_code(name@));
    code
}

/// The code that pushes a variable of the fixed segment that starts at
/// `address`.
pub fn push_ram(address: u16, index: u16) -> (code: Vec<Instr>)
    ensures
        code.deep_view() == push_ram_code(address, index),
{
    push_named_address(Symbol::Value(address as u32 + index as u32))
}

/// The code that pushes a static variable of the unit `unit`.
pub fn push_static(unit: &str, index: u16) -> (code: Vec<Instr>)
    ensures
        code.deep_view() == push_static_code(unit@, index),
{
    push_named_address(Symbol::Static { unit: String::from_str(unit), index })
}

fn unknown_segment(segment: &str) -> (code: Vec<Instr>)
    ensures
        code.deep_view() == unknown_segment_code(segment@),
{
    let code = vec![
        Instr::Unsupported { what: Construct::Segment, name: String::from_str(segment) },
    ];
    assert(code.deep_view() =~= unknown_segment_code(segment@));
    code
}

/// The code of `push segment index` in the unit `unit`. A segment that does
/// not exist gives one line that says so.
pub fn push_op(segment: &str, index: u16, unit: &str) -> (code: Vec<Instr>)
    ensures
        code.deep_view() == push_code(segment@, index, unit@),
{
    match Segment::named(segment) {
        Some(Segment::Argument) => push_virtual(Symbol::Arg, index),
        Some(Segment::Local) => push_virtual(Symbol::Lcl, index),
        Some(Segment::This) => push_virtual(Symbol::This, index),
        Some(Segment::That) => push_virtual(Symbol::That, index),
        Some(Segment::Temp) => push_ram(TEMP_BASE, index),
        Some(Segment::Pointer) => push_ram(POINTER_BASE, index),
        Some(Segment::Static) => push_static(unit, index),
        Some(Segment::Constant) => push_name(Symbol::Value(index as u32)),
        None => unknown_segment(segment),
    }
}

/// The code that pops into a variable of the virtual segment with the base
/// cell `base`.
pub fn pop_virtual(base: Symbol, index: u16) -> (code: Vec<Instr>)
    ensures
        code.deep_view() == pop_virtual_code(base@, index),
{
    let mut code = vec![
        Instr::At(base),
        store(Dest::D, Comp::M),
        Instr::At(Symbol::Value(index as u32)),
        store(Dest::D, Comp::DPlusA),
        Instr::At(Symbol::Value(SCRATCH as u32)),
        store(Dest::M, Comp::D),
    ];
    assert(code.deep_view() =~= pop_virtual_code(base@, index).take(6));
    emit(&mut code, pop_d());
    let tail = vec![
        Instr::At(Symbol::Value(SCRATCH as u32)),
        store(Dest::A, Comp::M),
        store(Dest::M, Comp::D),
    ];
    assert(tail.deep_view() =~= pop_virtual_code(base@, index).skip(9));
    emit(&mut code, tail);
    assert(code.deep_view() =~= pop_virtual_code(base@, index));
    code
}

/// The code that pops into the cell `address`.
pub fn pop_named_address(address: Symbol) -> (code: Vec<Instr>)
    ensures
        code.deep_view() == pop_named_address_code(address@),
{
    let mut code = pop_d();
    let tail = vec![Instr::At(address), store(Dest::M, Comp::D)];
    assert(tail.deep_view() =~= pop_named_address_code(address@).skip(3));
    emit(&mut code, tail);
    assert(code.deep_view() =~= pop_named_address_code(address@));
    code
}

/// The code that pops into a variable of the fixed segment that starts at
/// `address`.
pub fn pop_ram(address: u16, index: u16) -> (code: Vec<Instr>)
    ensures
        code.deep_view() == pop_ram_code(address, index),
{
    pop_named_address(Symbol::Value(address as u32 + index as u32))
}

/// The code that pops into a static variable of the unit `unit`.
pub fn pop_static(unit: &str, index: u16) -> (code: Vec<Instr>)
    ensures
        code.deep_view() == pop_static_code(unit@, index),
{
    pop_named_address(Symbol::Static { unit: String::from_str(unit), index })
}

/// The code of `pop segment index` in the unit `unit`. A segment that does
/// not exist, or that has no variables, gives one line that says so.
pub fn pop_op(segment: &str, index: u16, unit: &str) -> (code: Vec<Instr>)
    ensures
        code.deep_view() == pop_code(segment@, index, unit@),
{
    match Segment::named(segment) {
        Some(Segment::Argument) => pop_virtual(Symbol::Arg, index),
        Some(Segment::Local) => pop_virtual(Symbol::Lcl, index),
        Some(Segment::This) => pop_virtual(Symbol::This, index),
        Some(Segment::That) => pop_virtual(Symbol::That, index),
        Some(Segment::Temp) => pop_ram(TEMP_BASE, index),
        Some(Segment::Pointer) => pop_ram(POINTER_BASE, index),
        Some(Segment::Static) => pop_static(unit, index),
        _ => unknown_segment(segment),
    }
}

} // verus!
