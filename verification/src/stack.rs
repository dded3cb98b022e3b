//! What the code of a push and of a pop does to the machine.
//!
//! The stack lies between its origin and the greatest address that a word
//! holds. While it does, a push stores one value at the address that `SP`
//! holds and moves `SP` up by one, and a pop moves `SP` down by one and stores
//! the value that it now addresses.
use crate::bootstrap::STACK_ORIGIN;
use crate::command::CommandModel;
use crate::context::ContextModel;
use crate::machine::{
    address, lemma_run_concat, lemma_straight_concat, run, run_first, sp, straight, wrap, Layout,
    Machine, ARG, LCL, SP, THAT, THIS, WORD_MAX,
};
use crate::segment::{
    base_cell, pop_code, pop_d_code, pop_named_address_code, pop_virtual_code, push_code,
    push_d_code, push_name_code, push_named_address_code, push_virtual_code, segment_named, Segment,
    POINTER_BASE, SCRATCH, TEMP_BASE,
};
use crate::target::SymbolModel;
use crate::translate::{command_code, commands_code};
use vstd::prelude::*;

verus! {

/// Whether the stack has room for one more value.
pub open spec fn room_to_push(m: Machine) -> bool {
    STACK_ORIGIN <= sp(m) < WORD_MAX
}

/// Whether the stack holds a value.
pub open spec fn something_to_pop(m: Machine) -> bool {
    STACK_ORIGIN < sp(m) <= WORD_MAX
}

/// The value on top of the stack.
pub open spec fn top(m: Machine) -> int {
    m.ram[sp(m) - 1]
}

/// The memory after `v` was pushed: `v` lies where `SP` pointed, `SP` is one
/// higher, and no other cell has changed.
pub open spec fn pushed(ram: Map<int, int>, v: int) -> Map<int, int> {
    ram.insert(SP as int, ram[SP as int] + 1).insert(ram[SP as int], v)
}

/// The memory after the top of the stack was popped into the cell `target`:
/// `SP` is one lower, the cell holds what was on top, and no other cell has
/// changed.
pub open spec fn popped(ram: Map<int, int>, target: int) -> Map<int, int> {
    ram.insert(SP as int, ram[SP as int] - 1).insert(target, ram[ram[SP as int] - 1])
}

/// The address of the variable `index` of a segment. A virtual segment starts
/// where its base cell says, a fixed one at its fixed address; the assembler
/// places a static variable. A constant has no address.
pub open spec fn variable_address(
    segment: Segment,
    index: u16,
    unit: Seq<char>,
    m: Machine,
    layout: Layout,
) -> int {
    match segment {
        Segment::Argument => wrap(m.ram[ARG as int] + index),
        Segment::Local => wrap(m.ram[LCL as int] + index),
        Segment::This => wrap(m.ram[THIS as int] + index),
        Segment::That => wrap(m.ram[THAT as int] + index),
        Segment::Temp => TEMP_BASE + index,
        Segment::Pointer => POINTER_BASE + index,
        Segment::Static => address(layout, SymbolModel::Static { unit, index }),
        Segment::Constant => arbitrary(),
    }
}

/// The value that `push segment index` pushes: the number itself for a
/// constant, else what the variable holds.
pub open spec fn variable_value(
    segment: Segment,
    index: u16,
    unit: Seq<char>,
    m: Machine,
    layout: Layout,
) -> int {
    if segment == Segment::Constant {
        index as int
    } else {
        m.ram[variable_address(segment, index, unit, m, layout)]
    }
}

/// Pushing `D` stores it on the stack and changes no other cell.
pub proof fn lemma_push_d(m: Machine, layout: Layout)
    requires
        room_to_push(m),
    ensures
        run(push_d_code(), m, layout).ram == pushed(m.ram, m.d),
        run(push_d_code(), m, layout).d == m.d,
{
    reveal_with_fuel(run_first, 5);
    let after = run(push_d_code(), m, layout);
    assert(after.ram =~= pushed(m.ram, m.d));
}

/// Popping into `D` takes the top of the stack and changes no cell but `SP`.
pub proof fn lemma_pop_d(m: Machine, layout: Layout)
    requires
        something_to_pop(m),
    ensures
        run(pop_d_code(), m, layout).ram == m.ram.insert(SP as int, sp(m) - 1),
        run(pop_d_code(), m, layout).d == top(m),
{
    reveal_with_fuel(run_first, 4);
    let after = run(pop_d_code(), m, layout);
    assert(after.ram =~= m.ram.insert(SP as int, sp(m) - 1));
}

/// The code that pushes a cell pushes what the cell holds.
pub proof fn lemma_push_named_address(cell: SymbolModel, m: Machine, layout: Layout)
    requires
        room_to_push(m),
    ensures
        run(push_named_address_code(cell), m, layout).ram == pushed(
            m.ram,
            m.ram[address(layout, cell)],
        ),
{
    let head = push_named_address_code(cell).take(2);
    assert(push_named_address_code(cell) =~= head + push_d_code());
    lemma_run_concat(head, push_d_code(), m, layout);
    reveal_with_fuel(run_first, 3);
    lemma_push_d(run(head, m, layout), layout);
}

/// The code that pushes a name pushes the address that the name stands for.
pub proof fn lemma_push_name(name: SymbolModel, m: Machine, layout: Layout)
    requires
        room_to_push(m),
    ensures
        run(push_name_code(name), m, layout).ram == pushed(m.ram, address(layout, name)),
{
    let head = push_name_code(name).take(2);
    assert(push_name_code(name) =~= head + push_d_code());
    lemma_run_concat(head, push_d_code(), m, layout);
    reveal_with_fuel(run_first, 3);
    lemma_push_d(run(head, m, layout), layout);
}

/// The code that pushes from a virtual segment pushes the cell `index`
/// places above the address in the base cell, and leaves the base cell as it
/// is.
pub proof fn lemma_push_virtual(base: SymbolModel, index: u16, m: Machine, layout: Layout)
    requires
        room_to_push(m),
    ensures
        run(push_virtual_code(base, index), m, layout).ram == pushed(
            m.ram,
            m.ram[wrap(m.ram[address(layout, base)] + index)],
        ),
{
    let head = push_virtual_code(base, index).take(6);
    assert(push_virtual_code(base, index) =~= head + push_d_code());
    lemma_run_concat(head, push_d_code(), m, layout);
    reveal_with_fuel(run_first, 7);
    lemma_push_d(run(head, m, layout), layout);
}

/// The code that pops into a cell stores the top of the stack there.
pub proof fn lemma_pop_named_address(cell: SymbolModel, m: Machine, layout: Layout)
    requires
        something_to_pop(m),
    ensures
        run(pop_named_address_code(cell), m, layout).ram == popped(m.ram, address(layout, cell)),
{
    let tail = pop_named_address_code(cell).skip(3);
    assert(pop_named_address_code(cell) =~= pop_d_code() + tail);
    lemma_run_concat(pop_d_code(), tail, m, layout);
    lemma_pop_d(m, layout);
    reveal_with_fuel(run_first, 3);
    assert(run(pop_named_address_code(cell), m, layout).ram =~= popped(
        m.ram,
        address(layout, cell),
    ));
}

/// The code that pops into a virtual segment stores the top of the stack in
/// the cell `index` places above the address in the base cell. It keeps that
/// cell's address in the scratch cell, and leaves the base cell as it is
/// unless it is the cell that is popped into.
pub proof fn lemma_pop_virtual(base: SymbolModel, index: u16, m: Machine, layout: Layout)
    requires
        something_to_pop(m),
    ensures
        run(pop_virtual_code(base, index), m, layout).ram == popped(
            m.ram.insert(SCRATCH as int, wrap(m.ram[address(layout, base)] + index)),
            wrap(m.ram[address(layout, base)] + index),
        ),
{
    let code = pop_virtual_code(base, index);
    let head = code.take(6);
    let tail = code.skip(9);
    assert(code =~= head + pop_d_code() + tail);
    lemma_run_concat(head + pop_d_code(), tail, m, layout);
    lemma_run_concat(head, pop_d_code(), m, layout);
    reveal_with_fuel(run_first, 7);
    let m1 = run(head, m, layout);
    let target = wrap(m.ram[address(layout, base)] + index);
    assert(m1.ram =~= m.ram.insert(SCRATCH as int, target));
    lemma_pop_d(m1, layout);
    assert(run(code, m, layout).ram =~= popped(m.ram.insert(SCRATCH as int, target), target));
}

/// A push on a segment that exists pushes the value of the variable, or the
/// number itself for a constant.
pub proof fn lemma_push(
    name: Seq<char>,
    index: u16,
    unit: Seq<char>,
    m: Machine,
    layout: Layout,
)
    requires
        room_to_push(m),
        segment_named(name) is Some,
    ensures
        run(push_code(name, index, unit), m, layout).ram == pushed(
            m.ram,
            variable_value(segment_named(name)->Some_0, index, unit, m, layout),
        ),
        sp(run(push_code(name, index, unit), m, layout)) == sp(m) + 1,
{
    match segment_named(name)->Some_0 {
        Segment::Argument => lemma_push_virtual(SymbolModel::Arg, index, m, layout),
        Segment::Local => lemma_push_virtual(SymbolModel::Lcl, index, m, layout),
        Segment::This => lemma_push_virtual(SymbolModel::This, index, m, layout),
        Segment::That => lemma_push_virtual(SymbolModel::That, index, m, layout),
        Segment::Temp => lemma_push_named_address(
            SymbolModel::Value((TEMP_BASE + index) as u32),
            m,
            layout,
        ),
        Segment::Pointer => lemma_push_named_address(
            SymbolModel::Value((POINTER_BASE + index) as u32),
            m,
            layout,
        ),
        Segment::Static => lemma_push_named_address(
            SymbolModel::Static { unit, index },
            m,
            layout,
        ),
        Segment::Constant => lemma_push_name(SymbolModel::Value(index as u32), m, layout),
    }
}

/// The memory in which a pop into the variable at `target` finds the top of
/// the stack: a pop into a virtual segment has kept `target` in the scratch
/// cell.
pub open spec fn prepared(ram: Map<int, int>, segment: Segment, target: int) -> Map<int, int> {
    if base_cell(segment) is Some {
        ram.insert(SCRATCH as int, target)
    } else {
        ram
    }
}

/// A pop into a variable stores the top of the stack in it. Unless the
/// variable is the cell of the stack pointer, `SP` is one lower afterwards.
pub proof fn lemma_pop(name: Seq<char>, index: u16, unit: Seq<char>, m: Machine, layout: Layout)
    requires
        something_to_pop(m),
        segment_named(name) is Some,
        segment_named(name) != Some(Segment::Constant),
    ensures
        run(pop_code(name, index, unit), m, layout).ram == popped(
            prepared(
                m.ram,
                segment_named(name)->Some_0,
                variable_address(segment_named(name)->Some_0, index, unit, m, layout),
            ),
            variable_address(segment_named(name)->Some_0, index, unit, m, layout),
        ),
        variable_address(segment_named(name)->Some_0, index, unit, m, layout) != SP ==> sp(
            run(pop_code(name, index, unit), m, layout),
        ) == sp(m) - 1,
{
    match segment_named(name)->Some_0 {
        Segment::Argument => lemma_pop_virtual(SymbolModel::Arg, index, m, layout),
        Segment::Local => lemma_pop_virtual(SymbolModel::Lcl, index, m, layout),
        Segment::This => lemma_pop_virtual(SymbolModel::This, index, m, layout),
        Segment::That => lemma_pop_virtual(SymbolModel::That, index, m, layout),
        Segment::Temp => lemma_pop_named_address(
            SymbolModel::Value((TEMP_BASE + index) as u32),
            m,
            layout,
        ),
        Segment::Pointer => lemma_pop_named_address(
            SymbolModel::Value((POINTER_BASE + index) as u32),
            m,
            layout,
        ),
        Segment::Static => lemma_pop_named_address(
            SymbolModel::Static { unit, index },
            m,
            layout,
        ),
        Segment::Constant => {},
    }
}

/// Whether an instruction pushes: a push on a segment that exists.
pub open spec fn is_push(command: CommandModel) -> bool {
    command matches CommandModel::Push { segment, .. } && segment_named(segment) is Some
}

/// Whether an instruction pops: a pop into a segment that exists and has
/// variables.
pub open spec fn is_pop(command: CommandModel) -> bool {
    command matches CommandModel::Pop { segment, .. } && segment_named(segment) is Some
        && segment_named(segment) != Some(Segment::Constant)
}

/// How many of the instructions push.
pub open spec fn pushes(commands: Seq<CommandModel>) -> nat
    decreases commands.len(),
{
    if commands.len() == 0 {
        0
    } else if is_push(commands.last()) {
        pushes(commands.drop_last()) + 1
    } else {
        pushes(commands.drop_last())
    }
}

/// How many of the instructions pop.
pub open spec fn pops(commands: Seq<CommandModel>) -> nat
    decreases commands.len(),
{
    if commands.len() == 0 {
        0
    } else if is_pop(commands.last()) {
        pops(commands.drop_last()) + 1
    } else {
        pops(commands.drop_last())
    }
}

/// Whether the machine is fit for a push or a pop: for a push the stack has
/// room; for a pop it holds a value, and the variable that is popped into is
/// not the cell of the stack pointer.
pub open spec fn fit_for(
    command: CommandModel,
    unit: Seq<char>,
    m: Machine,
    layout: Layout,
) -> bool {
    match command {
        CommandModel::Push { segment, .. } => is_push(command) && room_to_push(m),
        CommandModel::Pop { segment, index } => is_pop(command) && something_to_pop(m)
            && variable_address(segment_named(segment)->Some_0, index, unit, m, layout) != SP,
        _ => false,
    }
}

/// Whether a row of instructions is made of pushes and pops, and the machine
/// is fit for each of them when its turn comes.
pub open spec fn fit_for_all(
    commands: Seq<CommandModel>,
    ctx: ContextModel,
    m: Machine,
    layout: Layout,
) -> bool
    decreases commands.len(),
{
    commands.len() == 0 || {
        let before = commands.drop_last();
        &&& fit_for_all(before, ctx, m, layout)
        &&& fit_for(commands.last(), ctx.unit, run(commands_code(before, ctx).0, m, layout), layout)
    }
}

/// After a row of pushes and pops the stack pointer is as much higher as
/// there were pushes, and as much lower as there were pops, provided that the
/// stack never ran over or under and that no pop went into the cell of the
/// stack pointer.
pub proof fn lemma_stack_depth(
    commands: Seq<CommandModel>,
    ctx: ContextModel,
    m: Machine,
    layout: Layout,
)
    requires
        fit_for_all(commands, ctx, m, layout),
    ensures
        sp(run(commands_code(commands, ctx).0, m, layout)) == sp(m) + pushes(commands) - pops(
            commands,
        ),
        commands_code(commands, ctx).1 == ctx,
    decreases commands.len(),
{
    if commands.len() > 0 {
        let before = commands.drop_last();
        let last = commands.last();
        lemma_stack_depth(before, ctx, m, layout);
        let code = commands_code(before, ctx).0;
        let mid = run(code, m, layout);
        lemma_run_concat(code, command_code(last, ctx), m, layout);
        match last {
            CommandModel::Push { segment, index } => {
                lemma_push(segment, index, ctx.unit, mid, layout);
            },
            CommandModel::Pop { segment, index } => {
                lemma_pop(segment, index, ctx.unit, mid, layout);
            },
            _ => {},
        }
    }
}

/// The code of a push or a pop is straight.
pub proof fn lemma_access_straight(command: CommandModel, ctx: ContextModel)
    requires
        is_push(command) || is_pop(command),
    ensures
        straight(command_code(command, ctx)),
{
    match command {
        CommandModel::Push { segment, index } => {
            let code = push_code(segment, index, ctx.unit);
            assert(straight(push_d_code()));
            if base_cell(segment_named(segment)->Some_0) is Some {
                let head = code.take(6);
                assert(straight(head));
                assert(code =~= head + push_d_code());
                lemma_straight_concat(head, push_d_code());
            } else {
                let head = code.take(2);
                assert(straight(head));
                assert(code =~= head + push_d_code());
                lemma_straight_concat(head, push_d_code());
            }
        },
        CommandModel::Pop { segment, index } => {
            let code = pop_code(segment, index, ctx.unit);
            assert(straight(pop_d_code()));
            if base_cell(segment_named(segment)->Some_0) is Some {
                let head = code.take(6);
                let tail = code.skip(9);
                assert(straight(head));
                assert(straight(tail));
                assert(code =~= head + pop_d_code() + tail);
                lemma_straight_concat(head, pop_d_code());
                lemma_straight_concat(head + pop_d_code(), tail);
            } else {
                let tail = code.skip(3);
                assert(straight(tail));
                assert(code =~= pop_d_code() + tail);
                lemma_straight_concat(pop_d_code(), tail);
            }
        },
        _ => {},
    }
}

/// The code of a row of pushes and pops is straight: the machine goes
/// through it line by line, and `run` tells what it does.
pub proof fn lemma_accesses_straight(commands: Seq<CommandModel>, ctx: ContextModel)
    requires
        forall|k: int|
            0 <= k < commands.len() ==> is_push(#[trigger] commands[k]) || is_pop(commands[k]),
    ensures
        straight(commands_code(commands, ctx).0),
        commands_code(commands, ctx).1 == ctx,
    decreases commands.len(),
{
    if commands.len() > 0 {
        lemma_accesses_straight(commands.drop_last(), ctx);
        lemma_access_straight(commands.last(), ctx);
        lemma_straight_concat(
            commands_code(commands.drop_last(), ctx).0,
            command_code(commands.last(), ctx),
        );
    }
}


/// The code that pushes a cell or an address, and the code that pops into a
/// cell, are straight.
pub proof fn lemma_named_straight(cell: SymbolModel)
    ensures
        straight(push_named_address_code(cell)),
        straight(push_name_code(cell)),
        straight(pop_named_address_code(cell)),
{
    assert(straight(push_d_code()));
    assert(straight(pop_d_code()));
    let a = push_named_address_code(cell).take(2);
    assert(straight(a));
    assert(push_named_address_code(cell) =~= a + push_d_code());
    lemma_straight_concat(a, push_d_code());
    let b = push_name_code(cell).take(2);
    assert(straight(b));
    assert(push_name_code(cell) =~= b + push_d_code());
    lemma_straight_concat(b, push_d_code());
    let c = pop_named_address_code(cell).skip(3);
    assert(straight(c));
    assert(pop_named_address_code(cell) =~= pop_d_code() + c);
    lemma_straight_concat(pop_d_code(), c);
}

} // verus!
