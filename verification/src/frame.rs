//! What a call and a return do to the machine.
//!
//! A call leaves the frame on the stack, right above the arguments, and the
//! callee's `ARG` and `LCL` below and above it. A return from a machine in
//! which the frame still lies below `LCL` gives the caller its segments back,
//! puts the callee's result where the first argument was, and the stack
//! pointer right above it.
use crate::bootstrap::{bootstrap_code, entry_point, idle_code, origin_code, STACK_ORIGIN};
use crate::call::{
    call_code, cut_code, entry_label, frame_code, function_code, keep_code, locals_done, locals_top,
    repoint_code, resume_code, return_code, return_label, unwind_code, FRAME_CELLS, KEPT_RESULT,
    KEPT_RETURN, KEPT_TOP,
};
use crate::context::top_level;
use crate::machine::{
    address, advance_by, lands, lemma_advance_more, lemma_advance_through, lemma_landing,
    lemma_run_concat, lemma_straight_concat, run, run_first, sp, stands_at, straight, tells_apart,
    Layout, Machine, Progress, ARG, LCL, SP, THAT, THIS, WORD_MAX,
};
use crate::segment::{pop_named_address_code, push_name_code, push_named_address_code};
use crate::stack::{
    lemma_named_straight, lemma_pop_named_address, lemma_push_name, lemma_push_named_address,
    popped, pushed, top,
};
use crate::target::{at, branch, label, Code, Comp, Jump, SymbolModel};
use vstd::prelude::*;

verus! {

/// The memory after a call from the memory `ram` with `args` arguments on
/// the stack: the frame lies where `SP` pointed, with the address `back` to
/// come back to and the caller's four bases; `SP` and `LCL` point right above
/// the frame, `ARG` at the first argument. No other cell has changed.
pub open spec fn entered(ram: Map<int, int>, back: int, args: u8) -> Map<int, int> {
    let p = ram[SP as int];
    ram.insert(p, back).insert(p + 1, ram[LCL as int]).insert(p + 2, ram[ARG as int]).insert(
        p + 3,
        ram[THIS as int],
    ).insert(p + 4, ram[THAT as int]).insert(SP as int, p + FRAME_CELLS).insert(
        ARG as int,
        p - args,
    ).insert(LCL as int, p + FRAME_CELLS)
}

/// The memory after a return from the memory `ram`, in which the frame lies
/// right below the address in `LCL`: the caller's bases are taken from the
/// frame, the result from the top of the stack; it lies where `ARG` pointed,
/// and `SP` points right above it. The three cells that the return keeps
/// values in have changed, and no others.
pub open spec fn left(ram: Map<int, int>) -> Map<int, int> {
    let frame = ram[LCL as int];
    let first = ram[ARG as int];
    let result = ram[ram[SP as int] - 1];
    ram.insert(KEPT_RESULT as int, result).insert(KEPT_TOP as int, first).insert(
        KEPT_RETURN as int,
        ram[frame - 5],
    ).insert(THAT as int, ram[frame - 1]).insert(THIS as int, ram[frame - 2]).insert(
        ARG as int,
        ram[frame - 3],
    ).insert(LCL as int, ram[frame - 4]).insert(first, result).insert(SP as int, first + 1)
}

/// Whether the stack has room for a frame.
pub open spec fn room_for_frame(m: Machine) -> bool {
    STACK_ORIGIN <= sp(m) && sp(m) + FRAME_CELLS <= WORD_MAX
}

/// Whether the machine is one that a function can return from: its arguments
/// start on the stack, a frame lies between them and the address in `LCL`,
/// and the stack holds a value above the frame.
pub open spec fn fit_to_return(m: Machine) -> bool {
    &&& STACK_ORIGIN <= m.ram[ARG as int]
    &&& m.ram[ARG as int] + FRAME_CELLS <= m.ram[LCL as int]
    &&& m.ram[LCL as int] < sp(m) <= WORD_MAX
}

/// The memory after the five cells of a frame were pushed.
pub open spec fn with_frame(ram: Map<int, int>, back: int) -> Map<int, int> {
    let p = ram[SP as int];
    ram.insert(p, back).insert(p + 1, ram[LCL as int]).insert(p + 2, ram[ARG as int]).insert(
        p + 3,
        ram[THIS as int],
    ).insert(p + 4, ram[THAT as int]).insert(SP as int, p + FRAME_CELLS)
}

/// The first two pushes of a frame.
proof fn lemma_frame_two(back: SymbolModel, m: Machine, layout: Layout)
    requires
        room_for_frame(m),
    ensures
        run(push_name_code(back) + push_named_address_code(SymbolModel::Lcl), m, layout).ram
            == m.ram.insert(sp(m), address(layout, back)).insert(
            sp(m) + 1,
            m.ram[LCL as int],
        ).insert(SP as int, sp(m) + 2),
{
    let c1 = push_name_code(back);
    let m1 = run(c1, m, layout);
    lemma_push_name(back, m, layout);
    lemma_run_concat(c1, push_named_address_code(SymbolModel::Lcl), m, layout);
    lemma_push_named_address(SymbolModel::Lcl, m1, layout);
    assert(run(c1 + push_named_address_code(SymbolModel::Lcl), m, layout).ram =~= m.ram.insert(
        sp(m),
        address(layout, back),
    ).insert(sp(m) + 1, m.ram[LCL as int]).insert(SP as int, sp(m) + 2));
}

/// One more push of a frame: of the cell `cell`, which is none that the
/// pushes before have written.
proof fn lemma_frame_more(cell: SymbolModel, before: Machine, layout: Layout)
    requires
        crate::stack::room_to_push(before),
        0 < address(layout, cell) < STACK_ORIGIN,
    ensures
        run(push_named_address_code(cell), before, layout).ram == before.ram.insert(
            sp(before),
            before.ram[address(layout, cell)],
        ).insert(SP as int, sp(before) + 1),
{
    lemma_push_named_address(cell, before, layout);
    assert(pushed(before.ram, before.ram[address(layout, cell)]) =~= before.ram.insert(
        sp(before),
        before.ram[address(layout, cell)],
    ).insert(SP as int, sp(before) + 1));
}

/// The five pushes of a frame.
proof fn lemma_frame_pushes(back: SymbolModel, m: Machine, layout: Layout)
    requires
        room_for_frame(m),
    ensures
        run(
            push_name_code(back) + push_named_address_code(SymbolModel::Lcl)
                + push_named_address_code(SymbolModel::Arg) + push_named_address_code(
                SymbolModel::This,
            ) + push_named_address_code(SymbolModel::That),
            m,
            layout,
        ).ram == with_frame(m.ram, address(layout, back)),
{
    let p = sp(m);
    let c2 = push_name_code(back) + push_named_address_code(SymbolModel::Lcl);
    let c3 = c2 + push_named_address_code(SymbolModel::Arg);
    let c4 = c3 + push_named_address_code(SymbolModel::This);
    let c5 = c4 + push_named_address_code(SymbolModel::That);
    let m2 = run(c2, m, layout);
    let m3 = run(c3, m, layout);
    let m4 = run(c4, m, layout);
    lemma_frame_two(back, m, layout);
    lemma_run_concat(c2, push_named_address_code(SymbolModel::Arg), m, layout);
    lemma_frame_more(SymbolModel::Arg, m2, layout);
    lemma_run_concat(c3, push_named_address_code(SymbolModel::This), m, layout);
    lemma_frame_more(SymbolModel::This, m3, layout);
    lemma_run_concat(c4, push_named_address_code(SymbolModel::That), m, layout);
    lemma_frame_more(SymbolModel::That, m4, layout);
    assert(run(c5, m, layout).ram =~= with_frame(m.ram, address(layout, back)));
}

/// With the frame on the stack, `ARG` is set to the address `args` and five
/// cells below the top, and `LCL` to the top.
proof fn lemma_repoint(args: u8, m: Machine, layout: Layout)
    requires
        STACK_ORIGIN + FRAME_CELLS <= sp(m) <= WORD_MAX,
    ensures
        run(repoint_code(args), m, layout).ram == m.ram.insert(
            ARG as int,
            sp(m) - FRAME_CELLS - args,
        ).insert(LCL as int, sp(m)),
{
    reveal_with_fuel(run_first, 11);
    assert(run(repoint_code(args), m, layout).ram =~= m.ram.insert(
        ARG as int,
        sp(m) - FRAME_CELLS - args,
    ).insert(LCL as int, sp(m)));
}

/// The code that pushes a frame does so: see `entered`.
pub proof fn lemma_frame(back: SymbolModel, args: u8, m: Machine, layout: Layout)
    requires
        room_for_frame(m),
    ensures
        run(frame_code(back, args), m, layout).ram == entered(
            m.ram,
            address(layout, back),
            args,
        ),
{
    let pushes = push_name_code(back) + push_named_address_code(SymbolModel::Lcl)
        + push_named_address_code(SymbolModel::Arg) + push_named_address_code(SymbolModel::This)
        + push_named_address_code(SymbolModel::That);
    lemma_frame_pushes(back, m, layout);
    lemma_run_concat(pushes, repoint_code(args), m, layout);
    lemma_repoint(args, run(pushes, m, layout), layout);
    assert(run(frame_code(back, args), m, layout).ram =~= entered(
        m.ram,
        address(layout, back),
        args,
    ));
}

/// The result is popped and kept, `ARG` is kept, and `SP` is moved to `LCL`.
proof fn lemma_keep(m: Machine, layout: Layout)
    requires
        fit_to_return(m),
    ensures
        run(
            pop_named_address_code(SymbolModel::Value(KEPT_RESULT as u32)) + keep_code(),
            m,
            layout,
        ).ram
            == m.ram.insert(KEPT_RESULT as int, top(m)).insert(
            KEPT_TOP as int,
            m.ram[ARG as int],
        ).insert(SP as int, m.ram[LCL as int]),
{
    let r15 = SymbolModel::Value(KEPT_RESULT as u32);
    lemma_pop_named_address(r15, m, layout);
    lemma_run_concat(pop_named_address_code(r15), keep_code(), m, layout);
    reveal_with_fuel(run_first, 9);
    assert(run(pop_named_address_code(r15) + keep_code(), m, layout).ram =~= m.ram.insert(
        KEPT_RESULT as int,
        top(m),
    ).insert(KEPT_TOP as int, m.ram[ARG as int]).insert(SP as int, m.ram[LCL as int]));
}

/// A pop from the frame into one of the cells below the stack.
proof fn lemma_restore(cell: SymbolModel, m: Machine, layout: Layout)
    requires
        crate::stack::something_to_pop(m),
        0 < address(layout, cell) < STACK_ORIGIN,
    ensures
        run(pop_named_address_code(cell), m, layout).ram == m.ram.insert(
            address(layout, cell),
            top(m),
        ).insert(SP as int, sp(m) - 1),
{
    lemma_pop_named_address(cell, m, layout);
    assert(popped(m.ram, address(layout, cell)) =~= m.ram.insert(
        address(layout, cell),
        top(m),
    ).insert(SP as int, sp(m) - 1));
}

/// The memory after the five cells of the frame at `frame` were popped.
pub open spec fn without_frame(ram: Map<int, int>, frame: int) -> Map<int, int> {
    ram.insert(THAT as int, ram[frame - 1]).insert(THIS as int, ram[frame - 2]).insert(
        ARG as int,
        ram[frame - 3],
    ).insert(LCL as int, ram[frame - 4]).insert(KEPT_RETURN as int, ram[frame - 5]).insert(
        SP as int,
        frame - FRAME_CELLS,
    )
}

/// The five pops of a return take the frame off the stack.
proof fn lemma_restores(m: Machine, layout: Layout)
    requires
        STACK_ORIGIN + FRAME_CELLS <= sp(m) <= WORD_MAX,
    ensures
        run(
            pop_named_address_code(SymbolModel::That) + pop_named_address_code(SymbolModel::This)
                + pop_named_address_code(SymbolModel::Arg) + pop_named_address_code(
                SymbolModel::Lcl,
            ) + pop_named_address_code(SymbolModel::Value(KEPT_RETURN as u32)),
            m,
            layout,
        ).ram == without_frame(m.ram, sp(m)),
{
    let r13 = SymbolModel::Value(KEPT_RETURN as u32);
    let c1 = pop_named_address_code(SymbolModel::That);
    let c2 = c1 + pop_named_address_code(SymbolModel::This);
    let c3 = c2 + pop_named_address_code(SymbolModel::Arg);
    let c4 = c3 + pop_named_address_code(SymbolModel::Lcl);
    let c5 = c4 + pop_named_address_code(r13);
    let f = sp(m);
    let m1 = run(c1, m, layout);
    let m2 = run(c2, m, layout);
    let m3 = run(c3, m, layout);
    let m4 = run(c4, m, layout);
    lemma_restore(SymbolModel::That, m, layout);
    lemma_run_concat(c1, pop_named_address_code(SymbolModel::This), m, layout);
    lemma_restore(SymbolModel::This, m1, layout);
    let r2 = m.ram.insert(THAT as int, m.ram[f - 1]).insert(THIS as int, m.ram[f - 2]).insert(
        SP as int,
        f - 2,
    );
    assert(m2.ram =~= r2);
    lemma_run_concat(c2, pop_named_address_code(SymbolModel::Arg), m, layout);
    lemma_restore(SymbolModel::Arg, m2, layout);
    let r3 = r2.insert(ARG as int, m.ram[f - 3]).insert(SP as int, f - 3);
    assert(m3.ram =~= r3);
    lemma_run_concat(c3, pop_named_address_code(SymbolModel::Lcl), m, layout);
    lemma_restore(SymbolModel::Lcl, m3, layout);
    let r4 = r3.insert(LCL as int, m.ram[f - 4]).insert(SP as int, f - 4);
    assert(m4.ram =~= r4);
    lemma_run_concat(c4, pop_named_address_code(r13), m, layout);
    lemma_restore(r13, m4, layout);
    assert(run(c5, m, layout).ram =~= without_frame(m.ram, f));
}

/// The stack is cut back to the address that was kept, the result that was
/// kept is pushed, and `A` is loaded with the address to come back to.
proof fn lemma_finish(m: Machine, layout: Layout)
    requires
        STACK_ORIGIN <= m.ram[KEPT_TOP as int] < WORD_MAX,
    ensures
        run(
            cut_code() + push_named_address_code(SymbolModel::Value(KEPT_RESULT as u32))
                + resume_code(),
            m,
            layout,
        ).ram == m.ram.insert(m.ram[KEPT_TOP as int], m.ram[KEPT_RESULT as int]).insert(
            SP as int,
            m.ram[KEPT_TOP as int] + 1,
        ),
        run(
            cut_code() + push_named_address_code(SymbolModel::Value(KEPT_RESULT as u32))
                + resume_code(),
            m,
            layout,
        ).a == m.ram[KEPT_RETURN as int],
{
    let r15 = SymbolModel::Value(KEPT_RESULT as u32);
    let first = m.ram[KEPT_TOP as int];
    let c1 = cut_code();
    let c2 = c1 + push_named_address_code(r15);
    reveal_with_fuel(run_first, 5);
    let m1 = run(c1, m, layout);
    assert(m1.ram =~= m.ram.insert(SP as int, first));
    lemma_run_concat(c1, push_named_address_code(r15), m, layout);
    lemma_push_named_address(r15, m1, layout);
    let m2 = run(c2, m, layout);
    assert(m2.ram =~= m.ram.insert(first, m.ram[KEPT_RESULT as int]).insert(SP as int, first + 1));
    lemma_run_concat(c2, resume_code(), m, layout);
}

/// The code that takes a frame down does so: see `left`. When it has run, `A`
/// holds the address to come back to, as the frame had it.
pub proof fn lemma_unwind(m: Machine, layout: Layout)
    requires
        fit_to_return(m),
    ensures
        run(unwind_code(), m, layout).ram == left(m.ram),
        run(unwind_code(), m, layout).a == m.ram[m.ram[LCL as int] - 5],
{
    let r13 = SymbolModel::Value(KEPT_RETURN as u32);
    let r15 = SymbolModel::Value(KEPT_RESULT as u32);
    let head = pop_named_address_code(r15) + keep_code();
    let pops = pop_named_address_code(SymbolModel::That) + pop_named_address_code(
        SymbolModel::This,
    ) + pop_named_address_code(SymbolModel::Arg) + pop_named_address_code(SymbolModel::Lcl)
        + pop_named_address_code(r13);
    let tail = cut_code() + push_named_address_code(r15) + resume_code();
    assert(unwind_code() =~= head + pops + tail);
    lemma_run_concat(head + pops, tail, m, layout);
    lemma_run_concat(head, pops, m, layout);
    let m1 = run(head, m, layout);
    let m2 = run(pops, m1, layout);
    lemma_keep(m, layout);
    lemma_restores(m1, layout);
    lemma_finish(m2, layout);
    assert(run(tail, m2, layout).ram =~= left(m.ram));
}

/// Whether a callee has kept what it was given: the machine `now` has the
/// frame that the machine `before` had on entry, and the same `LCL` and `ARG`.
pub open spec fn kept_frame(before: Machine, now: Machine) -> bool {
    &&& now.ram[LCL as int] == before.ram[LCL as int]
    &&& now.ram[ARG as int] == before.ram[ARG as int]
    &&& forall|k: int|
        before.ram[LCL as int] - FRAME_CELLS <= k < before.ram[LCL as int] ==> now.ram[k]
            == before.ram[k]
}

/// A call and the return from it. The caller has pushed `args` arguments and
/// calls; the callee does what it does, keeps its frame and leaves a result
/// on the stack; it returns. Afterwards the stack is `args` slots lower than
/// at the call and one higher for the result, which lies on top; `LCL`,
/// `ARG`, `THIS` and `THAT` are what they were at the call; and `A` holds the
/// address that the call pushed to come back to.
pub proof fn lemma_call_return(
    back: SymbolModel,
    args: u8,
    at_call: Machine,
    at_return: Machine,
    layout: Layout,
)
    requires
        STACK_ORIGIN + args <= sp(at_call),
        sp(at_call) + FRAME_CELLS < WORD_MAX,
        kept_frame(run(frame_code(back, args), at_call, layout), at_return),
        sp(at_call) + FRAME_CELLS < sp(at_return) <= WORD_MAX,
    ensures
        sp(run(unwind_code(), at_return, layout)) == sp(at_call) - args + 1,
        top(run(unwind_code(), at_return, layout)) == top(at_return),
        run(unwind_code(), at_return, layout).ram[LCL as int] == at_call.ram[LCL as int],
        run(unwind_code(), at_return, layout).ram[ARG as int] == at_call.ram[ARG as int],
        run(unwind_code(), at_return, layout).ram[THIS as int] == at_call.ram[THIS as int],
        run(unwind_code(), at_return, layout).ram[THAT as int] == at_call.ram[THAT as int],
        run(unwind_code(), at_return, layout).a == address(layout, back),
{
    lemma_frame(back, args, at_call, layout);
    lemma_unwind(at_return, layout);
    let p = sp(at_call);
    let inside = run(frame_code(back, args), at_call, layout);
    assert(inside.ram[LCL as int] == p + 5);
    assert(inside.ram[ARG as int] == p - args);
    assert(at_return.ram[p] == inside.ram[p]);
    assert(at_return.ram[p + 1] == inside.ram[p + 1]);
    assert(at_return.ram[p + 2] == inside.ram[p + 2]);
    assert(at_return.ram[p + 3] == inside.ram[p + 3]);
    assert(at_return.ram[p + 4] == inside.ram[p + 4]);
}

/// The memory after `count` zeros were pushed.
pub open spec fn cleared(ram: Map<int, int>, count: nat) -> Map<int, int>
    decreases count,
{
    if count == 0 {
        ram
    } else {
        cleared(pushed(ram, 0), (count - 1) as nat)
    }
}

/// After `count` zeros were pushed on a stack above its origin, `SP` is
/// `count` higher, the cells between where it was and where it is hold zero,
/// and no other cell has changed.
pub proof fn lemma_cleared(ram: Map<int, int>, count: nat)
    requires
        STACK_ORIGIN <= ram[SP as int],
    ensures
        cleared(ram, count)[SP as int] == ram[SP as int] + count,
        forall|k: int|
            ram[SP as int] <= k < ram[SP as int] + count ==> #[trigger] cleared(ram, count)[k]
                == 0,
        forall|k: int|
            k != SP && !(ram[SP as int] <= k < ram[SP as int] + count) ==> #[trigger] cleared(
                ram,
                count,
            )[k] == ram[k],
    decreases count,
{
    if count > 0 {
        let next = pushed(ram, 0);
        lemma_cleared(next, (count - 1) as nat);
        assert(next[SP as int] == ram[SP as int] + 1);
        assert forall|k: int|
            ram[SP as int] <= k < ram[SP as int] + count implies #[trigger] cleared(
            ram,
            count,
        )[k] == 0 by {
            if k == ram[SP as int] {
                assert(cleared(next, (count - 1) as nat)[k] == next[k]);
            }
        }
        assert forall|k: int|
            k != SP && !(ram[SP as int] <= k < ram[SP as int] + count) implies #[trigger] cleared(
            ram,
            count,
        )[k] == ram[k] by {
            assert(cleared(next, (count - 1) as nat)[k] == next[k]);
        }
    }
}

/// The number of lines that the machine goes through at the head of a
/// function with `locals` locals: nine for each turn of the loop.
pub open spec fn function_lines(locals: nat) -> nat {
    if locals == 0 {
        1
    } else {
        9 * locals + 7
    }
}

/// The loop at the head of a function, from its top with `D` zeros still to
/// push.
proof fn lemma_clearing(
    code: Code,
    k: int,
    name: Seq<char>,
    locals: u8,
    id: u64,
    m: Machine,
    count: nat,
    layout: Layout,
)
    requires
        locals > 0,
        stands_at(code, k, function_code(name, locals, id)),
        tells_apart(code, layout),
        m.d == count,
        count <= u8::MAX,
        STACK_ORIGIN <= sp(m),
        sp(m) + count <= WORD_MAX,
    ensures
        advance_by(code, Progress { m, pc: k + 3 }, layout, 9 * count + 4).pc == k + 13,
        advance_by(code, Progress { m, pc: k + 3 }, layout, 9 * count + 4).m.ram == cleared(
            m.ram,
            count,
        ),
    decreases count,
{
    let part = function_code(name, locals, id);
    let from = Progress { m, pc: k + 3 };
    let top_address = address(layout, locals_top(name, id));
    let done_address = address(layout, locals_done(name, id));
    assert(part.len() == 13);
    assert forall|i: int| 0 <= i < 13 implies code[k + i] == #[trigger] part[i] by {
        assert(code[k + i] == code.subrange(k, k + 13)[i]);
    }
    assert(code[k + 3] == part[3] && code[k + 4] == part[4] && code[k + 5] == part[5] && code[k
        + 6] == part[6] && code[k + 7] == part[7] && code[k + 8] == part[8] && code[k + 9]
        == part[9] && code[k + 10] == part[10] && code[k + 11] == part[11] && code[k + 12]
        == part[12]);
    assert(lands(code, layout, top_address, k + 3));
    assert(lands(code, layout, done_address, k + 12));
    lemma_landing(code, layout, top_address, k + 3);
    lemma_landing(code, layout, done_address, k + 12);
    if count == 0 {
        reveal_with_fuel(advance_by, 5);
        assert(advance_by(code, from, layout, 4).m.ram =~= m.ram);
    } else {
        reveal_with_fuel(advance_by, 10);
        let turned = advance_by(code, from, layout, 9);
        assert(turned.pc == k + 3);
        assert(turned.m.d == count - 1);
        assert(turned.m.ram =~= pushed(m.ram, 0));
        lemma_clearing(code, k, name, locals, id, turned.m, (count - 1) as nat, layout);
        lemma_advance_more(code, from, layout, 9, (9 * (count - 1) + 4) as nat);
    }
}

/// The head of a function, within a larger piece of code, pushes a zero for
/// each of the function's locals and changes no other cell but `SP`; the
/// machine has come to the end of the head.
pub proof fn lemma_function(
    code: Code,
    k: int,
    name: Seq<char>,
    locals: u8,
    id: u64,
    m: Machine,
    layout: Layout,
)
    requires
        stands_at(code, k, function_code(name, locals, id)),
        tells_apart(code, layout),
        STACK_ORIGIN <= sp(m),
        sp(m) + locals <= WORD_MAX,
    ensures
        advance_by(code, Progress { m, pc: k }, layout, function_lines(locals as nat)).pc == k
            + function_code(name, locals, id).len(),
        advance_by(code, Progress { m, pc: k }, layout, function_lines(locals as nat)).m.ram
            == cleared(m.ram, locals as nat),
{
    let part = function_code(name, locals, id);
    let from = Progress { m, pc: k };
    assert(code[k] == code.subrange(k, k + part.len())[0]);
    if locals == 0 {
        reveal_with_fuel(advance_by, 2);
    } else {
        assert(code[k + 1] == code.subrange(k, k + part.len())[1]);
        assert(code[k + 2] == code.subrange(k, k + part.len())[2]);
        reveal_with_fuel(advance_by, 4);
        let at_top = advance_by(code, from, layout, 3);
        assert(at_top.pc == k + 3);
        assert(at_top.m.d == locals);
        assert(at_top.m.ram == m.ram);
        lemma_clearing(code, k, name, locals, id, at_top.m, locals as nat, layout);
        lemma_advance_more(code, from, layout, 3, (9 * locals + 4) as nat);
    }
}

/// The prologue, up to its jump, on any machine: the stack starts at its
/// origin with the frame of the one call of the entry function; that
/// function has no arguments, so that `ARG` points at the frame itself, and
/// `LCL` and `SP` right above it.
pub proof fn lemma_bootstrap_enters(m: Machine, layout: Layout)
    ensures
        run(
            origin_code() + frame_code(return_label(top_level(), 0), 0),
            m,
            layout,
        ).ram == entered(
            m.ram.insert(SP as int, STACK_ORIGIN as int),
            address(layout, return_label(top_level(), 0)),
            0,
        ),
        sp(run(origin_code() + frame_code(return_label(top_level(), 0), 0), m, layout))
            == STACK_ORIGIN + FRAME_CELLS,
        run(origin_code() + frame_code(return_label(top_level(), 0), 0), m, layout).ram[ARG as int]
            == STACK_ORIGIN,
        bootstrap_code() == origin_code() + frame_code(return_label(top_level(), 0), 0) + seq![
            at(entry_label(entry_point())),
            branch(Comp::Zero, Jump::Jmp),
            label(return_label(top_level(), 0)),
        ] + idle_code(),
{
    let back = return_label(top_level(), 0);
    reveal_with_fuel(run_first, 5);
    let m1 = run(origin_code(), m, layout);
    assert(m1.ram =~= m.ram.insert(SP as int, STACK_ORIGIN as int));
    lemma_run_concat(origin_code(), frame_code(back, 0), m, layout);
    lemma_frame(back, 0, m1, layout);
    assert(bootstrap_code() =~= origin_code() + frame_code(back, 0) + seq![
        at(entry_label(entry_point())),
        branch(Comp::Zero, Jump::Jmp),
        label(back),
    ] + idle_code());
}


/// The code that pushes a frame and the code that takes it down are
/// straight: the machine goes through either line by line, and `run` tells
/// what it does.
pub proof fn lemma_frame_straight(back: SymbolModel, args: u8)
    ensures
        straight(frame_code(back, args)),
        straight(unwind_code()),
{
    let r13 = SymbolModel::Value(KEPT_RETURN as u32);
    let r15 = SymbolModel::Value(KEPT_RESULT as u32);
    lemma_named_straight(back);
    lemma_named_straight(SymbolModel::Lcl);
    lemma_named_straight(SymbolModel::Arg);
    lemma_named_straight(SymbolModel::This);
    lemma_named_straight(SymbolModel::That);
    lemma_named_straight(r13);
    lemma_named_straight(r15);
    let f1 = push_name_code(back);
    let f2 = f1 + push_named_address_code(SymbolModel::Lcl);
    let f3 = f2 + push_named_address_code(SymbolModel::Arg);
    let f4 = f3 + push_named_address_code(SymbolModel::This);
    let f5 = f4 + push_named_address_code(SymbolModel::That);
    lemma_straight_concat(f1, push_named_address_code(SymbolModel::Lcl));
    lemma_straight_concat(f2, push_named_address_code(SymbolModel::Arg));
    lemma_straight_concat(f3, push_named_address_code(SymbolModel::This));
    lemma_straight_concat(f4, push_named_address_code(SymbolModel::That));
    assert(straight(repoint_code(args)));
    lemma_straight_concat(f5, repoint_code(args));
    let u1 = pop_named_address_code(r15);
    let u2 = u1 + keep_code();
    let u3 = u2 + pop_named_address_code(SymbolModel::That);
    let u4 = u3 + pop_named_address_code(SymbolModel::This);
    let u5 = u4 + pop_named_address_code(SymbolModel::Arg);
    let u6 = u5 + pop_named_address_code(SymbolModel::Lcl);
    let u7 = u6 + pop_named_address_code(r13);
    let u8 = u7 + cut_code();
    let u9 = u8 + push_named_address_code(r15);
    assert(straight(keep_code()));
    assert(straight(cut_code()));
    assert(straight(resume_code()));
    lemma_straight_concat(u1, keep_code());
    lemma_straight_concat(u2, pop_named_address_code(SymbolModel::That));
    lemma_straight_concat(u3, pop_named_address_code(SymbolModel::This));
    lemma_straight_concat(u4, pop_named_address_code(SymbolModel::Arg));
    lemma_straight_concat(u5, pop_named_address_code(SymbolModel::Lcl));
    lemma_straight_concat(u6, pop_named_address_code(r13));
    lemma_straight_concat(u7, cut_code());
    lemma_straight_concat(u8, push_named_address_code(r15));
    lemma_straight_concat(u9, resume_code());
}


/// A call within a larger piece of code that holds the callee: the machine
/// pushes the frame and goes on at the callee's entry. The label to come back
/// to stands right after the jump.
pub proof fn lemma_call_enters(
    code: Code,
    k: int,
    callee: Seq<char>,
    args: u8,
    caller: Seq<char>,
    id: u64,
    j: int,
    m: Machine,
    layout: Layout,
)
    requires
        stands_at(code, k, call_code(callee, args, caller, id)),
        code[j] == label(entry_label(callee)),
        0 <= j < code.len(),
        tells_apart(code, layout),
        room_for_frame(m),
    ensures
        advance_by(code, Progress { m, pc: k }, layout, 42).pc == j,
        advance_by(code, Progress { m, pc: k }, layout, 42).m.ram == entered(
            m.ram,
            address(layout, return_label(caller, id)),
            args,
        ),
        code[k + 42] == label(return_label(caller, id)),
{
    let back = return_label(caller, id);
    let whole = call_code(callee, args, caller, id);
    let frame = frame_code(back, args);
    crate::labels::lemma_frame_loads(back, args);
    lemma_frame_straight(back, args);
    lemma_frame(back, args, m, layout);
    assert(whole.subrange(0, 40) =~= frame);
    assert(code.subrange(k, k + 40) =~= whole.subrange(0, 40));
    assert(frame.take(40) =~= frame);
    lemma_advance_through(code, k, frame, 40, m, layout);
    let framed = advance_by(code, Progress { m, pc: k }, layout, 40);
    assert(code[k + 40] == code.subrange(k, k + 43)[40]);
    assert(code[k + 41] == code.subrange(k, k + 43)[41]);
    assert(code[k + 42] == code.subrange(k, k + 43)[42]);
    assert(whole[40] == at(entry_label(callee)));
    assert(whole[41] == branch(Comp::Zero, Jump::Jmp));
    assert(whole[42] == label(back));
    reveal_with_fuel(advance_by, 3);
    let a = address(layout, entry_label(callee));
    assert(lands(code, layout, a, j));
    lemma_landing(code, layout, a, j);
    lemma_advance_more(code, Progress { m, pc: k }, layout, 40, 2);
}

/// A return within a larger piece of code that holds the label to come back
/// to: the machine takes the frame down and goes on at that label.
pub proof fn lemma_return_lands(
    code: Code,
    k: int,
    back: SymbolModel,
    j: int,
    m: Machine,
    layout: Layout,
)
    requires
        stands_at(code, k, return_code()),
        code[j] == label(back),
        0 <= j < code.len(),
        tells_apart(code, layout),
        fit_to_return(m),
        m.ram[m.ram[LCL as int] - 5] == address(layout, back),
    ensures
        advance_by(code, Progress { m, pc: k }, layout, 51).pc == j,
        advance_by(code, Progress { m, pc: k }, layout, 51).m.ram == left(m.ram),
{
    let whole = return_code();
    let unwind = unwind_code();
    crate::labels::lemma_unwind_loads(back);
    lemma_frame_straight(back, 0);
    lemma_unwind(m, layout);
    assert(unwind.len() == 50);
    assert(whole.subrange(0, 50) =~= unwind);
    assert(code.subrange(k, k + 50) =~= whole.subrange(0, 50));
    assert(unwind.take(50) =~= unwind);
    lemma_advance_through(code, k, unwind, 50, m, layout);
    assert(code[k + 50] == code.subrange(k, k + 51)[50]);
    assert(whole[50] == branch(Comp::Zero, Jump::Jmp));
    reveal_with_fuel(advance_by, 2);
    let a = address(layout, back);
    assert(lands(code, layout, a, j));
    lemma_landing(code, layout, a, j);
    lemma_advance_more(code, Progress { m, pc: k }, layout, 50, 1);
}

} // verus!
