//! Where the jumps of the source lead.
//!
//! The code of a jump stands somewhere in a larger piece of code, which also
//! holds the label. Provided that no two labels of that code stand for the
//! same address, the machine goes on at the label.
use crate::flow::{goto_code, if_goto_code, scoped_label};
use crate::labels::defined_at;
use crate::machine::{
    address, advance_by, lands, lemma_landing, sp, stands_at, tells_apart, Layout, Machine,
    Progress, SP,
};
use crate::stack::{something_to_pop, top};
use crate::target::Code;
use vstd::prelude::*;

verus! {

/// A `goto` leads to its label in the enclosing function, and changes
/// nothing but `A`.
pub proof fn lemma_goto(
    code: Code,
    k: int,
    name: Seq<char>,
    function: Seq<char>,
    j: int,
    m: Machine,
    layout: Layout,
)
    requires
        stands_at(code, k, goto_code(name, function)),
        defined_at(code, scoped_label(name, function), j),
        tells_apart(code, layout),
    ensures
        advance_by(code, Progress { m, pc: k }, layout, 2) == (Progress {
            m: Machine { a: address(layout, scoped_label(name, function)), ..m },
            pc: j,
        }),
{
    let part = code.subrange(k, k + 2);
    assert(code[k] == part[0]);
    assert(code[k + 1] == part[1]);
    reveal_with_fuel(advance_by, 3);
    let a = address(layout, scoped_label(name, function));
    assert(lands(code, layout, a, j));
    lemma_landing(code, layout, a, j);
}

/// An `if-goto` pops the top of the stack. Where that value is not zero the
/// machine goes on at the label in the enclosing function, else at the line
/// after the jump. No cell but `SP` has changed.
pub proof fn lemma_if_goto(
    code: Code,
    k: int,
    name: Seq<char>,
    function: Seq<char>,
    j: int,
    m: Machine,
    layout: Layout,
)
    requires
        stands_at(code, k, if_goto_code(name, function)),
        defined_at(code, scoped_label(name, function), j),
        tells_apart(code, layout),
        something_to_pop(m),
    ensures
        advance_by(code, Progress { m, pc: k }, layout, 5).m.ram == m.ram.insert(
            SP as int,
            sp(m) - 1,
        ),
        advance_by(code, Progress { m, pc: k }, layout, 5).pc == if top(m) != 0 {
            j
        } else {
            k + 5
        },
{
    let part = code.subrange(k, k + 5);
    assert(code[k] == part[0]);
    assert(code[k + 1] == part[1]);
    assert(code[k + 2] == part[2]);
    assert(code[k + 3] == part[3]);
    assert(code[k + 4] == part[4]);
    reveal_with_fuel(advance_by, 6);
    let a = address(layout, scoped_label(name, function));
    assert(lands(code, layout, a, j));
    lemma_landing(code, layout, a, j);
    assert(advance_by(code, Progress { m, pc: k }, layout, 5).m.ram =~= m.ram.insert(
        SP as int,
        sp(m) - 1,
    ));
}

} // verus!
