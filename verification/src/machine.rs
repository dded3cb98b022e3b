//! The target machine, as far as the translator's claims about its code go:
//! its registers and memory, and what an instruction that does not jump does
//! to them.
//!
//! A word has 16 bits and is read as a number in two's complement. The
//! symbols `SP`, `LCL`, `ARG`, `THIS` and `THAT` stand for the cells 0 to 4, a
//! number for itself; where the other symbols are put is up to the assembler.
use crate::target::{Code, Comp, Dest, InstrModel, Jump, SymbolModel};
use vstd::prelude::*;

verus! {

/// The greatest number that a word holds.
pub const WORD_MAX: u16 = 32767;

/// The cell that holds the stack pointer.
pub const SP: u16 = 0;

/// The cell that holds the base of the `local` segment.
pub const LCL: u16 = 1;

/// The cell that holds the base of the `argument` segment.
pub const ARG: u16 = 2;

/// The cell that holds the base of the `this` segment.
pub const THIS: u16 = 3;

/// The cell that holds the base of the `that` segment.
pub const THAT: u16 = 4;

/// The registers and the memory.
pub struct Machine {
    pub a: int,
    pub d: int,
    pub ram: Map<int, int>,
}

/// Where the assembler puts the symbols that it is free to place.
pub struct Layout {
    pub places: Map<SymbolModel, int>,
}

/// The word that the low 16 bits of `x` make.
pub open spec fn wrap(x: int) -> int {
    let r = x % 0x10000;
    if r <= WORD_MAX {
        r
    } else {
        r - 0x10000
    }
}

/// Bit by bit, the conjunction of two words.
pub open spec fn word_and(x: int, y: int) -> int {
    ((x as i16) & (y as i16)) as int
}

/// Bit by bit, the disjunction of two words.
pub open spec fn word_or(x: int, y: int) -> int {
    ((x as i16) | (y as i16)) as int
}

/// Bit by bit, the negation of a word.
pub open spec fn word_not(x: int) -> int {
    wrap(-x - 1)
}

/// The address that a symbol stands for.
pub open spec fn address(layout: Layout, s: SymbolModel) -> int {
    match s {
        SymbolModel::Sp => SP as int,
        SymbolModel::Lcl => LCL as int,
        SymbolModel::Arg => ARG as int,
        SymbolModel::This => THIS as int,
        SymbolModel::That => THAT as int,
        SymbolModel::Value(n) => n as int,
        _ => layout.places[s],
    }
}

/// What an instruction computes from `A`, `D` and the cell `M`.
pub open spec fn compute(comp: Comp, a: int, d: int, m: int) -> int {
    match comp {
        Comp::Zero => 0,
        Comp::One => 1,
        Comp::MinusOne => -1,
        Comp::D => d,
        Comp::A => a,
        Comp::M => m,
        Comp::NotD => word_not(d),
        Comp::NotA => word_not(a),
        Comp::NotM => word_not(m),
        Comp::NegD => wrap(-d),
        Comp::NegA => wrap(-a),
        Comp::NegM => wrap(-m),
        Comp::DPlusOne => wrap(d + 1),
        Comp::APlusOne => wrap(a + 1),
        Comp::MPlusOne => wrap(m + 1),
        Comp::DMinusOne => wrap(d - 1),
        Comp::AMinusOne => wrap(a - 1),
        Comp::MMinusOne => wrap(m - 1),
        Comp::DPlusA => wrap(d + a),
        Comp::DPlusM => wrap(d + m),
        Comp::DMinusA => wrap(d - a),
        Comp::DMinusM => wrap(d - m),
        Comp::AMinusD => wrap(a - d),
        Comp::MMinusD => wrap(m - d),
        Comp::DAndA => word_and(d, a),
        Comp::DAndM => word_and(d, m),
        Comp::DOrA => word_or(d, a),
        Comp::DOrM => word_or(d, m),
    }
}

/// Whether a destination takes in `A`.
pub open spec fn stores_a(dest: Dest) -> bool {
    dest == Dest::A || dest == Dest::AM || dest == Dest::AD || dest == Dest::AMD
}

/// Whether a destination takes in `D`.
pub open spec fn stores_d(dest: Dest) -> bool {
    dest == Dest::D || dest == Dest::MD || dest == Dest::AD || dest == Dest::AMD
}

/// Whether a destination takes in the cell that `A` addresses.
pub open spec fn stores_m(dest: Dest) -> bool {
    dest == Dest::M || dest == Dest::MD || dest == Dest::AM || dest == Dest::AMD
}

/// Whether control goes from the instruction to the one after it, whatever
/// the registers hold: it is a line of the machine's, and has no jump.
pub open spec fn falls_through(i: InstrModel) -> bool {
    match i {
        InstrModel::Compute { jump, .. } => jump == Jump::Never,
        InstrModel::Unsupported { .. } => false,
        _ => true,
    }
}

/// Whether control goes through `code` from its first line to its last.
pub open spec fn straight(code: Code) -> bool {
    forall|k: int| 0 <= k < code.len() ==> falls_through(#[trigger] code[k])
}

/// The machine after an instruction that does not jump. A computation reads
/// the registers and the cell that `A` addresses as they are before it, and
/// stores what it computed wherever its destination says; a cell is written
/// at the address that `A` held before. Labels and notes are no
/// instructions of the machine.
pub open spec fn step(i: InstrModel, m: Machine, layout: Layout) -> Machine {
    match i {
        InstrModel::At(s) => Machine { a: address(layout, s), ..m },
        InstrModel::Compute { dest, comp, .. } => {
            let v = compute(comp, m.a, m.d, m.ram[m.a]);
            Machine {
                a: if stores_a(dest) {
                    v
                } else {
                    m.a
                },
                d: if stores_d(dest) {
                    v
                } else {
                    m.d
                },
                ram: if stores_m(dest) {
                    m.ram.insert(m.a, v)
                } else {
                    m.ram
                },
            }
        },
        _ => m,
    }
}

/// The machine after the first `k` instructions of `code`, one after the
/// other.
pub open spec fn run_first(code: Code, k: nat, m: Machine, layout: Layout) -> Machine
    decreases k,
{
    if k == 0 {
        m
    } else {
        step(code[k - 1], run_first(code, (k - 1) as nat, m, layout), layout)
    }
}

/// The machine after the instructions of `code`, one after the other. It is
/// what the machine does where `code` is straight.
pub open spec fn run(code: Code, m: Machine, layout: Layout) -> Machine {
    run_first(code, code.len(), m, layout)
}

/// The stack pointer.
pub open spec fn sp(m: Machine) -> int {
    m.ram[SP as int]
}

/// The first instructions of a piece of code do the same whatever follows
/// them.
pub proof fn lemma_run_first_prefix(a: Code, b: Code, k: nat, m: Machine, layout: Layout)
    requires
        k <= a.len(),
    ensures
        run_first(a + b, k, m, layout) == run_first(a, k, m, layout),
    decreases k,
{
    if k > 0 {
        lemma_run_first_prefix(a, b, (k - 1) as nat, m, layout);
    }
}

/// Running two pieces of code in a row is running the second from where the
/// first led.
pub proof fn lemma_run_concat(a: Code, b: Code, m: Machine, layout: Layout)
    ensures
        run(a + b, m, layout) == run(b, run(a, m, layout), layout),
{
    lemma_run_concat_first(a, b, b.len(), m, layout);
}

proof fn lemma_run_concat_first(a: Code, b: Code, k: nat, m: Machine, layout: Layout)
    requires
        k <= b.len(),
    ensures
        run_first(a + b, a.len() + k, m, layout) == run_first(b, k, run(a, m, layout), layout),
    decreases k,
{
    if k == 0 {
        lemma_run_first_prefix(a, b, a.len(), m, layout);
    } else {
        lemma_run_concat_first(a, b, (k - 1) as nat, m, layout);
        assert((a + b)[a.len() + k - 1] == b[k - 1]);
    }
}

/// Whether an instruction that computed `v` jumps.
pub open spec fn jumps(jump: Jump, v: int) -> bool {
    match jump {
        Jump::Never => false,
        Jump::Jgt => v > 0,
        Jump::Jeq => v == 0,
        Jump::Jge => v >= 0,
        Jump::Jlt => v < 0,
        Jump::Jne => v != 0,
        Jump::Jle => v <= 0,
        Jump::Jmp => true,
    }
}

/// Whether a jump to the address `a` lands at `k` in `code`: at a label that
/// stands for `a`.
pub open spec fn lands(code: Code, layout: Layout, a: int, k: int) -> bool {
    0 <= k < code.len() && code[k] is Label && address(layout, code[k]->Label_0) == a
}

/// Whether the labels of `code` stand for addresses of which no two are the
/// same.
pub open spec fn tells_apart(code: Code, layout: Layout) -> bool {
    forall|i: int, j: int|
        0 <= i < j < code.len() && (#[trigger] code[i]) is Label && (#[trigger] code[j]) is Label
            ==> address(layout, code[i]->Label_0) != address(layout, code[j]->Label_0)
}

/// A machine on its way through a piece of code: `pc` is the place in the
/// code of the line that comes next. With `pc` outside the code, the machine
/// has left it.
pub struct Progress {
    pub m: Machine,
    pub pc: int,
}

/// The machine at the first line of a piece of code.
pub open spec fn start(m: Machine) -> Progress {
    Progress { m, pc: 0 }
}

/// The machine one line on. A line without a jump, or whose jump is not
/// taken, leads to the next line. A jump that is taken leads to the label in
/// the code that stands for the address in `A`, and out of the code where
/// there is none. A line that is no line of the machine's leads nowhere.
pub open spec fn advance(code: Code, p: Progress, layout: Layout) -> Progress {
    if 0 <= p.pc < code.len() {
        match code[p.pc] {
            InstrModel::Compute { comp, jump, .. } => {
                let after = step(code[p.pc], p.m, layout);
                if jumps(jump, compute(comp, p.m.a, p.m.d, p.m.ram[p.m.a])) {
                    Progress {
                        m: after,
                        pc: if exists|k: int| lands(code, layout, p.m.a, k) {
                            choose|k: int| lands(code, layout, p.m.a, k)
                        } else {
                            -1
                        },
                    }
                } else {
                    Progress { m: after, pc: p.pc + 1 }
                }
            },
            InstrModel::Unsupported { .. } => p,
            i => Progress { m: step(i, p.m, layout), pc: p.pc + 1 },
        }
    } else {
        p
    }
}

/// The machine `n` lines on.
pub open spec fn advance_by(code: Code, p: Progress, layout: Layout, n: nat) -> Progress
    decreases n,
{
    if n == 0 {
        p
    } else {
        advance(code, advance_by(code, p, layout, (n - 1) as nat), layout)
    }
}

/// Going `k` lines on and `n` more is going `k + n` lines on.
pub proof fn lemma_advance_more(code: Code, p: Progress, layout: Layout, k: nat, n: nat)
    ensures
        advance_by(code, advance_by(code, p, layout, k), layout, n) == advance_by(
            code,
            p,
            layout,
            k + n,
        ),
    decreases n,
{
    if n > 0 {
        lemma_advance_more(code, p, layout, k, (n - 1) as nat);
    }
}

/// Where the labels of a piece of code stand for different addresses, a jump
/// to the address of one of them lands at that label.
pub proof fn lemma_landing(code: Code, layout: Layout, a: int, k: int)
    requires
        tells_apart(code, layout),
        lands(code, layout, a, k),
    ensures
        (exists|j: int| lands(code, layout, a, j)),
        (choose|j: int| lands(code, layout, a, j)) == k,
{
    let j = choose|j: int| lands(code, layout, a, j);
    assert(lands(code, layout, a, j));
    if j < k {
        assert(code[j] is Label && code[k] is Label);
    } else if k < j {
        assert(code[k] is Label && code[j] is Label);
    }
}

/// Through straight code the machine goes line by line.
pub proof fn lemma_advance_straight(code: Code, m: Machine, layout: Layout, n: nat)
    requires
        n <= code.len(),
        straight(code.take(n as int)),
    ensures
        advance_by(code, start(m), layout, n) == (Progress {
            m: run_first(code, n, m, layout),
            pc: n as int,
        }),
    decreases n,
{
    if n > 0 {
        assert forall|k: int| 0 <= k < n - 1 implies falls_through(
            #[trigger] code.take(n - 1)[k],
        ) by {
            assert(code.take(n - 1)[k] == code.take(n as int)[k]);
        }
        lemma_advance_straight(code, m, layout, (n - 1) as nat);
        assert(falls_through(code.take(n as int)[n - 1]));
    }
}

/// Two straight pieces of code in a row are straight.
pub proof fn lemma_straight_concat(a: Code, b: Code)
    requires
        straight(a),
        straight(b),
    ensures
        straight(a + b),
{
    assert forall|k: int| 0 <= k < (a + b).len() implies falls_through(#[trigger] (a + b)[k]) by {
        if k < a.len() {
            assert((a + b)[k] == a[k]);
        } else {
            assert((a + b)[k] == b[k - a.len()]);
        }
    }
}

/// The machine goes through straight code from its first line to its end,
/// and is afterwards what running the code makes it.
pub proof fn lemma_straight_run(code: Code, m: Machine, layout: Layout)
    requires
        straight(code),
    ensures
        advance_by(code, start(m), layout, code.len()) == (Progress {
            m: run(code, m, layout),
            pc: code.len() as int,
        }),
{
    assert(code.take(code.len() as int) =~= code);
    lemma_advance_straight(code, m, layout, code.len());
}


/// Whether the piece `part` stands at `k` in `code`.
pub open spec fn stands_at(code: Code, k: int, part: Code) -> bool {
    0 <= k && k + part.len() <= code.len() && code.subrange(k, k + part.len()) == part
}

/// Through the first `n` lines of a piece of a larger code, where these are
/// straight, the machine goes line by line, and is afterwards what running
/// them makes it.
pub proof fn lemma_advance_through(
    code: Code,
    k: int,
    part: Code,
    n: nat,
    m: Machine,
    layout: Layout,
)
    requires
        stands_at(code, k, part),
        n <= part.len(),
        straight(part.take(n as int)),
    ensures
        advance_by(code, Progress { m, pc: k }, layout, n) == (Progress {
            m: run_first(part, n, m, layout),
            pc: k + n,
        }),
    decreases n,
{
    if n > 0 {
        assert forall|i: int| 0 <= i < n - 1 implies falls_through(
            #[trigger] part.take(n - 1)[i],
        ) by {
            assert(part.take(n - 1)[i] == part.take(n as int)[i]);
        }
        lemma_advance_through(code, k, part, (n - 1) as nat, m, layout);
        assert(code[k + n - 1] == code.subrange(k, k + part.len())[n - 1]);
        assert(falls_through(part.take(n as int)[n - 1]));
    }
}

} // verus!
