//! What holds of the labels in translated code.
//!
//! A label of the source is a symbol of the function that declares it. A label
//! of the translator's own carries a number, and the code of one instruction
//! holds the definition of each such label that it refers to.
use crate::arith::{comparison_code, if_true_label, Relation};
use crate::call::{
    call_code, cut_code, entry_label, frame_code, function_code, keep_code, locals_done, locals_top,
    repoint_code, resume_code, return_code, return_label, unwind_code, KEPT_RESULT, KEPT_RETURN,
};
use crate::command::CommandModel;
use crate::context::ContextModel;
use crate::flow::{goto_code, label_code, scoped_label};
use crate::segment::{pop_named_address_code, push_name_code, push_named_address_code};
use crate::target::{
    at, branch, instr_text, label, mark_text, symbol_text, Code, Comp, InstrModel, Jump, Mark,
    SymbolModel,
};
use crate::text::{decimal_text, is_digit, lemma_decimal_text_injective, lemma_decimal_text_value};
use crate::translate::{command_code, mints};
use vstd::prelude::*;

verus! {

/// Whether the label `s` is defined at `k` in `code`.
pub open spec fn defined_at(code: Code, s: SymbolModel, k: int) -> bool {
    0 <= k < code.len() && code[k] == label(s)
}

/// Whether an instruction of `code` loads the address of `s`.
pub open spec fn referenced(code: Code, s: SymbolModel) -> bool {
    exists|k: int| 0 <= k < code.len() && #[trigger] code[k] == at(s)
}

/// Whether `code` holds one definition of the label `s` and no more.
pub open spec fn defined_once(code: Code, s: SymbolModel) -> bool {
    exists|j: int|
        #[trigger] defined_at(code, s, j) && forall|k: int|
            #[trigger] defined_at(code, s, k) ==> k == j
}

/// Whether `code` holds no definition of the label `s`.
pub open spec fn undefined_in(code: Code, s: SymbolModel) -> bool {
    forall|k: int| !#[trigger] defined_at(code, s, k)
}

/// Whether an instruction names the symbol `s`.
pub open spec fn names(i: InstrModel, s: SymbolModel) -> bool {
    i == at(s) || i == label(s)
}

/// Whether `s` is a label that only the translator makes: one that carries
/// a number, or the idle loop of the prologue.
pub open spec fn is_internal(s: SymbolModel) -> bool {
    s is Minted || s is Idle
}

/// Whether every numbered label that `code` names carries the number `id`,
/// and `code` does not name the idle loop.
pub open spec fn numbered_with(code: Code, id: u64) -> bool {
    forall|k: int, s: SymbolModel|
        0 <= k < code.len() && #[trigger] names(code[k], s) && is_internal(s) ==> s is Minted
            && s->id == id
}

/// Whether `code` names no label that only the translator makes.
pub open spec fn without_internal(code: Code) -> bool {
    forall|k: int, s: SymbolModel|
        0 <= k < code.len() && #[trigger] names(code[k], s) ==> !is_internal(s)
}

/// Two functions that declare a label of the same name declare two labels:
/// the symbols differ, and so does their text. A jump to the label from one
/// function names that function's label and not the other's.
pub proof fn lemma_label_scoping(name: Seq<char>, f: Seq<char>, g: Seq<char>)
    requires
        f != g,
    ensures
        scoped_label(name, f) != scoped_label(name, g),
        symbol_text(scoped_label(name, f)) != symbol_text(scoped_label(name, g)),
        referenced(goto_code(name, f), scoped_label(name, f)),
        !referenced(goto_code(name, f), scoped_label(name, g)),
        defined_once(label_code(name, f), scoped_label(name, f)),
        undefined_in(label_code(name, f), scoped_label(name, g)),
{
    let a = symbol_text(scoped_label(name, f));
    let b = symbol_text(scoped_label(name, g));
    if a == b {
        assert(a.len() == f.len() + 1 + name.len()) by {
            reveal_strlit(":");
        }
        assert(b.len() == g.len() + 1 + name.len()) by {
            reveal_strlit(":");
        }
        assert forall|i: int| 0 <= i < f.len() implies f[i] == g[i] by {
            assert(a[i] == f[i]);
            assert(b[i] == g[i]);
        }
        assert(f =~= g);
    }
    assert(goto_code(name, f)[0] == at(scoped_label(name, f)));
    assert(defined_at(label_code(name, f), scoped_label(name, f), 0));
}

/// A numeral, a dot and a name in a row tell the number and the name: the
/// numeral ends at the first dot.
proof fn lemma_numbered_name(a: nat, f: Seq<char>, b: nat, g: Seq<char>)
    requires
        decimal_text(a) + "."@ + f == decimal_text(b) + "."@ + g,
    ensures
        a == b,
        f == g,
{
    reveal_strlit(".");
    lemma_decimal_text_value(a);
    lemma_decimal_text_value(b);
    let x = decimal_text(a);
    let y = decimal_text(b);
    let text = x + "."@ + f;
    let other = y + "."@ + g;
    assert(text[x.len() as int] == '.');
    assert(other[y.len() as int] == '.');
    if x.len() < y.len() {
        assert(other[x.len() as int] == y[x.len() as int]);
        assert(is_digit(y[x.len() as int]));
    }
    if y.len() < x.len() {
        assert(text[y.len() as int] == x[y.len() as int]);
        assert(is_digit(x[y.len() as int]));
    }
    assert(x =~= text.take(x.len() as int));
    assert(y =~= other.take(y.len() as int));
    lemma_decimal_text_injective(a, b);
    assert(f =~= text.skip(x.len() as int + 1));
    assert(g =~= other.skip(y.len() as int + 1));
}

/// Two labels that the translator marks in the same way, with different
/// numbers, are written differently, whatever their functions.
pub proof fn lemma_numbers_tell_apart(
    function: Seq<char>,
    other: Seq<char>,
    mark: Mark,
    a: u64,
    b: u64,
)
    requires
        a != b,
    ensures
        symbol_text(SymbolModel::Minted { function, mark, id: a }) != symbol_text(
            SymbolModel::Minted { function: other, mark, id: b },
        ),
{
    let x = symbol_text(SymbolModel::Minted { function, mark, id: a });
    let y = symbol_text(SymbolModel::Minted { function: other, mark, id: b });
    if x == y {
        let n = mark_text(mark).len() as int;
        assert(x.skip(n) =~= decimal_text(a as nat) + "."@ + function);
        assert(y.skip(n) =~= decimal_text(b as nat) + "."@ + other);
        lemma_numbered_name(a as nat, function, b as nat, other);
    }
}

/// A static variable has a name of its own: two of them that are written
/// alike belong to the same unit and have the same index, whatever the units
/// are called.
pub proof fn lemma_static_names_differ(unit: Seq<char>, index: u16, other: Seq<char>, number: u16)
    requires
        symbol_text(SymbolModel::Static { unit, index }) == symbol_text(
            SymbolModel::Static { unit: other, index: number },
        ),
    ensures
        unit == other,
        index == number,
{
    reveal_strlit(".");
    lemma_decimal_text_value(index as nat);
    lemma_decimal_text_value(number as nat);
    let x = decimal_text(index as nat);
    let y = decimal_text(number as nat);
    let text = symbol_text(SymbolModel::Static { unit, index });
    let same = symbol_text(SymbolModel::Static { unit: other, index: number });
    let n = text.len() as int;
    // The numeral starts after the last dot.
    assert(text[n - x.len() - 1] == '.');
    assert(same[n - y.len() - 1] == '.');
    if x.len() < y.len() {
        assert(same[n - x.len() - 1] == y[y.len() - x.len() - 1]);
        assert(is_digit(y[y.len() - x.len() - 1]));
    }
    if y.len() < x.len() {
        assert(text[n - y.len() - 1] == x[x.len() - y.len() - 1]);
        assert(is_digit(x[x.len() - y.len() - 1]));
    }
    assert(x =~= text.skip(n - x.len()));
    assert(y =~= same.skip(n - y.len()));
    lemma_decimal_text_injective(index as nat, number as nat);
    assert(unit =~= text.take(n - x.len() - 1));
    assert(other =~= same.take(n - y.len() - 1));
}

/// Whether a name holds no colon.
pub open spec fn plain(name: Seq<char>) -> bool {
    forall|i: int| 0 <= i < name.len() ==> #[trigger] name[i] != ':'
}

/// Whether `s` is a label whose function has a plain name. The name of a
/// label of the source may hold what it will.
pub open spec fn plainly_named(s: SymbolModel) -> bool {
    match s {
        SymbolModel::Entry { function } => plain(function),
        SymbolModel::Scoped { function, .. } => plain(function),
        SymbolModel::Minted { function, .. } => plain(function),
        SymbolModel::Idle => true,
        _ => false,
    }
}

/// Whether a colon stands at `i` in `text`.
pub open spec fn colon_at(text: Seq<char>, i: int) -> bool {
    0 <= i < text.len() && text[i] == ':'
}

/// The text of a label of the source has its first colon right after the
/// function.
proof fn lemma_scoped_shape(function: Seq<char>, name: Seq<char>)
    requires
        plain(function),
    ensures
        colon_at(symbol_text(SymbolModel::Scoped { function, label: name }), function.len() as int),
        forall|i: int|
            0 <= i < function.len() ==> !colon_at(
                symbol_text(SymbolModel::Scoped { function, label: name }),
                i,
            ),
        symbol_text(SymbolModel::Scoped { function, label: name }).take(function.len() as int)
            == function,
        symbol_text(SymbolModel::Scoped { function, label: name }).skip(function.len() as int + 1)
            == name,
{
    reveal_strlit(":");
    let text = symbol_text(SymbolModel::Scoped { function, label: name });
    assert(text.take(function.len() as int) =~= function);
    assert(text.skip(function.len() as int + 1) =~= name);
    assert forall|i: int| 0 <= i < function.len() implies !colon_at(text, i) by {
        assert(text[i] == function[i]);
    }
    assert(text[function.len() as int] == ':');
}

/// The text of a function's entry starts with `fn.` and has no colon.
proof fn lemma_entry_shape(function: Seq<char>)
    requires
        plain(function),
    ensures
        symbol_text(SymbolModel::Entry { function }).len() == 3 + function.len(),
        symbol_text(SymbolModel::Entry { function })[0] == 'f',
        symbol_text(SymbolModel::Entry { function }).skip(3) == function,
        forall|i: int| !colon_at(symbol_text(SymbolModel::Entry { function }), i),
{
    reveal_strlit("fn.");
    let text = symbol_text(SymbolModel::Entry { function });
    assert(text.skip(3) =~= function);
    assert forall|i: int| !colon_at(text, i) by {
        if 3 <= i < text.len() {
            assert(text[i] == function[i - 3]);
        }
    }
}

/// The texts of the marks have no colon and no digit, and no two start
/// alike: the two marks of the loop that clears locals part at their twelfth
/// character.
proof fn lemma_mark_shape(mark: Mark)
    ensures
        mark_text(mark).len() >= 7,
        forall|i: int| 0 <= i < mark_text(mark).len() ==> mark_text(mark)[i] != ':',
        mark_text(mark)[0] == 'i' <==> mark == Mark::IfTrue,
        mark_text(mark)[0] == 'r' <==> mark == Mark::Return,
        mark_text(mark)[0] == 'l' <==> mark == Mark::LocalsTop || mark == Mark::LocalsDone,
        mark == Mark::LocalsTop ==> mark_text(mark).len() == 15 && mark_text(mark)[11] == 't',
        mark == Mark::LocalsDone ==> mark_text(mark).len() == 16 && mark_text(mark)[11] == 'd',
{
    reveal_strlit("iftrue.");
    reveal_strlit("return.");
    reveal_strlit("local_vars_top.");
    reveal_strlit("local_vars_done.");
}

/// The text of a numbered label starts with its mark and has no colon.
proof fn lemma_minted_shape(function: Seq<char>, mark: Mark, id: u64)
    requires
        plain(function),
    ensures
        symbol_text(SymbolModel::Minted { function, mark, id }).len() > mark_text(mark).len(),
        forall|i: int|
            0 <= i < mark_text(mark).len() ==> symbol_text(
                SymbolModel::Minted { function, mark, id },
            )[i] == mark_text(mark)[i],
        symbol_text(SymbolModel::Minted { function, mark, id }).skip(mark_text(mark).len() as int)
            == decimal_text(id as nat) + "."@ + function,
        forall|i: int| !colon_at(symbol_text(SymbolModel::Minted { function, mark, id }), i),
{
    reveal_strlit(".");
    lemma_mark_shape(mark);
    lemma_decimal_text_value(id as nat);
    let text = symbol_text(SymbolModel::Minted { function, mark, id });
    let digits = decimal_text(id as nat);
    let m = mark_text(mark);
    let a = m.len() as int;
    let b = a + digits.len();
    assert(text.skip(a) =~= digits + "."@ + function);
    assert forall|i: int| !colon_at(text, i) by {
        if 0 <= i < a {
            assert(text[i] == m[i]);
        } else if a <= i < b {
            assert(text[i] == digits[i - a]);
            assert(is_digit(digits[i - a]));
        } else if i == b {
            assert(text[i] == '.');
        } else if b < i < text.len() {
            assert(text[i] == function[i - b - 1]);
        }
    }
}

/// The text of the idle loop starts with a capital and has no colon.
proof fn lemma_idle_shape()
    ensures
        symbol_text(SymbolModel::Idle).len() > 0,
        symbol_text(SymbolModel::Idle)[0] == 'S',
        forall|i: int| !colon_at(symbol_text(SymbolModel::Idle), i),
{
    reveal_strlit("Sys.init.loop");
}

/// Two numbered labels that are written alike are the same.
proof fn lemma_minted_same(
    f: Seq<char>,
    mark: Mark,
    id: u64,
    g: Seq<char>,
    other: Mark,
    number: u64,
)
    requires
        plain(f),
        plain(g),
        symbol_text(SymbolModel::Minted { function: f, mark, id }) == symbol_text(
            SymbolModel::Minted { function: g, mark: other, id: number },
        ),
    ensures
        f == g,
        mark == other,
        id == number,
{
    lemma_mark_shape(mark);
    lemma_mark_shape(other);
    lemma_minted_shape(f, mark, id);
    lemma_minted_shape(g, other, number);
    let text = symbol_text(SymbolModel::Minted { function: f, mark, id });
    assert(text[0] == mark_text(mark)[0]);
    assert(text[0] == mark_text(other)[0]);
    if mark_text(mark)[0] == 'l' {
        assert(text[11] == mark_text(mark)[11]);
        assert(text[11] == mark_text(other)[11]);
    }
    assert(mark == other);
    lemma_numbered_name(id as nat, f, number as nat, g);
}

/// Labels whose functions have plain names and that are written alike are
/// the same label, whatever their kinds: an entry, a label of the source, a
/// numbered label or the idle loop.
pub proof fn lemma_label_texts_differ(s: SymbolModel, t: SymbolModel)
    requires
        plainly_named(s),
        plainly_named(t),
        symbol_text(s) == symbol_text(t),
    ensures
        s == t,
{
    let text = symbol_text(s);
    lemma_idle_shape();
    match s {
        SymbolModel::Entry { function } => lemma_entry_shape(function),
        SymbolModel::Scoped { function, label } => lemma_scoped_shape(function, label),
        SymbolModel::Minted { function, mark, id } => {
            lemma_minted_shape(function, mark, id);
            lemma_mark_shape(mark);
        },
        _ => {},
    }
    match t {
        SymbolModel::Entry { function } => lemma_entry_shape(function),
        SymbolModel::Scoped { function, label } => lemma_scoped_shape(function, label),
        SymbolModel::Minted { function, mark, id } => {
            lemma_minted_shape(function, mark, id);
            lemma_mark_shape(mark);
        },
        _ => {},
    }
    // A label of the source is the only one with a colon.
    assert(s is Scoped <==> exists|i: int| colon_at(text, i)) by {
        if s is Scoped {
            assert(colon_at(text, s->Scoped_function.len() as int));
        }
    }
    assert(t is Scoped <==> exists|i: int| colon_at(text, i)) by {
        if t is Scoped {
            assert(colon_at(text, t->Scoped_function.len() as int));
        }
    }
    match (s, t) {
        (
            SymbolModel::Scoped { function: f, label: a },
            SymbolModel::Scoped { function: g, label: b },
        ) => {
            assert(colon_at(text, f.len() as int));
            assert(colon_at(text, g.len() as int));
            assert(f.len() == g.len());
        },
        (
            SymbolModel::Minted { function: f, mark, id },
            SymbolModel::Minted { function: g, mark: other, id: number },
        ) => {
            lemma_minted_same(f, mark, id, g, other, number);
        },
        (SymbolModel::Entry { .. }, SymbolModel::Minted { mark, .. }) => {
            assert(text[0] == mark_text(mark)[0]);
        },
        (SymbolModel::Minted { mark, .. }, SymbolModel::Entry { .. }) => {
            assert(text[0] == mark_text(mark)[0]);
        },
        (SymbolModel::Idle, SymbolModel::Minted { mark, .. }) => {
            assert(text[0] == mark_text(mark)[0]);
        },
        (SymbolModel::Minted { mark, .. }, SymbolModel::Idle) => {
            assert(text[0] == mark_text(mark)[0]);
        },
        _ => {},
    }
}

/// The entry of a function with a plain name is written unlike every label
/// of the source and every numbered label, whatever their names, and unlike
/// the idle loop; and unlike the entry of any other function.
pub proof fn lemma_entry_text_differs(function: Seq<char>, t: SymbolModel)
    requires
        plain(function),
        t is Entry || t is Scoped || t is Minted || t is Idle,
        t != (SymbolModel::Entry { function }),
    ensures
        symbol_text(SymbolModel::Entry { function }) != symbol_text(t),
{
    let text = symbol_text(SymbolModel::Entry { function });
    lemma_entry_shape(function);
    lemma_idle_shape();
    reveal_strlit("fn.");
    reveal_strlit(":");
    match t {
        SymbolModel::Entry { function: g } => {
            if text == symbol_text(t) {
                assert(symbol_text(t).skip(3) =~= g);
            }
        },
        SymbolModel::Scoped { function: g, label } => {
            assert(symbol_text(t)[g.len() as int] == ':');
            assert(colon_at(symbol_text(t), g.len() as int));
        },
        SymbolModel::Minted { mark, .. } => {
            lemma_mark_shape(mark);
            assert(symbol_text(t)[0] == mark_text(mark)[0]);
        },
        _ => {},
    }
}

/// The head of a function starts with the definition of its entry, and a
/// call of the function jumps to that entry. Where the function's name is
/// plain, no other label is defined by a line like the one that defines the
/// entry: no entry of another function, no label of the source, no numbered
/// label, whatever their names, and not the idle loop.
pub proof fn lemma_entry_line(
    function: Seq<char>,
    locals: u8,
    id: u64,
    args: u8,
    caller: Seq<char>,
    number: u64,
    t: SymbolModel,
)
    requires
        plain(function),
        t is Entry || t is Scoped || t is Minted || t is Idle,
        t != entry_label(function),
    ensures
        function_code(function, locals, id)[0] == label(entry_label(function)),
        call_code(function, args, caller, number)[40] == at(entry_label(function)),
        call_code(function, args, caller, number)[41] == branch(Comp::Zero, Jump::Jmp),
        instr_text(label(entry_label(function))) != instr_text(label(t)),
{
    lemma_frame_loads(return_label(caller, number), args);
    lemma_entry_text_differs(function, t);
    reveal_strlit("(");
    reveal_strlit(")");
    let one = instr_text(label(entry_label(function)));
    let two = instr_text(label(t));
    if one == two {
        assert(one.subrange(1, one.len() - 1) =~= symbol_text(entry_label(function)));
        assert(two.subrange(1, two.len() - 1) =~= symbol_text(t));
    }
}

/// Whether `code` names no label that only the translator makes, but `t`,
/// and holds no label at all.
pub open spec fn loads_only(code: Code, t: SymbolModel) -> bool {
    forall|k: int|
        0 <= k < code.len() ==> !(#[trigger] code[k] is Label) && (forall|s: SymbolModel|
            names(code[k], s) && is_internal(s) ==> s == t)
}

/// What holds of two pieces of code that name no label of the translator's
/// own but `t` and hold no label holds of the two in a row.
pub proof fn lemma_loads_only_concat(a: Code, b: Code, t: SymbolModel)
    requires
        loads_only(a, t),
        loads_only(b, t),
    ensures
        loads_only(a + b, t),
{
    assert forall|k: int| 0 <= k < (a + b).len() implies !(#[trigger] (a + b)[k] is Label) && (
    forall|s: SymbolModel| names((a + b)[k], s) && is_internal(s) ==> s == t) by {
        if k < a.len() {
            assert((a + b)[k] == a[k]);
        } else {
            assert((a + b)[k] == b[k - a.len()]);
        }
    }
}

/// Code that pushes a cell holds no label and names that cell alone.
proof fn lemma_push_named_address_loads(cell: SymbolModel, t: SymbolModel)
    requires
        !is_internal(cell),
    ensures
        loads_only(push_named_address_code(cell), t),
        push_named_address_code(cell).len() == 6,
{
}

/// Code that pops into a cell holds no label and names that cell alone.
proof fn lemma_pop_named_address_loads(cell: SymbolModel, t: SymbolModel)
    requires
        !is_internal(cell),
    ensures
        loads_only(pop_named_address_code(cell), t),
{
}

/// The code that pushes a frame holds no label and names no label of the
/// translator's own but the one to come back to.
pub proof fn lemma_frame_loads(back: SymbolModel, args: u8)
    ensures
        loads_only(frame_code(back, args), back),
        frame_code(back, args).len() == 40,
        frame_code(back, args)[0] == at(back),
{
    let a = push_name_code(back);
    assert(loads_only(a, back));
    lemma_push_named_address_loads(SymbolModel::Lcl, back);
    lemma_push_named_address_loads(SymbolModel::Arg, back);
    lemma_push_named_address_loads(SymbolModel::This, back);
    lemma_push_named_address_loads(SymbolModel::That, back);
    let b = a + push_named_address_code(SymbolModel::Lcl);
    lemma_loads_only_concat(a, push_named_address_code(SymbolModel::Lcl), back);
    let c = b + push_named_address_code(SymbolModel::Arg);
    lemma_loads_only_concat(b, push_named_address_code(SymbolModel::Arg), back);
    let d = c + push_named_address_code(SymbolModel::This);
    lemma_loads_only_concat(c, push_named_address_code(SymbolModel::This), back);
    let e = d + push_named_address_code(SymbolModel::That);
    lemma_loads_only_concat(d, push_named_address_code(SymbolModel::That), back);
    let tail = repoint_code(args);
    assert(loads_only(tail, back));
    lemma_loads_only_concat(e, tail, back);
    assert(e[0] == a[0]);
}

/// The code that takes a frame down holds no label and names no label of
/// the translator's own.
pub proof fn lemma_unwind_loads(t: SymbolModel)
    ensures
        loads_only(unwind_code(), t),
{
    let r13 = SymbolModel::Value(KEPT_RETURN as u32);
    let r15 = SymbolModel::Value(KEPT_RESULT as u32);
    lemma_pop_named_address_loads(r15, t);
    lemma_pop_named_address_loads(r13, t);
    lemma_pop_named_address_loads(SymbolModel::That, t);
    lemma_pop_named_address_loads(SymbolModel::This, t);
    lemma_pop_named_address_loads(SymbolModel::Arg, t);
    lemma_pop_named_address_loads(SymbolModel::Lcl, t);
    lemma_push_named_address_loads(r15, t);
    let keep = keep_code();
    let cut = cut_code();
    let back = resume_code();
    assert(loads_only(keep, t));
    assert(loads_only(cut, t));
    assert(loads_only(back, t));
    let c1 = pop_named_address_code(r15) + keep;
    lemma_loads_only_concat(pop_named_address_code(r15), keep, t);
    let c2 = c1 + pop_named_address_code(SymbolModel::That);
    lemma_loads_only_concat(c1, pop_named_address_code(SymbolModel::That), t);
    let c3 = c2 + pop_named_address_code(SymbolModel::This);
    lemma_loads_only_concat(c2, pop_named_address_code(SymbolModel::This), t);
    let c4 = c3 + pop_named_address_code(SymbolModel::Arg);
    lemma_loads_only_concat(c3, pop_named_address_code(SymbolModel::Arg), t);
    let c5 = c4 + pop_named_address_code(SymbolModel::Lcl);
    lemma_loads_only_concat(c4, pop_named_address_code(SymbolModel::Lcl), t);
    let c6 = c5 + pop_named_address_code(r13);
    lemma_loads_only_concat(c5, pop_named_address_code(r13), t);
    let c7 = c6 + cut;
    lemma_loads_only_concat(c6, cut, t);
    let c8 = c7 + push_named_address_code(r15);
    lemma_loads_only_concat(c7, push_named_address_code(r15), t);
    lemma_loads_only_concat(c8, back, t);
}

/// Code that holds no label and names no label of the translator's own but
/// `t`, where `t` is none of them, names none of them.
pub proof fn lemma_loads_nothing_internal(code: Code, t: SymbolModel)
    requires
        loads_only(code, t),
        !is_internal(t),
    ensures
        without_internal(code),
{
    assert forall|k: int, s: SymbolModel|
        0 <= k < code.len() && #[trigger] names(code[k], s) implies !is_internal(s) by {
        assert(!(code[k] is Label));
    }
}

/// The code of an instruction that takes no number names no label that only
/// the translator makes.
pub proof fn lemma_plain_code(command: CommandModel, ctx: ContextModel)
    requires
        !mints(command),
    ensures
        without_internal(command_code(command, ctx)),
{
    match command {
        CommandModel::Return => {
            lemma_unwind_loads(SymbolModel::Sp);
            let jump = seq![branch(Comp::Zero, Jump::Jmp)];
            assert(loads_only(jump, SymbolModel::Sp));
            lemma_loads_only_concat(unwind_code(), jump, SymbolModel::Sp);
            lemma_loads_nothing_internal(return_code(), SymbolModel::Sp);
        },
        _ => {},
    }
}

/// The code of a comparison names one label of the translator's own, and
/// defines it once.
pub proof fn lemma_comparison_labels(relation: Relation, function: Seq<char>, id: u64)
    ensures
        numbered_with(comparison_code(relation, function, id), id),
        forall|s: SymbolModel|
            is_internal(s) && #[trigger] referenced(comparison_code(relation, function, id), s)
                ==> defined_once(comparison_code(relation, function, id), s),
{
    let code = comparison_code(relation, function, id);
    assert forall|s: SymbolModel| is_internal(s) && #[trigger] referenced(code, s) implies
        defined_once(code, s) by {
        let k = choose|k: int| 0 <= k < code.len() && #[trigger] code[k] == at(s);
        assert(s == if_true_label(function, id));
        assert(defined_at(code, s, 11));
    }
}

/// The code at the head of a function names two labels of the translator's
/// own where the function has locals, none where it has not, and defines once
/// each that it names.
pub proof fn lemma_function_labels(name: Seq<char>, locals: u8, id: u64)
    ensures
        numbered_with(function_code(name, locals, id), id),
        forall|s: SymbolModel|
            is_internal(s) && #[trigger] referenced(function_code(name, locals, id), s)
                ==> defined_once(function_code(name, locals, id), s),
{
    let code = function_code(name, locals, id);
    assert forall|s: SymbolModel| is_internal(s) && #[trigger] referenced(code, s) implies
        defined_once(code, s) by {
        let k = choose|k: int| 0 <= k < code.len() && #[trigger] code[k] == at(s);
        if s == locals_top(name, id) {
            assert(defined_at(code, s, 3));
        } else {
            assert(s == locals_done(name, id));
            assert(defined_at(code, s, 12));
        }
    }
}

/// The code of a call names one label of the translator's own, the one to
/// come back to, and defines it once.
pub proof fn lemma_call_labels(callee: Seq<char>, args: u8, caller: Seq<char>, id: u64)
    ensures
        numbered_with(call_code(callee, args, caller, id), id),
        forall|s: SymbolModel|
            is_internal(s) && #[trigger] referenced(call_code(callee, args, caller, id), s)
                ==> defined_once(call_code(callee, args, caller, id), s),
{
    let back = return_label(caller, id);
    let head = frame_code(back, args);
    let tail = seq![at(entry_label(callee)), branch(Comp::Zero, Jump::Jmp), label(back)];
    let code = call_code(callee, args, caller, id);
    lemma_frame_loads(back, args);
    assert forall|k: int, s: SymbolModel|
        0 <= k < code.len() && #[trigger] names(code[k], s) && is_internal(s) implies s == back by {
        if k < 40 {
            assert(code[k] == head[k]);
        } else {
            assert(code[k] == tail[k - 40]);
        }
    }
    assert(defined_at(code, back, 42)) by {
        assert(code[42] == tail[2]);
    }
    assert forall|k: int| #[trigger] defined_at(code, back, k) implies k == 42 by {
        if k < 40 {
            assert(code[k] == head[k]);
        } else {
            assert(code[k] == tail[k - 40]);
        }
    }
}

/// The code of an instruction that takes a number names no numbered label
/// but with that number, and defines once each label of them that it refers
/// to.
pub proof fn lemma_minting_code(command: CommandModel, ctx: ContextModel)
    requires
        mints(command),
        ctx.minted < u64::MAX,
    ensures
        numbered_with(command_code(command, ctx), (ctx.minted + 1) as u64),
        forall|s: SymbolModel|
            is_internal(s) && #[trigger] referenced(command_code(command, ctx), s)
                ==> defined_once(command_code(command, ctx), s),
{
    let id = (ctx.minted + 1) as u64;
    match command {
        CommandModel::Compare(relation) => lemma_comparison_labels(relation, ctx.function, id),
        CommandModel::Function { name, locals } => lemma_function_labels(name, locals, id),
        CommandModel::Call { name, args } => lemma_call_labels(name, args, ctx.function, id),
        _ => {},
    }
}

} // verus!
