//! What holds of the text of a translated program.
//!
//! Target code tells its labels apart as symbols; the text tells them apart
//! as far as the names of the functions allow. Where the names that a program
//! gives to its functions are plain, a label of the translator's own that
//! the program's text refers to is defined by one line of that text.
use crate::bootstrap::bootstrap_code;
use crate::call::{call_code, frame_code, return_code, return_label, unwind_code};
use crate::command::{command_of, line_words, CommandModel};
use crate::context::{initial_context, top_level, ContextModel};
use crate::labels::{
    defined_at, defined_once, is_internal, lemma_frame_loads, lemma_label_texts_differ,
    lemma_unwind_loads, loads_only, plain, plainly_named, referenced,
};
use crate::program::{lemma_program_consistent, program_code, program_from};
use crate::target::{
    code_text, comp_text, dest_text, instr_text, label, symbol_text, Code, Comp, Dest, InstrModel,
    SymbolModel,
};
use crate::translate::{command_code, line_code, next_context};
use vstd::prelude::*;

verus! {

/// Whether the name that an instruction gives to a function, if it gives
/// one, is plain.
pub open spec fn names_plainly(command: CommandModel) -> bool {
    match command {
        CommandModel::Function { name, .. } => plain(name),
        _ => true,
    }
}

/// Whether every instruction of the source names plainly.
pub open spec fn plain_source(lines: Seq<Seq<char>>) -> bool {
    forall|k: int|
        0 <= k < lines.len() && command_of(line_words(#[trigger] lines[k])) is Ok ==> names_plainly(
            command_of(line_words(lines[k]))->Ok_0,
        )
}

/// Whether the enclosing function has a plain name.
pub open spec fn plain_context(ctx: ContextModel) -> bool {
    plain(ctx.function)
}

/// Whether every label that `code` defines is plainly named.
pub open spec fn plainly_labelled(code: Code) -> bool {
    forall|k: int|
        0 <= k < code.len() && (#[trigger] code[k]) is Label ==> plainly_named(code[k]->Label_0)
}

/// Whether the line `line` stands at `k` in `text`.
pub open spec fn line_at(text: Seq<Seq<char>>, line: Seq<char>, k: int) -> bool {
    0 <= k < text.len() && text[k] == line
}

/// Whether `text` holds the line `line` once and no more.
pub open spec fn line_once(text: Seq<Seq<char>>, line: Seq<char>) -> bool {
    exists|j: int|
        #[trigger] line_at(text, line, j) && forall|k: int|
            #[trigger] line_at(text, line, k) ==> k == j
}

/// The top level has a plain name.
proof fn lemma_top_level_plain(unit: Seq<char>)
    ensures
        plain_context(initial_context(unit)),
{
    reveal_strlit("undefined");
    let name = top_level();
    assert(name.len() == 9);
    assert forall|i: int| 0 <= i < name.len() implies #[trigger] name[i] != ':' by {
        assert(name[0] != ':' && name[1] != ':' && name[2] != ':' && name[3] != ':' && name[4]
            != ':' && name[5] != ':' && name[6] != ':' && name[7] != ':' && name[8] != ':');
    }
}

/// Two pieces of plainly labelled code in a row are plainly labelled.
proof fn lemma_plainly_labelled_concat(a: Code, b: Code)
    requires
        plainly_labelled(a),
        plainly_labelled(b),
    ensures
        plainly_labelled(a + b),
{
    assert forall|k: int| 0 <= k < (a + b).len() && (#[trigger] (a + b)[k]) is Label implies
        plainly_named((a + b)[k]->Label_0) by {
        if k < a.len() {
            assert((a + b)[k] == a[k]);
        } else {
            assert((a + b)[k] == b[k - a.len()]);
        }
    }
}

/// Code without labels is plainly labelled.
proof fn lemma_loads_plainly(code: Code, t: SymbolModel)
    requires
        loads_only(code, t),
    ensures
        plainly_labelled(code),
{
    assert forall|k: int| 0 <= k < code.len() && (#[trigger] code[k]) is Label implies
        plainly_named(code[k]->Label_0) by {}
}

/// The code of an instruction that names plainly, in a function with a
/// plain name, is plainly labelled, and the function that encloses what
/// follows has a plain name.
proof fn lemma_command_plainly_labelled(command: CommandModel, ctx: ContextModel)
    requires
        names_plainly(command),
        plain_context(ctx),
    ensures
        plainly_labelled(command_code(command, ctx)),
        plain_context(next_context(command, ctx)),
{
    let id = (ctx.minted + 1) as u64;
    match command {
        CommandModel::Call { name, args } => {
            let back = return_label(ctx.function, id);
            lemma_frame_loads(back, args);
            lemma_loads_plainly(frame_code(back, args), back);
            let tail = call_code(name, args, ctx.function, id).skip(40);
            assert(plainly_labelled(tail));
            assert(call_code(name, args, ctx.function, id) =~= frame_code(back, args) + tail);
            lemma_plainly_labelled_concat(frame_code(back, args), tail);
        },
        CommandModel::Return => {
            lemma_unwind_loads(SymbolModel::Sp);
            lemma_loads_plainly(unwind_code(), SymbolModel::Sp);
            let tail = return_code().skip(unwind_code().len() as int);
            assert(plainly_labelled(tail));
            assert(return_code() =~= unwind_code() + tail);
            lemma_plainly_labelled_concat(unwind_code(), tail);
        },
        _ => {},
    }
}

/// The prologue is plainly labelled.
proof fn lemma_bootstrap_plainly_labelled()
    ensures
        plainly_labelled(bootstrap_code()),
{
    lemma_top_level_plain(Seq::empty());
    let back = return_label(top_level(), 0);
    let head = bootstrap_code().take(4);
    let tail = bootstrap_code().skip(44);
    lemma_frame_loads(back, 0);
    lemma_loads_plainly(frame_code(back, 0), back);
    assert(plainly_labelled(head));
    assert(plainly_labelled(tail));
    lemma_plainly_labelled_concat(head, frame_code(back, 0));
    lemma_plainly_labelled_concat(head + frame_code(back, 0), tail);
    assert(bootstrap_code() =~= head + frame_code(back, 0) + tail);
}

/// The code of a source that names plainly is plainly labelled.
proof fn lemma_program_plainly_labelled(lines: Seq<Seq<char>>, unit: Seq<char>)
    requires
        plain_source(lines),
        program_from(lines, unit) is Ok,
    ensures
        plainly_labelled(program_from(lines, unit)->Ok_0.0),
        plain_context(program_from(lines, unit)->Ok_0.1),
    decreases lines.len(),
{
    if lines.len() == 0 {
        lemma_bootstrap_plainly_labelled();
        lemma_top_level_plain(unit);
    } else {
        let last = lines.len() - 1;
        let before = lines.drop_last();
        assert forall|k: int|
            0 <= k < before.len() && command_of(line_words(#[trigger] before[k])) is Ok implies
            names_plainly(command_of(line_words(before[k]))->Ok_0) by {
            assert(before[k] == lines[k]);
        }
        lemma_program_plainly_labelled(before, unit);
        let (code, ctx) = program_from(before, unit)->Ok_0;
        let (more, next) = line_code(lines[last], last as u64, ctx)->Ok_0;
        let words = line_words(lines[last]);
        if words.len() == 0 {
            assert(code + more =~= code);
        } else {
            let command = command_of(words)->Ok_0;
            lemma_command_plainly_labelled(command, ctx);
            let note = seq![more[0]];
            assert(plainly_labelled(note));
            assert(more =~= note + command_code(command, ctx));
            lemma_plainly_labelled_concat(note, command_code(command, ctx));
            lemma_plainly_labelled_concat(code, more);
        }
    }
}

/// A computation is not written with a bracket at its start.
proof fn lemma_compute_text(dest: Dest, comp: Comp)
    ensures
        (dest_text(dest) + comp_text(comp)).len() > 0,
        (dest_text(dest) + comp_text(comp))[0] != '(',
{
    reveal_strlit("");
    reveal_strlit("M=");
    reveal_strlit("D=");
    reveal_strlit("MD=");
    reveal_strlit("A=");
    reveal_strlit("AM=");
    reveal_strlit("AD=");
    reveal_strlit("AMD=");
    reveal_strlit("0");
    reveal_strlit("1");
    reveal_strlit("-1");
    reveal_strlit("D");
    reveal_strlit("A");
    reveal_strlit("M");
    reveal_strlit("!D");
    reveal_strlit("!A");
    reveal_strlit("!M");
    reveal_strlit("-D");
    reveal_strlit("-A");
    reveal_strlit("-M");
    reveal_strlit("D+1");
    reveal_strlit("A+1");
    reveal_strlit("M+1");
    reveal_strlit("D-1");
    reveal_strlit("A-1");
    reveal_strlit("M-1");
    reveal_strlit("D+A");
    reveal_strlit("D+M");
    reveal_strlit("D-A");
    reveal_strlit("D-M");
    reveal_strlit("A-D");
    reveal_strlit("M-D");
    reveal_strlit("D&A");
    reveal_strlit("D&M");
    reveal_strlit("D|A");
    reveal_strlit("D|M");
    let d = dest_text(dest);
    let c = comp_text(comp);
    assert(c.len() > 0);
    if d.len() > 0 {
        assert((d + c)[0] == d[0]);
    } else {
        assert((d + c)[0] == c[0]);
    }
}

/// A line of target code starts with a bracket where it defines a label,
/// and nowhere else.
pub proof fn lemma_bracket_opens_label(i: InstrModel)
    ensures
        instr_text(i).len() > 0,
        instr_text(i)[0] == '(' <==> i is Label,
{
    reveal_strlit("@");
    reveal_strlit("(");
    reveal_strlit("// line ");
    reveal_strlit("!!! unimplemented segment: ");
    reveal_strlit("!!! unsupported instruction type: ");
    match i {
        InstrModel::Compute { dest, comp, jump } => {
            lemma_compute_text(dest, comp);
            assert(instr_text(i)[0] == (dest_text(dest) + comp_text(comp))[0]);
        },
        _ => {},
    }
}

/// A line that is written as the definition of a plainly named label is the
/// definition of that label, if the label it defines is plainly named too.
pub proof fn lemma_label_line(i: InstrModel, s: SymbolModel)
    requires
        instr_text(i) == instr_text(label(s)),
        plainly_named(s),
        i is Label ==> plainly_named(i->Label_0),
    ensures
        i == label(s),
{
    lemma_bracket_opens_label(i);
    lemma_bracket_opens_label(label(s));
    reveal_strlit("(");
    reveal_strlit(")");
    let t = i->Label_0;
    let line = instr_text(i);
    assert(line.subrange(1, line.len() - 1) =~= symbol_text(t));
    assert(line.subrange(1, line.len() - 1) =~= symbol_text(s));
    lemma_label_texts_differ(t, s);
}

/// In the text of a program whose source names plainly, every label of the
/// translator's own that the program refers to is defined by one line and no
/// more.
pub proof fn lemma_label_lines_once(lines: Seq<Seq<char>>, unit: Seq<char>, s: SymbolModel)
    requires
        lines.len() <= usize::MAX,
        plain_source(lines),
        program_code(lines, unit) is Ok,
        is_internal(s),
        referenced(program_code(lines, unit)->Ok_0, s),
    ensures
        line_once(code_text(program_code(lines, unit)->Ok_0), instr_text(label(s))),
{
    let code = program_code(lines, unit)->Ok_0;
    let text = code_text(code);
    let line = instr_text(label(s));
    lemma_program_consistent(lines, unit);
    lemma_program_plainly_labelled(lines, unit);
    assert(defined_once(code, s));
    let j = choose|j: int|
        #[trigger] defined_at(code, s, j) && forall|k: int|
            #[trigger] defined_at(code, s, k) ==> k == j;
    assert(plainly_named(code[j]->Label_0));
    assert(line_at(text, line, j));
    assert forall|k: int| #[trigger] line_at(text, line, k) implies k == j by {
        assert(text[k] == instr_text(code[k]));
        lemma_label_line(code[k], s);
        assert(defined_at(code, s, k));
    }
}

} // verus!
