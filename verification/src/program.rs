//! The translation of a whole unit: the prologue, and after it the code of
//! each line in the order of the source.
use crate::bootstrap::{bootstrap, bootstrap_code, idle_code, origin_code};
use crate::call::{call_code, return_label};
use crate::command::{command_of, line_words, SyntaxError};
use crate::context::{initial_context, top_level, Context, ContextModel};
use crate::labels::{
    defined_at, defined_once, is_internal, lemma_call_labels, lemma_minting_code, lemma_plain_code,
    names, referenced, undefined_in,
};
use crate::target::{at, code_text, emit, label, print_code, Code, Instr, SymbolModel};
use crate::translate::{command_code, line_code, mints, process_line};
use vstd::prelude::*;

verus! {

/// Why a program is not translated, and at which of its lines, counted from 0.
#[derive(Clone, Copy, Debug, PartialEq, Eq, Structural)]
pub struct TranslateError {
    pub line: usize,
    pub error: SyntaxError,
}

/// What the lines of a unit give, the prologue first: the code of all of
/// them in their order, or the first line that is no instruction. Lines are
/// counted from 0.
pub open spec fn program_from(lines: Seq<Seq<char>>, unit: Seq<char>) -> Result<
    (Code, ContextModel),
    TranslateError,
>
    decreases lines.len(),
{
    if lines.len() == 0 {
        Ok((bootstrap_code(), initial_context(unit)))
    } else {
        let last = lines.len() - 1;
        match program_from(lines.drop_last(), unit) {
            Ok((code, ctx)) => match line_code(lines[last], last as u64, ctx) {
                Ok((more, next)) => Ok((code + more, next)),
                Err(error) => Err(TranslateError { line: last as usize, error }),
            },
            Err(error) => Err(error),
        }
    }
}

/// The target code of a program.
pub open spec fn program_code(lines: Seq<Seq<char>>, unit: Seq<char>) -> Result<
    Code,
    TranslateError,
> {
    match program_from(lines, unit) {
        Ok((code, _)) => Ok(code),
        Err(error) => Err(error),
    }
}

/// The target text of a program, a line for each instruction.
pub open spec fn program_text(lines: Seq<Seq<char>>, unit: Seq<char>) -> Result<
    Seq<Seq<char>>,
    TranslateError,
> {
    match program_code(lines, unit) {
        Ok(code) => Ok(code_text(code)),
        Err(error) => Err(error),
    }
}

/// The first line that is no instruction ends the translation: what the
/// lines up to it give, all the lines give.
pub proof fn lemma_error_stays(lines: Seq<Seq<char>>, unit: Seq<char>, k: int)
    requires
        0 <= k <= lines.len(),
        program_from(lines.take(k), unit) is Err,
    ensures
        program_from(lines, unit) == program_from(lines.take(k), unit),
    decreases lines.len() - k,
{
    if k < lines.len() {
        assert(lines.take(k + 1).drop_last() =~= lines.take(k));
        lemma_error_stays(lines, unit, k + 1);
    } else {
        assert(lines.take(k) =~= lines);
    }
}

/// Translates the lines of a unit to target code, the prologue first.
pub fn translate_program(lines: &Vec<String>, unit: &str) -> (r: Result<
    Vec<Instr>,
    TranslateError,
>)
    ensures
        match program_code(lines.deep_view(), unit@) {
            Ok(code) => r.is_ok() && r.unwrap().deep_view() == code,
            Err(error) => r == Err::<Vec<Instr>, TranslateError>(error),
        },
{
    let mut ctx = Context::new(unit);
    let mut code = bootstrap();
    let mut i: usize = 0;
    assert(lines.deep_view().take(0) =~= Seq::<Seq<char>>::empty());
    while i < lines.len()
        invariant
            i <= lines.len(),
            ctx@.minted <= i,
            program_from(lines.deep_view().take(i as int), unit@) == Ok::<
                (Code, ContextModel),
                TranslateError,
            >((code.deep_view(), ctx@)),
        decreases lines.len() - i,
    {
        proof {
            let next = lines.deep_view().take(i + 1);
            assert(next.drop_last() =~= lines.deep_view().take(i as int));
            assert(next[i as int] == lines@[i as int]@);
        }
        match process_line(lines[i].as_str(), i, &mut ctx) {
            Ok(more) => {
                emit(&mut code, more);
            },
            Err(error) => {
                proof {
                    lemma_error_stays(lines.deep_view(), unit@, i + 1);
                }
                return Err(TranslateError { line: i, error });
            },
        }
        i = i + 1;
    }
    assert(lines.deep_view().take(i as int) =~= lines.deep_view());
    Ok(code)
}

/// Translates the lines of a unit to target text. The text is a function of
/// the lines and of the unit's name and of nothing else: the same source
/// gives the same text, character for character.
pub fn translate_unit(lines: &Vec<String>, unit: &str) -> (r: Result<Vec<String>, TranslateError>)
    ensures
        match program_text(lines.deep_view(), unit@) {
            Ok(text) => r.is_ok() && r.unwrap().deep_view() == text,
            Err(error) => r == Err::<Vec<String>, TranslateError>(error),
        },
{
    match translate_program(lines, unit) {
        Ok(code) => Ok(print_code(&code)),
        Err(error) => Err(error),
    }
}

/// A label that is defined once in a piece of code, and not in the code
/// that follows it, is defined once in the two.
pub proof fn lemma_defined_once_left(a: Code, b: Code, s: SymbolModel)
    requires
        defined_once(a, s),
        undefined_in(b, s),
    ensures
        defined_once(a + b, s),
{
    let j = choose|j: int|
        #[trigger] defined_at(a, s, j) && forall|k: int| #[trigger] defined_at(a, s, k) ==> k == j;
    assert(defined_at(a + b, s, j));
    assert forall|k: int| #[trigger] defined_at(a + b, s, k) implies k == j by {
        if k < a.len() {
            assert(defined_at(a, s, k));
        } else {
            assert(defined_at(b, s, k - a.len()));
        }
    }
}

/// A label that is defined once in a piece of code, and not in the code
/// before it, is defined once in the two.
pub proof fn lemma_defined_once_right(a: Code, b: Code, s: SymbolModel)
    requires
        undefined_in(a, s),
        defined_once(b, s),
    ensures
        defined_once(a + b, s),
{
    let j = choose|j: int|
        #[trigger] defined_at(b, s, j) && forall|k: int| #[trigger] defined_at(b, s, k) ==> k == j;
    assert(defined_at(a + b, s, a.len() + j));
    assert forall|k: int| #[trigger] defined_at(a + b, s, k) implies k == a.len() + j by {
        if k < a.len() {
            assert(defined_at(a, s, k));
        } else {
            assert(defined_at(b, s, k - a.len()));
        }
    }
}

/// What holds of the code of the first lines of a program, whatever the
/// lines: it starts with the prologue; past the prologue nothing names the
/// idle loop; no label carries a number that is still to be given; and each
/// label of the translator's own that is referred to is defined once.
pub open spec fn consistent(code: Code, ctx: ContextModel) -> bool {
    &&& bootstrap_code().len() <= code.len()
    &&& code.take(bootstrap_code().len() as int) == bootstrap_code()
    &&& forall|k: int, s: SymbolModel|
        bootstrap_code().len() <= k < code.len() && #[trigger] names(code[k], s) ==> !(s is Idle)
    &&& forall|k: int, s: SymbolModel|
        0 <= k < code.len() && #[trigger] names(code[k], s) && s is Minted ==> s->id <= ctx.minted
    &&& forall|s: SymbolModel|
        is_internal(s) && #[trigger] referenced(code, s) ==> defined_once(code, s)
}

/// The prologue is consistent.
proof fn lemma_bootstrap_consistent(unit: Seq<char>)
    ensures
        consistent(bootstrap_code(), initial_context(unit)),
        bootstrap_code().len() == 50,
        bootstrap_code()[47] == label(SymbolModel::Idle),
{
    let back = return_label(top_level(), 0);
    let call = call_code(crate::bootstrap::entry_point(), 0, top_level(), 0);
    let code = bootstrap_code();
    lemma_call_labels(crate::bootstrap::entry_point(), 0, top_level(), 0);
    crate::labels::lemma_frame_loads(back, 0);
    assert(call.len() == 43);
    assert(code.len() == 50);
    assert(code.take(50) =~= code);
    assert forall|k: int| 0 <= k < 50 implies #[trigger] code[k] == (if k < 4 {
        origin_code()[k]
    } else if k < 47 {
        call[k - 4]
    } else {
        idle_code()[k - 47]
    }) by {}
    assert forall|k: int, s: SymbolModel|
        0 <= k < code.len() && #[trigger] names(code[k], s) && s is Minted implies s->id == 0 by {
        if 4 <= k < 47 {
            assert(names(call[k - 4], s));
        }
    }
    assert forall|s: SymbolModel| is_internal(s) && #[trigger] referenced(code, s) implies
        defined_once(code, s) by {
        let r = choose|k: int| 0 <= k < code.len() && #[trigger] code[k] == at(s);
        if s is Idle {
            assert(defined_at(code, s, 47));
            assert forall|k: int| #[trigger] defined_at(code, s, k) implies k == 47 by {
                if 4 <= k < 47 {
                    assert(names(call[k - 4], s));
                }
            }
        } else {
            assert(4 <= r < 47);
            assert(call[r - 4] == at(s));
            assert(referenced(call, s));
            assert(undefined_in(origin_code(), s));
            lemma_defined_once_right(origin_code(), call, s);
            assert(undefined_in(idle_code(), s));
            lemma_defined_once_left(origin_code() + call, idle_code(), s);
        }
    }
}

/// The code of one more line keeps a program's code consistent.
proof fn lemma_line_consistent(code: Code, ctx: ContextModel, line: Seq<char>, number: u64)
    requires
        consistent(code, ctx),
        ctx.minted < u64::MAX,
        line_code(line, number, ctx) is Ok,
    ensures
        consistent(
            code + line_code(line, number, ctx)->Ok_0.0,
            line_code(line, number, ctx)->Ok_0.1,
        ),
        line_code(line, number, ctx)->Ok_0.1.minted <= ctx.minted + 1,
{
    let (more, next) = line_code(line, number, ctx)->Ok_0;
    let all = code + more;
    let n = bootstrap_code().len() as int;
    assert(all.take(n) =~= code.take(n));
    let words = line_words(line);
    if words.len() == 0 {
        assert(all =~= code);
    } else {
        let command = command_of(words)->Ok_0;
        let chunk = command_code(command, ctx);
        let id = (ctx.minted + 1) as u64;
        assert(more.len() == chunk.len() + 1);
        assert(!(more[0] is At) && !(more[0] is Label));
        assert forall|k: int| 1 <= k < more.len() implies #[trigger] more[k] == chunk[k - 1] by {}
        if mints(command) {
            lemma_minting_code(command, ctx);
        } else {
            lemma_plain_code(command, ctx);
        }
        // What the new code names is internal only where the line takes a number.
        assert forall|k: int, s: SymbolModel|
            0 <= k < more.len() && #[trigger] names(more[k], s) && is_internal(s) implies mints(
            command,
        ) && s is Minted && s->id == id by {
            assert(k >= 1);
            assert(names(chunk[k - 1], s));
        }
        assert forall|k: int, s: SymbolModel|
            n <= k < all.len() && #[trigger] names(all[k], s) implies !(s is Idle) by {
            if k >= code.len() {
                assert(names(more[k - code.len()], s));
            }
        }
        assert forall|k: int, s: SymbolModel|
            0 <= k < all.len() && #[trigger] names(all[k], s) && s is Minted implies s->id
            <= next.minted by {
            if k >= code.len() {
                assert(names(more[k - code.len()], s));
            }
        }
        assert forall|s: SymbolModel| is_internal(s) && #[trigger] referenced(all, s) implies
            defined_once(all, s) by {
            let r = choose|k: int| 0 <= k < all.len() && #[trigger] all[k] == at(s);
            if r < code.len() {
                assert(code[r] == at(s));
                assert(referenced(code, s));
                assert(names(code[r], s));
                assert forall|k: int| !#[trigger] defined_at(more, s, k) by {
                    if defined_at(more, s, k) {
                        assert(names(more[k], s));
                    }
                }
                lemma_defined_once_left(code, more, s);
            } else {
                let q = r - code.len();
                assert(more[q] == at(s));
                assert(names(more[q], s));
                assert(chunk[q - 1] == at(s));
                assert(referenced(chunk, s));
                assert(defined_once(chunk, s));
                assert forall|k: int| !#[trigger] defined_at(code, s, k) by {
                    if defined_at(code, s, k) {
                        assert(names(code[k], s));
                    }
                }
                let note = seq![more[0]];
                assert(more =~= note + chunk);
                assert(undefined_in(note, s));
                lemma_defined_once_right(note, chunk, s);
                lemma_defined_once_right(code, more, s);
            }
        }
    }
}

/// The code of a program is consistent, and no more numbers have been given
/// than the program has lines.
pub proof fn lemma_program_consistent(lines: Seq<Seq<char>>, unit: Seq<char>)
    requires
        lines.len() <= u64::MAX,
        program_from(lines, unit) is Ok,
    ensures
        consistent(program_from(lines, unit)->Ok_0.0, program_from(lines, unit)->Ok_0.1),
        program_from(lines, unit)->Ok_0.1.minted <= lines.len(),
    decreases lines.len(),
{
    if lines.len() == 0 {
        lemma_bootstrap_consistent(unit);
    } else {
        let last = lines.len() - 1;
        lemma_program_consistent(lines.drop_last(), unit);
        let (code, ctx) = program_from(lines.drop_last(), unit)->Ok_0;
        lemma_line_consistent(code, ctx, lines[last], last as u64);
    }
}

/// Every label of the translator's own that the code of a program refers
/// to, be it a numbered one or the idle loop, is defined in that code once
/// and no more.
pub proof fn lemma_labels_defined_once(lines: Seq<Seq<char>>, unit: Seq<char>, s: SymbolModel)
    requires
        lines.len() <= usize::MAX,
        program_code(lines, unit) is Ok,
        is_internal(s),
        referenced(program_code(lines, unit)->Ok_0, s),
    ensures
        defined_once(program_code(lines, unit)->Ok_0, s),
{
    lemma_program_consistent(lines, unit);
}

/// The code of a program starts with the prologue, and the prologue stands
/// nowhere else in it.
pub proof fn lemma_bootstrap_once(lines: Seq<Seq<char>>, unit: Seq<char>, k: int)
    requires
        lines.len() <= usize::MAX,
        program_code(lines, unit) is Ok,
        0 <= k,
        k + bootstrap_code().len() <= program_code(lines, unit)->Ok_0.len(),
    ensures
        (program_code(lines, unit)->Ok_0.subrange(k, k + bootstrap_code().len())
            == bootstrap_code()) <==> k == 0,
{
    let code = program_code(lines, unit)->Ok_0;
    let n = bootstrap_code().len() as int;
    lemma_program_consistent(lines, unit);
    lemma_bootstrap_consistent(unit);
    if k == 0 {
        assert(code.subrange(0, n) =~= code.take(n));
    } else if code.subrange(k, k + n) == bootstrap_code() {
        let idle = SymbolModel::Idle;
        assert(code.subrange(k, k + n)[47] == code[k + 47]);
        assert(names(code[k + 47], idle));
        if k + 47 < n {
            assert(code.take(n)[k + 47] == code[k + 47]);
            assert(bootstrap_code()[48] == at(idle));
            assert(bootstrap_code()[49] is Compute);
        }
    }
}

} // verus!
