//! The translator proper: from an instruction to its code, and from a line
//! to the code of its instruction.
//!
//! An instruction's code depends on the instructions before it through the
//! context alone.
use crate::arith::{binary_code, binary_op, cmp_op, comparison_code, unary_code, unary_op};
use crate::call::{call_code, call_op, function_code, function_op, return_code, return_op};
use crate::command::{command_of, line_words, split_line, Command, CommandModel, SyntaxError};
use crate::context::{Context, ContextModel};
use crate::flow::{goto_code, goto_op, if_goto_code, if_goto_op, label_code, label_op};
use crate::segment::{pop_code, pop_op, push_code, push_op};
use crate::target::{emit, Code, Construct, Instr, InstrModel};
use vstd::prelude::*;

verus! {

/// Whether the code of an instruction holds labels of the translator's own,
/// and so takes a new number: a comparison, a call, and the head of a function
/// that has locals to clear.
pub open spec fn mints(command: CommandModel) -> bool {
    match command {
        CommandModel::Compare(_) => true,
        CommandModel::Call { .. } => true,
        CommandModel::Function { locals, .. } => locals > 0,
        _ => false,
    }
}

/// The line that stands for an instruction that the machine does not have.
pub open spec fn unknown_code(mnemonic: Seq<char>) -> Code {
    seq![InstrModel::Unsupported { what: Construct::Instruction, name: mnemonic }]
}

/// The code of an instruction in a context. Labels of the source carry the
/// name of the enclosing function, and so do the translator's own but for
/// those at the head of a function, which carry that function's name; static
/// variables carry the name of the unit. Where the code takes a number, it
/// is the one after the last that was given.
pub open spec fn command_code(command: CommandModel, ctx: ContextModel) -> Code {
    let id = (ctx.minted + 1) as u64;
    match command {
        CommandModel::Binary(op) => binary_code(op),
        CommandModel::Unary(op) => unary_code(op),
        CommandModel::Compare(relation) => comparison_code(relation, ctx.function, id),
        CommandModel::Push { segment, index } => push_code(segment, index, ctx.unit),
        CommandModel::Pop { segment, index } => pop_code(segment, index, ctx.unit),
        CommandModel::Label { name } => label_code(name, ctx.function),
        CommandModel::Goto { name } => goto_code(name, ctx.function),
        CommandModel::IfGoto { name } => if_goto_code(name, ctx.function),
        CommandModel::Function { name, locals } => function_code(name, locals, id),
        CommandModel::Call { name, args } => call_code(name, args, ctx.function, id),
        CommandModel::Return => return_code(),
        CommandModel::Unknown { mnemonic } => unknown_code(mnemonic),
    }
}

/// The context after an instruction: a function's head makes that function
/// the enclosing one, and a number that was given is not given again.
pub open spec fn next_context(command: CommandModel, ctx: ContextModel) -> ContextModel {
    ContextModel {
        unit: ctx.unit,
        function: match command {
            CommandModel::Function { name, .. } => name,
            _ => ctx.function,
        },
        minted: if mints(command) {
            ctx.minted + 1
        } else {
            ctx.minted
        },
    }
}

/// The code of a row of instructions from a context on, and the context
/// after them.
pub open spec fn commands_code(commands: Seq<CommandModel>, ctx: ContextModel) -> (
    Code,
    ContextModel,
)
    decreases commands.len(),
{
    if commands.len() == 0 {
        (Seq::empty(), ctx)
    } else {
        let (code, mid) = commands_code(commands.drop_last(), ctx);
        (code + command_code(commands.last(), mid), next_context(commands.last(), mid))
    }
}

/// What a source line gives: no code for a line without words; else a note
/// of the line and the code of its instruction, with the context that
/// follows; or the reason why the line is no instruction.
pub open spec fn line_code(line: Seq<char>, number: u64, ctx: ContextModel) -> Result<
    (Code, ContextModel),
    SyntaxError,
> {
    let words = line_words(line);
    if words.len() == 0 {
        Ok((Seq::empty(), ctx))
    } else {
        match command_of(words) {
            Ok(command) => Ok(
                (
                    seq![InstrModel::Note { line: number, words }] + command_code(command, ctx),
                    next_context(command, ctx),
                ),
            ),
            Err(error) => Err(error),
        }
    }
}

/// Translates one instruction and moves the context on.
pub fn translate(command: &Command, ctx: &mut Context) -> (code: Vec<Instr>)
    requires
        mints(command@) ==> old(ctx)@.minted < u64::MAX,
    ensures
        code.deep_view() == command_code(command@, old(ctx)@),
        final(ctx)@ == next_context(command@, old(ctx)@),
{
    match command {
        Command::Binary(op) => binary_op(*op),
        Command::Unary(op) => unary_op(*op),
        Command::Compare(relation) => {
            let id = ctx.mint();
            cmp_op(*relation, ctx.function(), id)
        },
        Command::Push { segment, index } => push_op(segment.as_str(), *index, ctx.unit()),
        Command::Pop { segment, index } => pop_op(segment.as_str(), *index, ctx.unit()),
        Command::Label { name } => label_op(name.as_str(), ctx.function()),
        Command::Goto { name } => goto_op(name.as_str(), ctx.function()),
        Command::IfGoto { name } => if_goto_op(name.as_str(), ctx.function()),
        Command::Function { name, locals } => {
            ctx.enter(name.as_str());
            let id = if *locals > 0 {
                ctx.mint()
            } else {
                0
            };
            function_op(name.as_str(), *locals, id)
        },
        Command::Call { name, args } => {
            let id = ctx.mint();
            call_op(name.as_str(), *args, ctx.function(), id)
        },
        Command::Return => return_op(),
        Command::Unknown { mnemonic } => {
            let code = vec![
                Instr::Unsupported { what: Construct::Instruction, name: mnemonic.clone() },
            ];
            assert(code.deep_view() =~= unknown_code(mnemonic@));
            code
        },
    }
}

/// Translates one source line and moves the context on. A line that is no
/// instruction leaves the context as it was.
pub fn process_line(line: &str, number: usize, ctx: &mut Context) -> (r: Result<
    Vec<Instr>,
    SyntaxError,
>)
    requires
        old(ctx)@.minted < u64::MAX,
    ensures
        match line_code(line@, number as u64, old(ctx)@) {
            Ok((code, next)) => r.is_ok() && r.unwrap().deep_view() == code && final(ctx)@ == next,
            Err(error) => r == Err::<Vec<Instr>, SyntaxError>(error) && final(ctx)@ == old(ctx)@,
        },
{
    let words = split_line(line);
    if words.len() == 0 {
        let code: Vec<Instr> = Vec::new();
        assert(code.deep_view() =~= Seq::<InstrModel>::empty());
        return Ok(code);
    }
    match Command::parse(&words) {
        Ok(command) => {
            let mut code = vec![Instr::Note { line: number as u64, words }];
            assert(code.deep_view() =~= seq![
                InstrModel::Note { line: number as u64, words: line_words(line@) },
            ]);
            emit(&mut code, translate(&command, ctx));
            Ok(code)
        },
        Err(error) => Err(error),
    }
}

} // verus!
