//! The target machine's assembly: its instructions as records, and the text
//! of each.
//!
//! The machine has an address register `A`, a data register `D` and a memory;
//! `M` names the cell that `A` addresses. An instruction either loads `A`
//! with the address of a symbol, or computes a value from the registers and
//! stores it, with or without a jump to the instruction that `A` addresses.
use crate::text::{decimal, decimal_text, joined};
use vstd::prelude::*;

verus! {

/// Where a computed value is stored.
#[derive(Clone, Copy, Debug, PartialEq, Eq, Structural)]
pub enum Dest {
    Null,
    M,
    D,
    MD,
    A,
    AM,
    AD,
    AMD,
}

/// What an instruction computes.
#[derive(Clone, Copy, Debug, PartialEq, Eq, Structural)]
pub enum Comp {
    Zero,
    One,
    MinusOne,
    D,
    A,
    M,
    NotD,
    NotA,
    NotM,
    NegD,
    NegA,
    NegM,
    DPlusOne,
    APlusOne,
    MPlusOne,
    DMinusOne,
    AMinusOne,
    MMinusOne,
    DPlusA,
    DPlusM,
    DMinusA,
    DMinusM,
    AMinusD,
    MMinusD,
    DAndA,
    DAndM,
    DOrA,
    DOrM,
}

/// When an instruction jumps, by the sign of the value it computed.
#[derive(Clone, Copy, Debug, PartialEq, Eq, Structural)]
pub enum Jump {
    Never,
    Jgt,
    Jeq,
    Jge,
    Jlt,
    Jne,
    Jle,
    Jmp,
}

/// The places in a function's code that the translator labels on its own.
#[derive(Clone, Copy, Debug, PartialEq, Eq, Structural)]
pub enum Mark {
    /// Where a comparison that holds goes on.
    IfTrue,
    /// Where a call comes back to.
    Return,
    /// The head of the loop that clears a function's local slots.
    LocalsTop,
    /// The exit of that loop.
    LocalsDone,
}

/// What the translator could not make sense of, and flags in its output.
#[derive(Clone, Copy, Debug, PartialEq, Eq, Structural)]
pub enum Construct {
    Segment,
    Instruction,
}

/// A name that stands for an address.
#[derive(Clone, Debug, PartialEq, Eq)]
pub enum Symbol {
    /// The cell that holds the stack pointer.
    Sp,
    /// The cells that hold the bases of the four virtual segments.
    Lcl,
    Arg,
    This,
    That,
    /// A number: an address the translator fixed, or a constant.
    Value(u32),
    /// A static variable of a translation unit.
    Static { unit: String, index: u16 },
    /// The entry of a function.
    Entry { function: String },
    /// A label of the source program, within the function that declares it.
    Scoped { function: String, label: String },
    /// A place the translator marked; `id` tells two such places apart.
    Minted { function: String, mark: Mark, id: u64 },
    /// The loop that the program idles in once its entry function has returned.
    Idle,
}

/// A symbol as a value of the specification: names are rows of characters.
pub enum SymbolModel {
    Sp,
    Lcl,
    Arg,
    This,
    That,
    Value(u32),
    Static { unit: Seq<char>, index: u16 },
    Entry { function: Seq<char> },
    Scoped { function: Seq<char>, label: Seq<char> },
    Minted { function: Seq<char>, mark: Mark, id: u64 },
    Idle,
}

impl View for Symbol {
    type V = SymbolModel;

    open spec fn view(&self) -> SymbolModel {
        match self {
            Symbol::Sp => SymbolModel::Sp,
            Symbol::Lcl => SymbolModel::Lcl,
            Symbol::Arg => SymbolModel::Arg,
            Symbol::This => SymbolModel::This,
            Symbol::That => SymbolModel::That,
            Symbol::Value(n) => SymbolModel::Value(*n),
            Symbol::Static { unit, index } => SymbolModel::Static { unit: unit@, index: *index },
            Symbol::Entry { function } => SymbolModel::Entry { function: function@ },
            Symbol::Scoped { function, label } => SymbolModel::Scoped {
                function: function@,
                label: label@,
            },
            Symbol::Minted { function, mark, id } => SymbolModel::Minted {
                function: function@,
                mark: *mark,
                id: *id,
            },
            Symbol::Idle => SymbolModel::Idle,
        }
    }
}

/// One line of target code.
#[derive(Clone, Debug, PartialEq, Eq)]
pub enum Instr {
    /// Loads `A` with the address of a symbol.
    At(Symbol),
    /// Computes `comp`, stores it in `dest`, and jumps as `jump` says.
    Compute { dest: Dest, comp: Comp, jump: Jump },
    /// Names the instruction that follows.
    Label(Symbol),
    /// Stands where a source instruction could not be translated.
    Unsupported { what: Construct, name: String },
    /// Tells which source line the code that follows was made from.
    Note { line: u64, words: Vec<String> },
}

/// A line of target code as a value of the specification.
pub enum InstrModel {
    At(SymbolModel),
    Compute { dest: Dest, comp: Comp, jump: Jump },
    Label(SymbolModel),
    Unsupported { what: Construct, name: Seq<char> },
    Note { line: u64, words: Seq<Seq<char>> },
}

impl View for Instr {
    type V = InstrModel;

    open spec fn view(&self) -> InstrModel {
        match self {
            Instr::At(s) => InstrModel::At(s@),
            Instr::Compute { dest, comp, jump } => InstrModel::Compute {
                dest: *dest,
                comp: *comp,
                jump: *jump,
            },
            Instr::Label(s) => InstrModel::Label(s@),
            Instr::Unsupported { what, name } => InstrModel::Unsupported {
                what: *what,
                name: name@,
            },
            Instr::Note { line, words } => InstrModel::Note {
                line: *line,
                words: words.deep_view(),
            },
        }
    }
}

impl DeepView for Instr {
    type V = InstrModel;

    open spec fn deep_view(&self) -> InstrModel {
        self@
    }
}

/// Target code as the specification sees it.
pub type Code = Seq<InstrModel>;

/// The instruction that loads `A` with the address of `s`.
pub open spec fn at(s: SymbolModel) -> InstrModel {
    InstrModel::At(s)
}

/// The instruction that loads `A` with the number `n`.
pub open spec fn at_value(n: int) -> InstrModel {
    InstrModel::At(SymbolModel::Value(n as u32))
}

/// The instruction that stores `comp` in `dest` and goes on.
pub open spec fn assign(dest: Dest, comp: Comp) -> InstrModel {
    InstrModel::Compute { dest, comp, jump: Jump::Never }
}

/// The instruction that computes `comp` and jumps as `jump` says.
pub open spec fn branch(comp: Comp, jump: Jump) -> InstrModel {
    InstrModel::Compute { dest: Dest::Null, comp, jump }
}

/// The instruction that names what follows it `s`.
pub open spec fn label(s: SymbolModel) -> InstrModel {
    InstrModel::Label(s)
}

/// How a destination is written, with the sign that parts it from the
/// computation.
pub open spec fn dest_text(d: Dest) -> Seq<char> {
    match d {
        Dest::Null => ""@,
        Dest::M => "M="@,
        Dest::D => "D="@,
        Dest::MD => "MD="@,
        Dest::A => "A="@,
        Dest::AM => "AM="@,
        Dest::AD => "AD="@,
        Dest::AMD => "AMD="@,
    }
}

/// How a computation is written.
pub open spec fn comp_text(c: Comp) -> Seq<char> {
    match c {
        Comp::Zero => "0"@,
        Comp::One => "1"@,
        Comp::MinusOne => "-1"@,
        Comp::D => "D"@,
        Comp::A => "A"@,
        Comp::M => "M"@,
        Comp::NotD => "!D"@,
        Comp::NotA => "!A"@,
        Comp::NotM => "!M"@,
        Comp::NegD => "-D"@,
        Comp::NegA => "-A"@,
        Comp::NegM => "-M"@,
        Comp::DPlusOne => "D+1"@,
        Comp::APlusOne => "A+1"@,
        Comp::MPlusOne => "M+1"@,
        Comp::DMinusOne => "D-1"@,
        Comp::AMinusOne => "A-1"@,
        Comp::MMinusOne => "M-1"@,
        Comp::DPlusA => "D+A"@,
        Comp::DPlusM => "D+M"@,
        Comp::DMinusA => "D-A"@,
        Comp::DMinusM => "D-M"@,
        Comp::AMinusD => "A-D"@,
        Comp::MMinusD => "M-D"@,
        Comp::DAndA => "D&A"@,
        Comp::DAndM => "D&M"@,
        Comp::DOrA => "D|A"@,
        Comp::DOrM => "D|M"@,
    }
}

/// How a jump is written, with the sign that parts it from the
/// computation.
pub open spec fn jump_text(j: Jump) -> Seq<char> {
    match j {
        Jump::Never => ""@,
        Jump::Jgt => ";JGT"@,
        Jump::Jeq => ";JEQ"@,
        Jump::Jge => ";JGE"@,
        Jump::Jlt => ";JLT"@,
        Jump::Jne => ";JNE"@,
        Jump::Jle => ";JLE"@,
        Jump::Jmp => ";JMP"@,
    }
}

/// How a mark is written at the start of a numbered label, before the
/// number.
pub open spec fn mark_text(m: Mark) -> Seq<char> {
    match m {
        Mark::IfTrue => "iftrue."@,
        Mark::Return => "return."@,
        Mark::LocalsTop => "local_vars_top."@,
        Mark::LocalsDone => "local_vars_done."@,
    }
}

/// How the line starts that flags what is not supported.
pub open spec fn construct_text(what: Construct) -> Seq<char> {
    match what {
        Construct::Segment => "!!! unimplemented segment: "@,
        Construct::Instruction => "!!! unsupported instruction type: "@,
    }
}

/// How a symbol is written. A label of the source is the only symbol that is
/// written with a colon of the translator's: after its function. An entry
/// starts with `fn.`, a numbered label with its mark and its number, and both
/// end with the function.
pub open spec fn symbol_text(s: SymbolModel) -> Seq<char> {
    match s {
        SymbolModel::Sp => "SP"@,
        SymbolModel::Lcl => "LCL"@,
        SymbolModel::Arg => "ARG"@,
        SymbolModel::This => "THIS"@,
        SymbolModel::That => "THAT"@,
        SymbolModel::Value(n) => decimal_text(n as nat),
        SymbolModel::Static { unit, index } => unit + "."@ + decimal_text(index as nat),
        SymbolModel::Entry { function } => "fn."@ + function,
        SymbolModel::Scoped { function, label } => function + ":"@ + label,
        SymbolModel::Minted { function, mark, id } => mark_text(mark) + decimal_text(id as nat)
            + "."@ + function,
        SymbolModel::Idle => "Sys.init.loop"@,
    }
}

/// The words of a source line in a row, a blank after each.
pub open spec fn spaced(words: Seq<Seq<char>>) -> Seq<char>
    decreases words.len(),
{
    if words.len() == 0 {
        Seq::empty()
    } else {
        spaced(words.drop_last()) + words.last() + " "@
    }
}

/// How a line of target code is written.
pub open spec fn instr_text(i: InstrModel) -> Seq<char> {
    match i {
        InstrModel::At(s) => "@"@ + symbol_text(s),
        InstrModel::Compute { dest, comp, jump } => dest_text(dest) + comp_text(comp) + jump_text(
            jump,
        ),
        InstrModel::Label(s) => "("@ + symbol_text(s) + ")"@,
        InstrModel::Unsupported { what, name } => construct_text(what) + name,
        InstrModel::Note { line, words } => "// line "@ + decimal_text(line as nat) + ": "@
            + spaced(words),
    }
}

/// The text of a piece of target code, a line for each instruction.
pub open spec fn code_text(code: Code) -> Seq<Seq<char>> {
    code.map_values(|i: InstrModel| instr_text(i))
}

fn dest_str(d: Dest) -> (s: &'static str)
    ensures
        s@ == dest_text(d),
{
    match d {
        Dest::Null => "",
        Dest::M => "M=",
        Dest::D => "D=",
        Dest::MD => "MD=",
        Dest::A => "A=",
        Dest::AM => "AM=",
        Dest::AD => "AD=",
        Dest::AMD => "AMD=",
    }
}

fn comp_str(c: Comp) -> (s: &'static str)
    ensures
        s@ == comp_text(c),
{
    match c {
        Comp::Zero => "0",
        Comp::One => "1",
        Comp::MinusOne => "-1",
        Comp::D => "D",
        Comp::A => "A",
        Comp::M => "M",
        Comp::NotD => "!D",
        Comp::NotA => "!A",
        Comp::NotM => "!M",
        Comp::NegD => "-D",
        Comp::NegA => "-A",
        Comp::NegM => "-M",
        Comp::DPlusOne => "D+1",
        Comp::APlusOne => "A+1",
        Comp::MPlusOne => "M+1",
        Comp::DMinusOne => "D-1",
        Comp::AMinusOne => "A-1",
        Comp::MMinusOne => "M-1",
        Comp::DPlusA => "D+A",
        Comp::DPlusM => "D+M",
        Comp::DMinusA => "D-A",
        Comp::DMinusM => "D-M",
        Comp::AMinusD => "A-D",
        Comp::MMinusD => "M-D",
        Comp::DAndA => "D&A",
        Comp::DAndM => "D&M",
        Comp::DOrA => "D|A",
        Comp::DOrM => "D|M",
    }
}

fn jump_str(j: Jump) -> (s: &'static str)
    ensures
        s@ == jump_text(j),
{
    match j {
        Jump::Never => "",
        Jump::Jgt => ";JGT",
        Jump::Jeq => ";JEQ",
        Jump::Jge => ";JGE",
        Jump::Jlt => ";JLT",
        Jump::Jne => ";JNE",
        Jump::Jle => ";JLE",
        Jump::Jmp => ";JMP",
    }
}

fn mark_str(m: Mark) -> (s: &'static str)
    ensures
        s@ == mark_text(m),
{
    match m {
        Mark::IfTrue => "iftrue.",
        Mark::Return => "return.",
        Mark::LocalsTop => "local_vars_top.",
        Mark::LocalsDone => "local_vars_done.",
    }
}

fn construct_str(what: Construct) -> (s: &'static str)
    ensures
        s@ == construct_text(what),
{
    match what {
        Construct::Segment => "!!! unimplemented segment: ",
        Construct::Instruction => "!!! unsupported instruction type: ",
    }
}

impl Symbol {
    /// Writes the symbol.
    pub fn text(&self) -> (s: String)
        ensures
            s@ == symbol_text(self@),
    {
        match self {
            Symbol::Sp => String::from_str("SP"),
            Symbol::Lcl => String::from_str("LCL"),
            Symbol::Arg => String::from_str("ARG"),
            Symbol::This => String::from_str("THIS"),
            Symbol::That => String::from_str("THAT"),
            Symbol::Value(n) => decimal(*n as u64),
            Symbol::Static { unit, index } => {
                let mut s = joined(unit.as_str(), ".");
                let digits = decimal(*index as u64);
                s.append(digits.as_str());
                s
            },
            Symbol::Entry { function } => joined("fn.", function.as_str()),
            Symbol::Scoped { function, label } => {
                let mut s = joined(function.as_str(), ":");
                s.append(label.as_str());
                s
            },
            Symbol::Minted { function, mark, id } => {
                let digits = decimal(*id);
                let mut s = joined(mark_str(*mark), digits.as_str());
                s.append(".");
                s.append(function.as_str());
                s
            },
            Symbol::Idle => String::from_str("Sys.init.loop"),
        }
    }

    /// A copy of the symbol.
    pub fn copy(&self) -> (s: Symbol)
        ensures
            s@ == self@,
    {
        match self {
            Symbol::Sp => Symbol::Sp,
            Symbol::Lcl => Symbol::Lcl,
            Symbol::Arg => Symbol::Arg,
            Symbol::This => Symbol::This,
            Symbol::That => Symbol::That,
            Symbol::Value(n) => Symbol::Value(*n),
            Symbol::Static { unit, index } => Symbol::Static { unit: unit.clone(), index: *index },
            Symbol::Entry { function } => Symbol::Entry { function: function.clone() },
            Symbol::Scoped { function, label } => Symbol::Scoped {
                function: function.clone(),
                label: label.clone(),
            },
            Symbol::Minted { function, mark, id } => Symbol::Minted {
                function: function.clone(),
                mark: *mark,
                id: *id,
            },
            Symbol::Idle => Symbol::Idle,
        }
    }
}

impl Instr {
    /// Writes the instruction as a line of assembly.
    pub fn text(&self) -> (s: String)
        ensures
            s@ == instr_text(self@),
    {
        match self {
            Instr::At(sym) => {
                let name = sym.text();
                joined("@", name.as_str())
            },
            Instr::Compute { dest, comp, jump } => {
                let mut s = joined(dest_str(*dest), comp_str(*comp));
                s.append(jump_str(*jump));
                s
            },
            Instr::Label(sym) => {
                let name = sym.text();
                let mut s = joined("(", name.as_str());
                s.append(")");
                s
            },
            Instr::Unsupported { what, name } => joined(construct_str(*what), name.as_str()),
            Instr::Note { line, words } => {
                let number = decimal(*line);
                let mut s = joined("// line ", number.as_str());
                s.append(": ");
                let ghost head = s@;
                let mut i: usize = 0;
                while i < words.len()
                    invariant
                        i <= words.len(),
                        s@ == head + spaced(words.deep_view().take(i as int)),
                    decreases words.len() - i,
                {
                    proof {
                        let next = words.deep_view().take(i + 1);
                        assert(next.drop_last() =~= words.deep_view().take(i as int));
                        assert(next.last() == words@[i as int]@);
                    }
                    s.append(words[i].as_str());
                    s.append(" ");
                    i = i + 1;
                }
                assert(words.deep_view().take(i as int) =~= words.deep_view());
                s
            },
        }
    }
}

/// The instruction that stores `comp` in `dest` and goes on.
pub fn store(dest: Dest, comp: Comp) -> (i: Instr)
    ensures
        i@ == assign(dest, comp),
{
    Instr::Compute { dest, comp, jump: Jump::Never }
}

/// Adds the instructions `more` to the end of `code`.
pub fn emit(code: &mut Vec<Instr>, more: Vec<Instr>)
    ensures
        final(code).deep_view() == old(code).deep_view() + more.deep_view(),
{
    let mut more = more;
    let ghost before = code.deep_view();
    let ghost added = more.deep_view();
    code.append(&mut more);
    assert(code.deep_view() =~= before + added);
}

/// The instruction that computes `comp` and jumps as `jump` says.
pub fn go(comp: Comp, jump: Jump) -> (i: Instr)
    ensures
        i@ == branch(comp, jump),
{
    Instr::Compute { dest: Dest::Null, comp, jump }
}

/// Writes a piece of target code, a line for each instruction.
pub fn print_code(code: &Vec<Instr>) -> (lines: Vec<String>)
    ensures
        lines.deep_view() == code_text(code.deep_view()),
{
    let mut lines: Vec<String> = Vec::new();
    let mut i: usize = 0;
    while i < code.len()
        invariant
            i <= code.len(),
            lines.len() == i,
            forall|k: int| 0 <= k < i ==> (#[trigger] lines@[k])@ == instr_text(code@[k]@),
        decreases code.len() - i,
    {
        lines.push(code[i].text());
        i = i + 1;
    }
    assert(lines.deep_view() =~= code_text(code.deep_view()));
    lines
}

} // verus!
