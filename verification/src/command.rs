//! The instructions of the virtual machine, and how a source line is read.
//!
//! A line holds at most one instruction. What follows two slashes is a
//! comment; the words before it, separated by white space, are the mnemonic
//! and its operands.
use crate::arith::{BinaryOp, Relation, UnaryOp};
use crate::text::{chars_of, is_space, numeral_value, parse_numeral, same_text, space};
use vstd::prelude::*;

verus! {

/// An instruction of the virtual machine.
#[derive(Clone, Debug, PartialEq, Eq)]
pub enum Command {
    Binary(BinaryOp),
    Unary(UnaryOp),
    Compare(Relation),
    Push { segment: String, index: u16 },
    Pop { segment: String, index: u16 },
    Label { name: String },
    Goto { name: String },
    IfGoto { name: String },
    Function { name: String, locals: u8 },
    Call { name: String, args: u8 },
    Return,
    /// An instruction with a mnemonic that the machine does not have.
    Unknown { mnemonic: String },
}

/// An instruction as a value of the specification.
pub enum CommandModel {
    Binary(BinaryOp),
    Unary(UnaryOp),
    Compare(Relation),
    Push { segment: Seq<char>, index: u16 },
    Pop { segment: Seq<char>, index: u16 },
    Label { name: Seq<char> },
    Goto { name: Seq<char> },
    IfGoto { name: Seq<char> },
    Function { name: Seq<char>, locals: u8 },
    Call { name: Seq<char>, args: u8 },
    Return,
    Unknown { mnemonic: Seq<char> },
}

impl View for Command {
    type V = CommandModel;

    open spec fn view(&self) -> CommandModel {
        match self {
            Command::Binary(op) => CommandModel::Binary(*op),
            Command::Unary(op) => CommandModel::Unary(*op),
            Command::Compare(relation) => CommandModel::Compare(*relation),
            Command::Push { segment, index } => CommandModel::Push {
                segment: segment@,
                index: *index,
            },
            Command::Pop { segment, index } => CommandModel::Pop {
                segment: segment@,
                index: *index,
            },
            Command::Label { name } => CommandModel::Label { name: name@ },
            Command::Goto { name } => CommandModel::Goto { name: name@ },
            Command::IfGoto { name } => CommandModel::IfGoto { name: name@ },
            Command::Function { name, locals } => CommandModel::Function {
                name: name@,
                locals: *locals,
            },
            Command::Call { name, args } => CommandModel::Call { name: name@, args: *args },
            Command::Return => CommandModel::Return,
            Command::Unknown { mnemonic } => CommandModel::Unknown { mnemonic: mnemonic@ },
        }
    }
}

/// Why a line is no instruction. Either ends the translation.
#[derive(Clone, Copy, Debug, PartialEq, Eq, Structural)]
pub enum SyntaxError {
    /// The line has more or fewer words than its mnemonic takes, or the row of
    /// words that was to be read has no word at all.
    Arity,
    /// The word that should be an index or a count is no numeral, or denotes a
    /// number too large for it.
    Number,
}

/// Whether two slashes in a row stand at `i` in `s`.
pub open spec fn comment_at(s: Seq<char>, i: int) -> bool {
    0 <= i && i + 1 < s.len() && s[i] == '/' && s[i + 1] == '/'
}

/// Whether the comment of the line `s` starts at `n`: at the first two slashes
/// in a row, or at the end of a line that has none.
pub open spec fn is_comment_start(s: Seq<char>, n: int) -> bool {
    &&& 0 <= n <= s.len()
    &&& n < s.len() ==> comment_at(s, n)
    &&& forall|j: int| 0 <= j < n ==> !comment_at(s, j)
}

/// Where the comment of the line `s` starts.
pub open spec fn comment_start(s: Seq<char>) -> int {
    choose|n: int| is_comment_start(s, n)
}

/// The line without its comment.
pub open spec fn code_part(s: Seq<char>) -> Seq<char> {
    s.take(comment_start(s))
}

/// A line has one comment start and no other.
pub proof fn lemma_comment_start(s: Seq<char>, n: int)
    requires
        is_comment_start(s, n),
    ensures
        comment_start(s) == n,
{
    let m = comment_start(s);
    assert(is_comment_start(s, m));
    if m < n {
        assert(comment_at(s, m));
    }
    if n < m {
        assert(comment_at(s, n));
    }
}

/// The length of the word that `s` starts with: of the longest run of
/// characters at its start that holds no white space.
pub open spec fn word_length(s: Seq<char>) -> nat
    decreases s.len(),
{
    if s.len() == 0 || is_space(s[0]) {
        0
    } else {
        1 + word_length(s.drop_first())
    }
}

/// A word is no longer than the text it starts, and not empty where the
/// text starts with a character that is no white space.
pub proof fn lemma_word_length_bound(s: Seq<char>)
    ensures
        word_length(s) <= s.len(),
        s.len() > 0 && !is_space(s[0]) ==> word_length(s) > 0,
    decreases s.len(),
{
    if s.len() > 0 && !is_space(s[0]) {
        lemma_word_length_bound(s.drop_first());
    }
}

/// A run of `n` characters without white space, with white space or the end
/// of `s` behind it, is the word that `s` starts with.
pub proof fn lemma_word_length(s: Seq<char>, n: int)
    requires
        0 <= n <= s.len(),
        forall|k: int| 0 <= k < n ==> !is_space(#[trigger] s[k]),
        n < s.len() ==> is_space(s[n]),
    ensures
        word_length(s) == n,
    decreases n,
{
    if n > 0 {
        let rest = s.drop_first();
        assert forall|k: int| 0 <= k < n - 1 implies !is_space(#[trigger] rest[k]) by {
            assert(rest[k] == s[k + 1]);
        }
        lemma_word_length(rest, n - 1);
    }
}

/// The words of `s`: its longest runs of characters without white space, from
/// left to right.
pub open spec fn words_of(s: Seq<char>) -> Seq<Seq<char>>
    decreases s.len(),
{
    if s.len() == 0 {
        Seq::empty()
    } else if is_space(s[0]) {
        words_of(s.drop_first())
    } else {
        proof {
            lemma_word_length_bound(s);
        }
        let n = word_length(s) as int;
        seq![s.take(n)] + words_of(s.skip(n))
    }
}

/// The words of a source line: those before its comment.
pub open spec fn line_words(line: Seq<char>) -> Seq<Seq<char>> {
    words_of(code_part(line))
}

/// The number of words that a line with the mnemonic `mnemonic` must have,
/// where the mnemonic asks for operands.
pub open spec fn arity(mnemonic: Seq<char>) -> Option<nat> {
    if mnemonic == "push"@ || mnemonic == "pop"@ || mnemonic == "function"@ || mnemonic
        == "call"@ {
        Some(3)
    } else if mnemonic == "label"@ || mnemonic == "goto"@ || mnemonic == "if-goto"@ {
        Some(2)
    } else {
        None
    }
}

/// The instruction that the words with a name as their operand make.
pub open spec fn named_command(mnemonic: Seq<char>, name: Seq<char>) -> CommandModel {
    if mnemonic == "label"@ {
        CommandModel::Label { name }
    } else if mnemonic == "goto"@ {
        CommandModel::Goto { name }
    } else {
        CommandModel::IfGoto { name }
    }
}

/// The instruction that the words with a name and a number as their operands
/// make, if the number fits: an index fits in 16 bits, a count in 8.
pub open spec fn counted_command(mnemonic: Seq<char>, name: Seq<char>, number: Seq<char>) -> Result<
    CommandModel,
    SyntaxError,
> {
    if mnemonic == "push"@ || mnemonic == "pop"@ {
        match numeral_value(number, u16::MAX as nat) {
            Some(n) => if mnemonic == "push"@ {
                Ok(CommandModel::Push { segment: name, index: n as u16 })
            } else {
                Ok(CommandModel::Pop { segment: name, index: n as u16 })
            },
            None => Err(SyntaxError::Number),
        }
    } else {
        match numeral_value(number, u8::MAX as nat) {
            Some(n) => if mnemonic == "function"@ {
                Ok(CommandModel::Function { name, locals: n as u8 })
            } else {
                Ok(CommandModel::Call { name, args: n as u8 })
            },
            None => Err(SyntaxError::Number),
        }
    }
}

/// The instruction that the mnemonic alone stands for. Words that follow it
/// on the line are not looked at.
pub open spec fn plain_command(mnemonic: Seq<char>) -> CommandModel {
    if mnemonic == "add"@ {
        CommandModel::Binary(BinaryOp::Add)
    } else if mnemonic == "sub"@ {
        CommandModel::Binary(BinaryOp::Sub)
    } else if mnemonic == "and"@ {
        CommandModel::Binary(BinaryOp::And)
    } else if mnemonic == "or"@ {
        CommandModel::Binary(BinaryOp::Or)
    } else if mnemonic == "neg"@ {
        CommandModel::Unary(UnaryOp::Neg)
    } else if mnemonic == "not"@ {
        CommandModel::Unary(UnaryOp::Not)
    } else if mnemonic == "eq"@ {
        CommandModel::Compare(Relation::Eq)
    } else if mnemonic == "gt"@ {
        CommandModel::Compare(Relation::Gt)
    } else if mnemonic == "lt"@ {
        CommandModel::Compare(Relation::Lt)
    } else if mnemonic == "return"@ {
        CommandModel::Return
    } else {
        CommandModel::Unknown { mnemonic }
    }
}

/// The instruction that the words of a line make. The first word is the
/// mnemonic. Where it asks for operands, the line must have as many words as
/// it takes, and the word for a number must be a numeral that fits. A row
/// without words has no mnemonic and makes no instruction.
pub open spec fn command_of(words: Seq<Seq<char>>) -> Result<CommandModel, SyntaxError> {
    if words.len() == 0 {
        Err(SyntaxError::Arity)
    } else {
        match arity(words[0]) {
            Some(n) => if words.len() != n {
                Err(SyntaxError::Arity)
            } else if n == 2 {
                Ok(named_command(words[0], words[1]))
            } else {
                counted_command(words[0], words[1], words[2])
            },
            None => Ok(plain_command(words[0])),
        }
    }
}

/// Finds where the comment of a line starts.
fn find_comment(line: &Vec<char>) -> (n: usize)
    ensures
        n == comment_start(line@),
        n <= line.len(),
{
    let mut i: usize = 0;
    while i < line.len()
        invariant
            i <= line.len(),
            forall|j: int| 0 <= j < i ==> !comment_at(line@, j),
        decreases line.len() - i,
    {
        if line[i] == '/' && i + 1 < line.len() && line[i + 1] == '/' {
            proof {
                lemma_comment_start(line@, i as int);
            }
            return i;
        }
        i = i + 1;
    }
    proof {
        lemma_comment_start(line@, i as int);
    }
    i
}

/// Splits a source line into its words.
pub fn split_line(line: &str) -> (words: Vec<String>)
    ensures
        words.deep_view() == line_words(line@),
{
    let chars = chars_of(line);
    let end = find_comment(&chars);
    let ghost code = code_part(line@);
    let mut words: Vec<String> = Vec::new();
    let mut i: usize = 0;
    assert(code.skip(0) =~= code);
    while i < end
        invariant
            i <= end <= chars.len(),
            chars@ == line@,
            code == line@.take(end as int),
            words_of(code) == words.deep_view() + words_of(code.skip(i as int)),
        decreases end - i,
    {
        let ghost rest = code.skip(i as int);
        if space(chars[i]) {
            assert(rest.drop_first() =~= code.skip(i + 1));
            i = i + 1;
        } else {
            let mut j: usize = i + 1;
            while j < end && !space(chars[j])
                invariant
                    i < j <= end <= chars.len(),
                    forall|k: int| i <= k < j ==> !is_space(#[trigger] chars@[k]),
                decreases end - j,
            {
                j = j + 1;
            }
            proof {
                assert forall|k: int| 0 <= k < j - i implies !is_space(#[trigger] rest[k]) by {
                    assert(rest[k] == chars@[i + k]);
                }
                lemma_word_length(rest, j - i);
                assert(rest.take(j - i) =~= line@.subrange(i as int, j as int));
                assert(rest.skip(j - i) =~= code.skip(j as int));
            }
            let word = line.substring_char(i, j);
            let ghost before = words.deep_view();
            words.push(String::from_str(word));
            assert(words.deep_view() =~= before + seq![rest.take(j - i)]);
            i = j;
        }
    }
    assert(code.skip(i as int) =~= Seq::<char>::empty());
    words
}

impl Command {
    /// Reads the instruction that the words of a line make.
    pub fn parse(words: &Vec<String>) -> (r: Result<Command, SyntaxError>)
        ensures
            match command_of(words.deep_view()) {
                Ok(command) => r.is_ok() && r.unwrap()@ == command,
                Err(error) => r == Err::<Command, SyntaxError>(error),
            },
    {
        if words.len() == 0 {
            return Err(SyntaxError::Arity);
        }
        let mnemonic = words[0].as_str();
        assert(words.deep_view()[0] == mnemonic@);
        let counted = same_text(mnemonic, "push") || same_text(mnemonic, "pop") || same_text(
            mnemonic,
            "function",
        ) || same_text(mnemonic, "call");
        let named = same_text(mnemonic, "label") || same_text(mnemonic, "goto") || same_text(
            mnemonic,
            "if-goto",
        );
        if counted {
            if words.len() != 3 {
                return Err(SyntaxError::Arity);
            }
            assert(words.deep_view()[1] == words@[1]@);
            assert(words.deep_view()[2] == words@[2]@);
            let name = words[1].clone();
            if same_text(mnemonic, "push") || same_text(mnemonic, "pop") {
                match parse_numeral(words[2].as_str(), u16::MAX) {
                    Some(index) => if same_text(mnemonic, "push") {
                        Ok(Command::Push { segment: name, index })
                    } else {
                        Ok(Command::Pop { segment: name, index })
                    },
                    None => Err(SyntaxError::Number),
                }
            } else {
                match parse_numeral(words[2].as_str(), 255) {
                    Some(count) => if same_text(mnemonic, "function") {
                        Ok(Command::Function { name, locals: count as u8 })
                    } else {
                        Ok(Command::Call { name, args: count as u8 })
                    },
                    None => Err(SyntaxError::Number),
                }
            }
        } else if named {
            if words.len() != 2 {
                return Err(SyntaxError::Arity);
            }
            assert(words.deep_view()[1] == words@[1]@);
            let name = words[1].clone();
            if same_text(mnemonic, "label") {
                Ok(Command::Label { name })
            } else if same_text(mnemonic, "goto") {
                Ok(Command::Goto { name })
            } else {
                Ok(Command::IfGoto { name })
            }
        } else if same_text(mnemonic, "add") {
            Ok(Command::Binary(BinaryOp::Add))
        } else if same_text(mnemonic, "sub") {
            Ok(Command::Binary(BinaryOp::Sub))
        } else if same_text(mnemonic, "and") {
            Ok(Command::Binary(BinaryOp::And))
        } else if same_text(mnemonic, "or") {
            Ok(Command::Binary(BinaryOp::Or))
        } else if same_text(mnemonic, "neg") {
            Ok(Command::Unary(UnaryOp::Neg))
        } else if same_text(mnemonic, "not") {
            Ok(Command::Unary(UnaryOp::Not))
        } else if same_text(mnemonic, "eq") {
            Ok(Command::Compare(Relation::Eq))
        } else if same_text(mnemonic, "gt") {
            Ok(Command::Compare(Relation::Gt))
        } else if same_text(mnemonic, "lt") {
            Ok(Command::Compare(Relation::Lt))
        } else if same_text(mnemonic, "return") {
            Ok(Command::Return)
        } else {
            Ok(Command::Unknown { mnemonic: words[0].clone() })
        }
    }
}

} // verus!
