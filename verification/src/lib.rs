//! A translator from the instructions of a stack-based virtual machine to the
//! assembly of a machine with two registers and a memory.
//!
//! Each instruction becomes a fixed row of target instructions, which work on
//! a stack that is kept in memory, on the machine's memory segments, and on
//! the flow of control, with a calling convention for functions. The
//! translator makes target code as records ([`target`]) and writes it in one
//! pass ([`target::print_code`]).
//!
//! - [`text`]: characters, words and decimal numbers.
//! - [`target`]: the target instructions and their text.
//! - [`segment`], [`arith`], [`flow`], [`call`], [`bootstrap`]: the code of
//!   each kind of instruction, and the prologue of a program.
//! - [`context`], [`command`], [`translate`], [`program`]: what a translation
//!   carries along, how a line is read, and the translation of an
//!   instruction, a line and a whole unit.
//! - [`machine`]: the target machine, as far as the claims about the code go.
//! - [`stack`], [`results`], [`branch`], [`frame`]: what the code does to the
//!   machine.
//! - [`labels`], [`listing`]: what holds of the labels in the code and in its
//!   text.
pub mod arith;
pub mod bootstrap;
pub mod branch;
pub mod call;
pub mod command;
pub mod context;
pub mod flow;
pub mod frame;
pub mod labels;
pub mod listing;
pub mod machine;
pub mod program;
pub mod results;
pub mod segment;
pub mod stack;
pub mod target;
pub mod text;
pub mod translate;
