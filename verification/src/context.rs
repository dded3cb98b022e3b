//! What a translation carries from one instruction to the next.
use vstd::prelude::*;

verus! {

/// The name that stands for the enclosing function where no function has
/// been declared yet.
pub open spec fn top_level() -> Seq<char> {
    "undefined"@
}

/// The state of a translation: the unit that is translated, whose name the
/// static variables carry; the function that was declared last, whose name
/// the labels carry; and how many labels the translator has numbered so far.
#[derive(Clone, Debug, PartialEq, Eq)]
pub struct Context {
    unit: String,
    function: String,
    minted: u64,
}

/// A context as a value of the specification.
pub struct ContextModel {
    pub unit: Seq<char>,
    pub function: Seq<char>,
    pub minted: nat,
}

impl View for Context {
    type V = ContextModel;

    closed spec fn view(&self) -> ContextModel {
        ContextModel { unit: self.unit@, function: self.function@, minted: self.minted as nat }
    }
}

/// The context at the start of the translation of `unit`: at top level, with
/// no label numbered. The number 0 is left to the program's prologue.
pub open spec fn initial_context(unit: Seq<char>) -> ContextModel {
    ContextModel { unit, function: top_level(), minted: 0 }
}

impl Context {
    /// The context at the start of the translation of `unit`.
    pub fn new(unit: &str) -> (ctx: Context)
        ensures
            ctx@ == initial_context(unit@),
    {
        Context { unit: String::from_str(unit), function: String::from_str("undefined"), minted: 0 }
    }

    /// The name of the unit.
    pub fn unit(&self) -> (name: &str)
        ensures
            name@ == self@.unit,
    {
        self.unit.as_str()
    }

    /// The name of the enclosing function.
    pub fn function(&self) -> (name: &str)
        ensures
            name@ == self@.function,
    {
        self.function.as_str()
    }

    /// The number of labels numbered so far, which is the last number given.
    pub fn minted(&self) -> (n: u64)
        ensures
            n == self@.minted,
    {
        self.minted
    }

    /// Makes `name` the enclosing function.
    pub fn enter(&mut self, name: &str)
        ensures
            final(self)@ == (ContextModel { function: name@, ..old(self)@ }),
    {
        self.function = String::from_str(name);
    }

    /// Gives out the next number: one that no label carries yet.
    pub fn mint(&mut self) -> (id: u64)
        requires
            old(self)@.minted < u64::MAX,
        ensures
            id == old(self)@.minted + 1,
            final(self)@ == (ContextModel { minted: old(self)@.minted + 1, ..old(self)@ }),
    {
        self.minted = self.minted + 1;
        self.minted
    }
}

} // verus!
