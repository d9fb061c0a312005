//! Programs: the functions that they define, and the calls that those make.

use vstd::prelude::*;
use crate::error::Error;
use crate::names::{lemma_first_is_unique, Identifier, Locator, ProgramID};

verus! {

/// The type and visibility of an input or output, such as `u32.private`.
#[derive(Debug, PartialEq, Eq)]
pub struct ValueType {
    pub name: String,
}

/// A register of a function, such as `r0`.
#[derive(Debug, PartialEq, Eq)]
pub struct Register {
    pub name: String,
}

/// What an instruction works on: a register, a member of one, or a literal.
#[derive(Debug, PartialEq, Eq)]
pub struct Operand {
    pub name: String,
}

/// What a `call` instruction calls.
#[derive(Debug, PartialEq, Eq)]
pub enum CallOperator {
    /// A closure or function of another program.
    Locator(Locator),
    /// A closure or function of the same program.
    Resource(Identifier),
}

/// A `call` instruction.
#[derive(Debug, PartialEq, Eq)]
pub struct Call {
    pub operator: CallOperator,
    pub operands: Vec<Operand>,
    pub destinations: Vec<Register>,
}

/// One instruction of a function or closure.
#[derive(Debug, PartialEq, Eq)]
pub enum Instruction {
    /// A call of a closure or a function.
    Call(Call),
    /// Any other instruction, in its textual form.
    Other(String),
}

/// A function: the unit that is called, executed and proved.
#[derive(Debug, PartialEq, Eq)]
pub struct Function {
    pub name: Identifier,
    pub inputs: Vec<Register>,
    pub input_types: Vec<ValueType>,
    pub instructions: Vec<Instruction>,
    pub outputs: Vec<Operand>,
    pub output_types: Vec<ValueType>,
}

/// A closure: a body that is run in place, within the function that calls it.
#[derive(Debug, PartialEq, Eq)]
pub struct Closure {
    pub name: Identifier,
    pub inputs: Vec<Register>,
    pub instructions: Vec<Instruction>,
    pub outputs: Vec<Operand>,
}

/// A program. Where two functions bear one name, the first is meant.
#[derive(Debug, PartialEq, Eq)]
pub struct Program {
    pub id: ProgramID,
    pub imports: Vec<ProgramID>,
    pub closures: Vec<Closure>,
    pub functions: Vec<Function>,
}

impl Program {
    /// The function at `i` is the first one called `name`.
    pub open spec fn first_function_at(self, name: Seq<char>, i: int) -> bool {
        &&& 0 <= i < self.functions@.len()
        &&& self.functions@[i].name@ == name
        &&& forall|j: int| 0 <= j < i ==> (#[trigger] self.functions@[j]).name@ != name
    }

    /// The program defines a function called `name`.
    pub open spec fn has_function(self, name: Seq<char>) -> bool {
        exists|i: int| self.first_function_at(name, i)
    }

    /// The function called `name`.
    pub open spec fn function(self, name: Seq<char>) -> Function
        recommends
            self.has_function(name),
    {
        self.functions@[choose|i: int| self.first_function_at(name, i)]
    }

    /// A name that some function bears is a name that the program defines.
    pub proof fn lemma_named_function(self, i: int)
        requires
            0 <= i < self.functions@.len(),
        ensures
            self.has_function(self.functions@[i].name@),
        decreases i,
    {
        let name = self.functions@[i].name@;
        if !self.first_function_at(name, i) {
            let j = choose|j: int| 0 <= j < i && (#[trigger] self.functions@[j]).name@ == name;
            self.lemma_named_function(j);
        }
    }

    /// The place of the function called `name`, if there is one.
    fn position(&self, name: &Identifier) -> (place: Option<usize>)
        ensures
            match place {
                Some(i) => self.first_function_at(name@, i as int),
                None => !self.has_function(name@),
            },
    {
        let mut i: usize = 0;
        while i < self.functions.len()
            invariant
                i <= self.functions@.len(),
                forall|j: int| 0 <= j < i ==> (#[trigger] self.functions@[j]).name@ != name@,
            decreases self.functions@.len() - i,
        {
            if self.functions[i].name.name.eq(&name.name) {
                return Some(i);
            }
            i += 1;
        }
        None
    }

    /// Returns `true` if the program defines a function of the given name.
    pub fn contains_function(&self, name: &Identifier) -> (found: bool)
        ensures
            found == self.has_function(name@),
    {
        self.position(name).is_some()
    }

    /// Returns the function of the given name.
    pub fn get_function(&self, name: &Identifier) -> (found: Result<&Function, Error>)
        ensures
            match found {
                Ok(function) => self.has_function(name@) && *function == self.function(name@),
                Err(error) => !self.has_function(name@) && error == Error::FunctionNotFound(*name),
            },
    {
        match self.position(name) {
            Some(i) => {
                proof {
                    let k = choose|k: int| self.first_function_at(name@, k);
                    let names = self.functions@.map_values(|function: Function| function.name@);
                    lemma_first_is_unique(names, name@, k, i as int);
                }
                Ok(&self.functions[i])
            },
            None => Err(Error::FunctionNotFound(name.clone())),
        }
    }
}

} // verus!
