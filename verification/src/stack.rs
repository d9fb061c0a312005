//! Stacks: a program together with the programs that it imports.

use vstd::prelude::*;
use std::sync::Arc;
use crate::error::{finds, Error};
use crate::names::{lemma_first_is_unique, Identifier, ProgramID};
use crate::program::{Call, CallOperator, Function, Instruction, Program};
use crate::registry;

verus! {

/// A program in its surroundings: what its functions need to be run.
pub struct Stack {
    pub program: Arc<Program>,
    pub external_programs: Vec<Arc<Program>>,
}

/// What a stack holds.
#[verifier::ext_equal]
pub struct StackView {
    pub program: Arc<Program>,
    pub external_programs: Seq<Arc<Program>>,
}

impl View for Stack {
    type V = StackView;

    open spec fn view(&self) -> StackView {
        StackView { program: self.program, external_programs: self.external_programs@ }
    }
}

impl Clone for Stack {
    fn clone(&self) -> (copy: Self)
        ensures
            copy@ == self@,
    {
        let mut external_programs: Vec<Arc<Program>> = Vec::new();
        let mut i: usize = 0;
        while i < self.external_programs.len()
            invariant
                i <= self.external_programs@.len(),
                external_programs@ == self.external_programs@.take(i as int),
            decreases self.external_programs@.len() - i,
        {
            external_programs.push(registry::share(&self.external_programs[i]));
            i += 1;
            assert(external_programs@ =~= self.external_programs@.take(i as int));
        }
        assert(external_programs@ =~= self.external_programs@);
        Stack { program: registry::share(&self.program), external_programs }
    }
}

impl StackView {
    /// The name of the program.
    pub open spec fn program_id(self) -> ProgramID {
        self.program.id
    }

    /// The external program at `i` is the first one called `id`.
    pub open spec fn first_external_at(self, id: Seq<char>, i: int) -> bool {
        &&& 0 <= i < self.external_programs.len()
        &&& self.external_programs[i].id@ == id
        &&& forall|j: int| 0 <= j < i ==> (#[trigger] self.external_programs[j]).id@ != id
    }

    /// The program imports one called `id`.
    pub open spec fn has_external(self, id: Seq<char>) -> bool {
        exists|i: int| self.first_external_at(id, i)
    }

    /// The imported program called `id`.
    pub open spec fn external(self, id: Seq<char>) -> Arc<Program>
        recommends
            self.has_external(id),
    {
        self.external_programs[choose|i: int| self.first_external_at(id, i)]
    }

    /// What [`Stack::get_function`] returns.
    pub open spec fn function_of(self, name: Identifier) -> Result<Function, Error> {
        if self.program.has_function(name@) {
            Ok(self.program.function(name@))
        } else {
            Err(Error::FunctionNotFound(name))
        }
    }
}

impl Stack {
    /// Returns the function of the given name.
    pub fn get_function(&self, name: &Identifier) -> (found: Result<&Function, Error>)
        ensures
            finds(found, self@.function_of(*name)),
    {
        self.program.get_function(name)
    }

    /// Returns the imported program of the given name.
    pub fn get_external_program(&self, id: &ProgramID) -> (found: Result<&Arc<Program>, Error>)
        ensures
            match found {
                Ok(program) => self@.has_external(id@) && *program == self@.external(id@),
                Err(error) => !self@.has_external(id@)
                    && error == Error::ExternalProgramNotFound(*id),
            },
    {
        let mut i: usize = 0;
        while i < self.external_programs.len()
            invariant
                i <= self.external_programs@.len(),
                forall|j: int|
                    0 <= j < i ==> (#[trigger] self.external_programs@[j]).id@ != id@,
            decreases self.external_programs@.len() - i,
        {
            if self.external_programs[i].id.name.eq(&id.name) {
                proof {
                    assert(self@.first_external_at(id@, i as int));
                    let k = choose|k: int| self@.first_external_at(id@, k);
                    let names = self.external_programs@.map_values(
                        |program: Arc<Program>| program.id@,
                    );
                    lemma_first_is_unique(names, id@, k, i as int);
                }
                return Ok(&self.external_programs[i]);
            }
            i += 1;
        }
        Err(Error::ExternalProgramNotFound(id.clone()))
    }
}

impl Call {
    /// What [`Call::is_function_call`] returns.
    pub open spec fn function_called(self, stack: StackView) -> Result<bool, Error> {
        match self.operator {
            CallOperator::Locator(locator) => if stack.has_external(locator.program_id@) {
                Ok(stack.external(locator.program_id@).has_function(locator.resource@))
            } else {
                Err(Error::ExternalProgramNotFound(locator.program_id))
            },
            CallOperator::Resource(resource) => Ok(stack.program.has_function(resource@)),
        }
    }

    /// Returns `true` if the instruction calls a function, and not a closure.
    pub fn is_function_call(&self, stack: &Stack) -> (answer: Result<bool, Error>)
        ensures
            answer == self.function_called(stack@),
    {
        match &self.operator {
            CallOperator::Locator(locator) => {
                let program = stack.get_external_program(&locator.program_id)?;
                Ok(program.contains_function(&locator.resource))
            },
            CallOperator::Resource(resource) => Ok(stack.program.contains_function(resource)),
        }
    }
}

/// How many of the `instructions` call a function, or the error of the first that cannot tell.
pub open spec fn function_calls(stack: StackView, instructions: Seq<Instruction>) -> Result<nat, Error>
    decreases instructions.len(),
{
    if instructions.len() == 0 {
        Ok(0)
    } else {
        match function_calls(stack, instructions.drop_last()) {
            Err(error) => Err(error),
            Ok(count) => match instructions.last() {
                Instruction::Call(call) => match call.function_called(stack) {
                    Err(error) => Err(error),
                    Ok(true) => Ok(count + 1),
                    Ok(false) => Ok(count),
                },
                Instruction::Other(_) => Ok(count),
            },
        }
    }
}

impl Stack {
    /// Determines the number of function calls in the given function.
    pub fn count_function_calls(&self, function: &Function) -> (answer: Result<usize, Error>)
        ensures
            match answer {
                Ok(count) => function_calls(self@, function.instructions@) == Ok::<nat, Error>(
                    count as nat,
                ),
                Err(error) => function_calls(self@, function.instructions@) == Err::<nat, Error>(
                    error,
                ),
            },
    {
        let ghost all = function.instructions@;
        let mut count: usize = 0;
        let mut i: usize = 0;
        assert(all.take(0) =~= Seq::empty());
        while i < function.instructions.len()
            invariant
                all == function.instructions@,
                i <= all.len(),
                count <= i,
                function_calls(self@, all.take(i as int)) == Ok::<nat, Error>(count as nat),
            decreases all.len() - i,
        {
            proof {
                assert(all.take(i + 1).drop_last() =~= all.take(i as int));
                assert(all.take(i + 1).last() == all[i as int]);
            }
            if let Instruction::Call(call) = &function.instructions[i] {
                match call.is_function_call(self) {
                    Ok(true) => {
                        count += 1;
                    },
                    Ok(false) => {},
                    Err(error) => {
                        proof {
                            lemma_failed_count(self@, all, i + 1, error);
                        }
                        return Err(error);
                    },
                }
            }
            i += 1;
        }
        assert(all.take(i as int) =~= all);
        Ok(count)
    }
}

/// A count that fails on the first instructions fails on all of them, in the same way.
proof fn lemma_failed_count(stack: StackView, instructions: Seq<Instruction>, i: int, error: Error)
    requires
        0 <= i <= instructions.len(),
        function_calls(stack, instructions.take(i)) == Err::<nat, Error>(error),
    ensures
        function_calls(stack, instructions) == Err::<nat, Error>(error),
    decreases instructions.len() - i,
{
    if i < instructions.len() {
        assert(instructions.take(i + 1).drop_last() =~= instructions.take(i));
        lemma_failed_count(stack, instructions, i + 1, error);
    } else {
        assert(instructions.take(i) =~= instructions);
    }
}

} // verus!
