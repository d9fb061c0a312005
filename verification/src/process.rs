//! The process: the programs that it knows, with their stacks and circuit keys.

use vstd::prelude::*;
use std::sync::Arc;
use indexmap::IndexMap;
use crate::calls::{calls_in, lemma_calls_deeper, lemma_calls_extended, reaches_within, stack_of};
use crate::error::{finds, Error};
use crate::keys::{CircuitKey, CircuitKeys, MadeKey, ProvingKey, UniversalSRS, VerifyingKey};
use crate::names::{Identifier, ProgramID};
use crate::program::Program;
use crate::registry;
use crate::stack::{Stack, StackView};

verus! {

/// A process of the network with the identifier `ID`.
pub struct Process<const ID: u16> {
    /// The mapping of program IDs to programs.
    programs: IndexMap<String, Arc<Program>>,
    /// The mapping of program IDs to stacks.
    stacks: IndexMap<String, Stack>,
    /// The mapping of `(program ID, function name)` to `(proving_key, verifying_key)`.
    circuit_keys: CircuitKeys,
    /// A bound on how deep the calls of the functions in the process nest.
    call_depth: usize,
}

/// What a process knows.
#[verifier::ext_equal]
pub struct ProcessView {
    pub programs: Map<Seq<char>, Arc<Program>>,
    pub stacks: Map<Seq<char>, Stack>,
    pub keys: Map<(Seq<char>, Seq<char>), CircuitKey>,
    pub universal_srs: Option<UniversalSRS>,
    pub call_depth: nat,
}

impl ProcessView {
    /// A process that knows nothing yet.
    pub open spec fn empty(universal_srs: Option<UniversalSRS>) -> Self {
        ProcessView {
            programs: Map::empty(),
            stacks: Map::empty(),
            keys: Map::empty(),
            universal_srs,
            call_depth: 1,
        }
    }

    /// The stack under the name `id` is the one of the program under that name, and what it
    /// imports is in the process.
    pub open spec fn stack_fits(self, id: Seq<char>) -> bool {
        &&& self.programs[id].id@ == id
        &&& self.stacks[id].program == self.programs[id]
        &&& imports_known(self.programs, self.stacks[id]@)
    }

    /// Programs and stacks go together, and the calls of every function can be counted.
    pub open spec fn well_formed(self) -> bool {
        &&& 0 < self.call_depth <= usize::MAX
        &&& self.programs.dom() == self.stacks.dom()
        &&& forall|id: Seq<char>| #[trigger]
            self.stacks.contains_key(id) ==> self.stack_fits(id)
        &&& forall|id: Seq<char>, function_name: Identifier|
            self.stacks.contains_key(id) ==> (#[trigger] calls_in(
                self.stacks,
                self.stacks[id]@,
                function_name,
                self.call_depth,
            )) is Some
    }

    /// What [`Process::get_program`] returns.
    pub open spec fn program_of(self, program_id: ProgramID) -> Result<Program, Error> {
        if self.programs.contains_key(program_id@) {
            Ok(*self.programs[program_id@])
        } else {
            Err(Error::ProgramNotFound(program_id))
        }
    }

    /// What [`Process::get_stack`] returns.
    pub open spec fn stack_of(self, program_id: ProgramID) -> Result<Stack, Error> {
        stack_of(self.stacks, program_id)
    }

    /// The circuit key that the stack of the given program knows for the given function.
    pub open spec fn key_of(self, program_id: ProgramID, function_name: Identifier) -> Result<
        CircuitKey,
        Error,
    > {
        match self.stack_of(program_id) {
            Err(error) => Err(error),
            Ok(stack) => if self.keys.contains_key((stack.program.id@, function_name@)) {
                Ok(self.keys[(stack.program.id@, function_name@)])
            } else {
                Err(Error::KeyNotFound(stack.program.id, function_name))
            },
        }
    }
}

impl ProcessView {
    /// What [`Process::get_number_of_calls`] returns.
    pub open spec fn number_of_calls(self, program_id: ProgramID, function_name: Identifier) -> Result<
        nat,
        Error,
    > {
        match self.stack_of(program_id) {
            Err(error) => Err(error),
            Ok(stack) => calls_in(self.stacks, stack@, function_name, self.call_depth)->Some_0,
        }
    }

    /// The import at `i` is the first that names no program of the process.
    pub open spec fn first_unknown_import_at(self, program: Program, i: int) -> bool {
        &&& 0 <= i < program.imports@.len()
        &&& !self.programs.contains_key(program.imports@[i]@)
        &&& forall|j: int|
            0 <= j < i ==> self.programs.contains_key((#[trigger] program.imports@[j])@)
    }

    /// The stack that the given program has in the process.
    pub open spec fn stack_for(self, program: Program) -> StackView {
        StackView {
            program: Arc::new(program),
            external_programs: Seq::new(
                program.imports@.len(),
                |i: int| self.programs[program.imports@[i]@],
            ),
        }
    }

    /// How deep calls may nest once the given program is in the process.
    pub open spec fn depth_with(self, program: Program) -> nat {
        if self.call_depth + program.functions@.len() <= usize::MAX {
            self.call_depth + program.functions@.len()
        } else {
            usize::MAX as nat
        }
    }

    /// The calls of the function at `i` of the given program can be counted.
    pub open spec fn countable_at(self, program: Program, i: int) -> bool {
        calls_in(
            self.stacks,
            self.stack_for(program),
            program.functions@[i].name,
            self.depth_with(program),
        ) is Some
    }

    /// The function at `i` is the first whose calls cannot be counted.
    pub open spec fn first_unbounded_at(self, program: Program, i: int) -> bool {
        &&& 0 <= i < program.functions@.len()
        &&& !self.countable_at(program, i)
        &&& forall|j: int| 0 <= j < i ==> self.countable_at(program, j)
    }

    /// The given program may be added.
    pub open spec fn admits(self, program: Program) -> bool {
        &&& !self.programs.contains_key(program.id@)
        &&& forall|i: int|
            0 <= i < program.imports@.len() ==> self.programs.contains_key(
                (#[trigger] program.imports@[i])@,
            )
        &&& forall|i: int| 0 <= i < program.functions@.len() ==> self.countable_at(program, i)
    }

    /// The given program may not be added, and `error` says why.
    pub open spec fn refuses(self, program: Program, error: Error) -> bool {
        if self.programs.contains_key(program.id@) {
            error == Error::ProgramExists(program.id)
        } else if exists|i: int| self.first_unknown_import_at(program, i) {
            exists|i: int|
                self.first_unknown_import_at(program, i) && error == Error::ProgramNotFound(
                    program.imports@[i],
                )
        } else {
            exists|i: int|
                self.first_unbounded_at(program, i) && error == Error::UnboundedCalls(
                    program.functions@[i].name,
                )
        }
    }

    /// The process after the given program was added, with `stack` as its stack.
    pub open spec fn with_program(self, program: Program, stack: Stack) -> Self {
        ProcessView {
            programs: self.programs.insert(program.id@, Arc::new(program)),
            stacks: self.stacks.insert(program.id@, stack),
            call_depth: self.depth_with(program),
            ..self
        }
    }

    /// The reference string that circuit keys are made from is the one given, or there is none.
    pub open spec fn universal_srs_is(self, srs: Option<&UniversalSRS>) -> bool {
        match srs {
            Some(given) => self.universal_srs == Some(*given),
            None => self.universal_srs is None,
        }
    }

    /// The process after a circuit key was inserted.
    pub open spec fn with_key(
        self,
        program_id: Seq<char>,
        function_name: Seq<char>,
        key: CircuitKey,
    ) -> Self {
        ProcessView { keys: self.keys.insert((program_id, function_name), key), ..self }
    }

    /// The process after the circuit keys were inserted, one after the other.
    pub open spec fn with_made(self, made: Seq<MadeKey>) -> Self
        decreases made.len(),
    {
        if made.len() == 0 {
            self
        } else {
            let last = made.last();
            self.with_made(made.drop_last()).with_key(
                last.program_id@,
                last.function_name@,
                last.key,
            )
        }
    }

    /// Circuit keys that are inserted leave everything but the keys as it was.
    pub proof fn lemma_with_made(self, made: Seq<MadeKey>)
        ensures
            self.with_made(made) == (ProcessView { keys: self.with_made(made).keys, ..self }),
            self.well_formed() ==> self.with_made(made).well_formed(),
        decreases made.len(),
    {
        if made.len() > 0 {
            self.lemma_with_made(made.drop_last());
            if self.well_formed() {
                let last = made.last();
                self.with_made(made.drop_last()).lemma_with_key(
                    last.program_id@,
                    last.function_name@,
                    last.key,
                );
            }
        }
    }

    /// What is known of the stacks is enough to see that no call leads out of the process.
    pub proof fn lemma_reaches_within(self)
        requires
            self.well_formed(),
        ensures
            forall|id: Seq<char>| #[trigger]
                self.stacks.contains_key(id) ==> reaches_within(self.stacks, self.stacks[id]@),
    {
        assert forall|id: Seq<char>| #[trigger] self.stacks.contains_key(id) implies reaches_within(
            self.stacks,
            self.stacks[id]@,
        ) by {
            assert(self.stack_fits(id));
            let stack = self.stacks[id]@;
            assert forall|i: int| 0 <= i < stack.external_programs.len() implies self.stacks.contains_key(
                (#[trigger] stack.external_programs[i]).id@,
            ) by {
                assert(self.programs.dom().contains(stack.external_programs[i].id@));
            }
        }
    }

    /// A circuit key that is inserted leaves the process well-formed.
    pub proof fn lemma_with_key(
        self,
        program_id: Seq<char>,
        function_name: Seq<char>,
        key: CircuitKey,
    )
        requires
            self.well_formed(),
        ensures
            self.with_key(program_id, function_name, key).well_formed(),
    {
        let after = self.with_key(program_id, function_name, key);
        assert forall|id: Seq<char>| #[trigger] after.stacks.contains_key(
            id,
        ) implies after.stack_fits(id) by {
            assert(self.stack_fits(id));
        }
    }

    /// A program that may be added leaves the process well-formed.
    pub proof fn lemma_with_program(self, program: Program, stack: Stack)
        requires
            self.well_formed(),
            self.admits(program),
            stack@ == self.stack_for(program),
        ensures
            self.with_program(program, stack).well_formed(),
    {
        let after = self.with_program(program, stack);
        let new = self.stack_for(program);
        self.lemma_reaches_within();
        assert(after.programs.dom() =~= after.stacks.dom());
        assert(self.stacks.submap_of(after.stacks)) by {
            assert(!self.stacks.dom().contains(program.id@));
        }
        assert(reaches_within(self.stacks, new)) by {
            assert forall|i: int| 0 <= i < new.external_programs.len() implies self.stacks.contains_key(
                (#[trigger] new.external_programs[i]).id@,
            ) by {
                let id = program.imports@[i]@;
                assert(self.stacks.dom().contains(id));
                assert(self.stack_fits(id));
            }
        }
        assert forall|id: Seq<char>| #[trigger] after.stacks.contains_key(id) implies after.stack_fits(
            id,
        ) by {
            if id == program.id@ {
                assert forall|i: int| 0 <= i < new.external_programs.len() implies {
                    let other = (#[trigger] new.external_programs[i]).id@;
                    after.programs.contains_key(other) && after.programs[other]
                        == new.external_programs[i]
                } by {
                    let other = program.imports@[i]@;
                    assert(self.stacks.dom().contains(other));
                    assert(self.stack_fits(other));
                }
            } else {
                assert(self.stack_fits(id));
            }
        }
        assert forall|id: Seq<char>, function_name: Identifier|
            after.stacks.contains_key(id) implies (#[trigger] calls_in(
            after.stacks,
            after.stacks[id]@,
            function_name,
            after.call_depth,
        )) is Some by {
            let among = after.stacks[id]@;
            lemma_calls_extended(
                self.stacks,
                after.stacks,
                among,
                function_name,
                after.call_depth,
            );
            if id == program.id@ {
                if program.has_function(function_name@) {
                    let i = choose|i: int| program.first_function_at(function_name@, i);
                    assert(self.countable_at(program, i));
                    let name = program.functions@[i].name;
                    assert(new.function_of(name) == new.function_of(function_name));
                }
            } else {
                lemma_calls_deeper(
                    self.stacks,
                    among,
                    function_name,
                    self.call_depth,
                    after.call_depth,
                );
            }
        }
    }
}

/// Every program that the stack imports is among the `programs`, under its own name.
pub open spec fn imports_known(programs: Map<Seq<char>, Arc<Program>>, stack: StackView) -> bool {
    forall|i: int|
        0 <= i < stack.external_programs.len() ==> {
            let id = (#[trigger] stack.external_programs[i]).id@;
            programs.contains_key(id) && programs[id] == stack.external_programs[i]
        }
}

impl<const ID: u16> View for Process<ID> {
    type V = ProcessView;

    closed spec fn view(&self) -> ProcessView {
        ProcessView {
            programs: registry::programs_in(self.programs),
            stacks: registry::stacks_in(self.stacks),
            keys: self.circuit_keys@,
            universal_srs: self.circuit_keys.universal_srs(),
            call_depth: self.call_depth as nat,
        }
    }
}

impl<const ID: u16> Process<ID> {
    /// Initializes a new process.
    pub fn new() -> (process: Result<Self, Error>)
        ensures
            process is Ok,
            process->Ok_0@ == ProcessView::empty(None),
            process->Ok_0@.well_formed(),
    {
        Ok(
            Process {
                programs: registry::new_programs(),
                stacks: registry::new_stacks(),
                circuit_keys: CircuitKeys::new(),
                call_depth: 1,
            },
        )
    }

    /// Initializes a new process from a universal SRS.
    pub fn from_universal_srs(srs: UniversalSRS) -> (process: Result<Self, Error>)
        ensures
            process is Ok,
            process->Ok_0@ == ProcessView::empty(Some(srs)),
            process->Ok_0@.well_formed(),
    {
        Ok(
            Process {
                programs: registry::new_programs(),
                stacks: registry::new_stacks(),
                circuit_keys: CircuitKeys::from_universal_srs(srs),
                call_depth: 1,
            },
        )
    }

    /// Returns `true` if the process contains the program with the given ID.
    pub fn contains_program(&self, program_id: &ProgramID) -> (found: bool)
        ensures
            found == self@.programs.contains_key(program_id@),
    {
        registry::contains_program(&self.programs, &program_id.name)
    }

    /// Returns the program for the given program ID.
    pub fn get_program(&self, program_id: &ProgramID) -> (program: Result<&Program, Error>)
        ensures
            finds(program, self@.program_of(*program_id)),
    {
        match registry::get_program(&self.programs, &program_id.name) {
            Some(program) => Ok(program),
            None => Err(Error::ProgramNotFound(program_id.clone())),
        }
    }

    /// Returns the stack for the given program ID.
    pub fn get_stack(&self, program_id: &ProgramID) -> (stack: Result<&Stack, Error>)
        ensures
            finds(stack, self@.stack_of(*program_id)),
    {
        match registry::get_stack(&self.stacks, &program_id.name) {
            Some(stack) => Ok(stack),
            None => Err(Error::StackNotFound(program_id.clone())),
        }
    }

    /// Adds the given program to the process. A program is refused where another has its name,
    /// where it imports one that is not in the process yet, and where the calls of one of its
    /// functions cannot be counted: because they lead back to it, or because their number is
    /// beyond `usize`.
    #[verifier::loop_isolation(false)]
    pub fn add_program(&mut self, program: Program) -> (answer: Result<(), Error>)
        requires
            old(self)@.well_formed(),
        ensures
            final(self)@.well_formed(),
            match answer {
                Ok(()) => old(self)@.admits(program) && final(self)@ == old(self)@.with_program(
                    program,
                    final(self)@.stacks[program.id@],
                ) && final(self)@.stacks[program.id@]@ == old(self)@.stack_for(program),
                Err(error) => old(self)@.refuses(program, error) && final(self)@ == old(self)@,
            },
    {
        let ghost before = self@;
        if self.contains_program(&program.id) {
            return Err(Error::ProgramExists(program.id.clone()));
        }
        let mut external_programs: Vec<Arc<Program>> = Vec::new();
        let mut i: usize = 0;
        while i < program.imports.len()
            invariant
                before == self@,
                i <= program.imports@.len(),
                external_programs@.len() == i,
                forall|j: int|
                    0 <= j < i ==> before.programs.contains_key((#[trigger] program.imports@[j])@),
                forall|j: int|
                    0 <= j < i ==> (#[trigger] external_programs@[j])
                        == before.programs[program.imports@[j]@],
                !before.programs.contains_key(program.id@),
            decreases program.imports@.len() - i,
        {
            match registry::get_program(&self.programs, &program.imports[i].name) {
                Some(other) => {
                    external_programs.push(registry::share(other));
                },
                None => {
                    assert(before.first_unknown_import_at(program, i as int));
                    return Err(Error::ProgramNotFound(program.imports[i].clone()));
                },
            }
            i += 1;
        }
        let functions: usize = program.functions.len();
        let depth: usize = if functions <= usize::MAX - self.call_depth {
            self.call_depth + functions
        } else {
            usize::MAX
        };
        let ghost given = program;
        let key = program.id.name.clone();
        let handle = Arc::new(program);
        let stack = Stack { program: registry::share(&handle), external_programs };
        assert(stack@ =~= before.stack_for(given));
        let mut k: usize = 0;
        while k < functions
            invariant
                before == self@,
                *handle == given,
                functions == given.functions@.len(),
                k <= functions,
                depth == before.depth_with(given),
                stack@ == before.stack_for(given),
                forall|j: int| 0 <= j < k ==> before.countable_at(given, j),
                !before.programs.contains_key(given.id@),
                forall|j: int|
                    0 <= j < given.imports@.len() ==> before.programs.contains_key(
                        (#[trigger] given.imports@[j])@,
                    ),
            decreases functions - k,
        {
            if self.count_calls(&stack, &handle.functions[k].name, depth).is_none() {
                assert(before.first_unbounded_at(given, k as int));
                return Err(Error::UnboundedCalls(handle.functions[k].name.clone()));
            }
            assert(before.countable_at(given, k as int));
            k += 1;
        }
        proof {
            before.lemma_with_program(given, stack);
        }
        let ghost added = stack;
        registry::insert_program(&mut self.programs, key.clone(), handle);
        registry::insert_stack(&mut self.stacks, key, stack);
        self.call_depth = depth;
        assert(self@ =~= before.with_program(given, added));
        Ok(())
    }

    /// Returns the expected number of calls for the given program ID and function name, the
    /// function itself included.
    pub fn get_number_of_calls(&self, program_id: &ProgramID, function_name: &Identifier) -> (answer:
        Result<usize, Error>)
        requires
            self@.well_formed(),
        ensures
            match answer {
                Ok(count) => self@.number_of_calls(*program_id, *function_name) == Ok::<nat, Error>(
                    count as nat,
                ),
                Err(error) => self@.number_of_calls(*program_id, *function_name) == Err::<nat, Error>(
                    error,
                ),
            },
    {
        let stack = self.get_stack(program_id)?;
        match self.count_calls(stack, function_name, self.call_depth) {
            Some(answer) => answer,
            None => vstd::pervasive::unreached(),
        }
    }

    /// The circuit key that the stack of the given program knows for the given function.
    fn get_circuit_key(&self, program_id: &ProgramID, function_name: &Identifier) -> (key: Result<
        &CircuitKey,
        Error,
    >)
        ensures
            finds(key, self@.key_of(*program_id, *function_name)),
    {
        let stack = self.get_stack(program_id)?;
        match self.circuit_keys.get(&stack.program.id, function_name) {
            Some(key) => Ok(key),
            None => Err(Error::KeyNotFound(stack.program.id.clone(), function_name.clone())),
        }
    }

    /// Returns the proving key for the given program ID and function name.
    pub fn get_proving_key(&self, program_id: &ProgramID, function_name: &Identifier) -> (key:
        Result<&ProvingKey, Error>)
        ensures
            match key {
                Ok(key) => self@.key_of(*program_id, *function_name) is Ok && *key == self@.key_of(
                    *program_id,
                    *function_name,
                )->Ok_0.proving_key,
                Err(error) => self@.key_of(*program_id, *function_name) == Err::<CircuitKey, Error>(
                    error,
                ),
            },
    {
        match self.get_circuit_key(program_id, function_name) {
            Ok(key) => Ok(&key.proving_key),
            Err(error) => Err(error),
        }
    }

    /// Returns the verifying key for the given program ID and function name.
    pub fn get_verifying_key(&self, program_id: &ProgramID, function_name: &Identifier) -> (key:
        Result<&VerifyingKey, Error>)
        ensures
            match key {
                Ok(key) => self@.key_of(*program_id, *function_name) is Ok && *key == self@.key_of(
                    *program_id,
                    *function_name,
                )->Ok_0.verifying_key,
                Err(error) => self@.key_of(*program_id, *function_name) == Err::<CircuitKey, Error>(
                    error,
                ),
            },
    {
        match self.get_circuit_key(program_id, function_name) {
            Ok(key) => Ok(&key.verifying_key),
            Err(error) => Err(error),
        }
    }

    /// Returns the reference string that circuit keys are made from, where one was given.
    pub fn get_universal_srs(&self) -> (srs: Option<&UniversalSRS>)
        ensures
            self@.universal_srs_is(srs),
    {
        self.circuit_keys.get_universal_srs()
    }

    /// Inserts the given proving key and verifying key, for the given program ID and function
    /// name.
    pub fn insert_key(
        &mut self,
        program_id: &ProgramID,
        function_name: &Identifier,
        proving_key: ProvingKey,
        verifying_key: VerifyingKey,
    )
        ensures
            final(self)@ == old(self)@.with_key(
                program_id@,
                function_name@,
                (CircuitKey { proving_key, verifying_key }),
            ),
            old(self)@.well_formed() ==> final(self)@.well_formed(),
    {
        let ghost before = self@;
        let ghost key = CircuitKey { proving_key, verifying_key };
        // Add the circuit key to the mapping.
        self.circuit_keys.insert(
            program_id,
            function_name,
            CircuitKey { proving_key, verifying_key },
        );
        assert(self@ =~= before.with_key(program_id@, function_name@, key));
        proof {
            if before.well_formed() {
                before.lemma_with_key(program_id@, function_name@, key);
            }
        }
    }

    /// Inserts the circuit keys that were made, one after the other.
    pub fn keep(&mut self, made: Vec<MadeKey>)
        ensures
            final(self)@ == old(self)@.with_made(made@),
            old(self)@.well_formed() ==> final(self)@.well_formed(),
    {
        let ghost before = self@;
        let ghost all = made@;
        let ghost mut done: int = 0;
        let mut rest = made;
        assert(all.take(0) =~= Seq::empty());
        assert(rest@ =~= all.skip(0));
        while rest.len() > 0
            invariant
                0 <= done <= all.len(),
                rest@ == all.skip(done),
                self@ == before.with_made(all.take(done)),
            decreases rest@.len(),
        {
            let key = rest.remove(0);
            proof {
                assert(all.take(done + 1).drop_last() =~= all.take(done));
                assert(all.take(done + 1).last() == key);
                assert(rest@ =~= all.skip(done + 1));
                done = done + 1;
            }
            self.insert_key(
                &key.program_id,
                &key.function_name,
                key.key.proving_key,
                key.key.verifying_key,
            );
        }
        proof {
            assert(all.take(done) =~= all);
            before.lemma_with_made(all);
        }
    }
}

} // verus!
