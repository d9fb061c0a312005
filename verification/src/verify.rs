//! The verification of an execution.
//!
//! Whether a proof holds, and the other questions that only the machinery can answer, are put to
//! functions that are handed in. Nothing is supposed of what they return: the contract says what
//! they are asked, and what is made of every answer.

use vstd::prelude::*;
use crate::error::Error;
use crate::keys::VerifyingKey;
use crate::names::{Identifier, ProgramID};
use crate::process::{Process, ProcessView};
use crate::stack::function_calls;
use crate::transition::{Execution, Field, Proof, Transition, TransitionValue};

verus! {

/// The questions that come up in a verification.
pub struct Checks<V, K, F, C> {
    /// Whether an input or output is the one that its identifier commits to.
    pub value: V,
    /// Whether a function is a coinbase.
    pub coinbase: K,
    /// The element of the field that stands for a fee.
    pub fee: F,
    /// Whether, under the verifying key of a function, a proof proves the public inputs.
    pub proof: C,
}

/// The functions can be asked every question.
pub open spec fn can_be_asked<V, K, F, C>(checks: Checks<V, K, F, C>) -> bool where
    V: Fn(&TransitionValue) -> bool,
    K: Fn(&ProgramID, &Identifier) -> bool,
    F: Fn(i64) -> Result<Field, Error>,
    C: Fn(&VerifyingKey, &Identifier, &Vec<Field>, &Proof) -> bool,
 {
    &&& forall|value: &TransitionValue| call_requires(checks.value, (value,))
    &&& forall|id: &ProgramID, name: &Identifier| call_requires(checks.coinbase, (id, name))
    &&& forall|fee: i64| call_requires(checks.fee, (fee,))
    &&& forall|key: &VerifyingKey, name: &Identifier, inputs: &Vec<Field>, shown: &Proof|
        call_requires(checks.proof, (key, name, inputs, shown))
}

/// The input or output at `i` may be the first that is found not to hold.
pub open spec fn first_invalid_at<V>(values: Seq<TransitionValue>, check: V, i: int) -> bool where
    V: Fn(&TransitionValue) -> bool,
 {
    &&& 0 <= i < values.len()
    &&& call_ensures(check, (&values[i],), false)
    &&& forall|j: int| 0 <= j < i ==> call_ensures(check, (&#[trigger] values[j],), true)
}

/// Asked about each of the inputs or outputs in turn, `check` may find all of them `valid`, or
/// one of them not.
pub open spec fn values_outcome<V>(values: Seq<TransitionValue>, check: V, valid: bool) -> bool where
    V: Fn(&TransitionValue) -> bool,
 {
    if valid {
        forall|i: int| 0 <= i < values.len() ==> call_ensures(check, (&#[trigger] values[i],), true)
    } else {
        exists|i: int| first_invalid_at(values, check, i)
    }
}

/// The identifiers of inputs or outputs.
pub open spec fn ids(values: Seq<TransitionValue>) -> Seq<Field> {
    Seq::new(values.len(), |i: int| values[i].id)
}

/// The last `count` transitions, or all where there are fewer.
pub open spec fn last_of(transitions: Seq<Transition>, count: nat) -> Seq<Transition> {
    if count < transitions.len() {
        transitions.skip(transitions.len() - count)
    } else {
        transitions
    }
}

/// The input and output identifiers of calls, one call after the other.
pub open spec fn call_ids(calls: Seq<Transition>) -> Seq<Field>
    decreases calls.len(),
{
    if calls.len() == 0 {
        Seq::empty()
    } else {
        call_ids(calls.drop_last()) + ids(calls.last().inputs@) + ids(calls.last().outputs@)
    }
}

/// The public inputs with which a transition is proved: one and the transition public key, the
/// identifiers of its inputs, those of the transitions that are taken for its `calls`, those of
/// its outputs, and the fee.
pub open spec fn public_inputs(
    transition: Transition,
    calls: Seq<Transition>,
    fee: Field,
) -> Seq<Field> {
    seq![Field::one(), transition.tpk_x, transition.tpk_y] + ids(transition.inputs@) + call_ids(
        calls,
    ) + ids(transition.outputs@) + seq![fee]
}

impl ProcessView {
    /// How many functions a transition calls, where its fee is right: that of a coinbase is
    /// negative, and that of another is not.
    pub open spec fn calls_of(self, transition: Transition, coinbase: bool) -> Result<nat, Error> {
        if coinbase && transition.fee >= 0 {
            Err(Error::CoinbaseFee)
        } else if !coinbase && transition.fee < 0 {
            Err(Error::NegativeFee)
        } else {
            match self.stack_of(transition.program_id) {
                Err(error) => Err(error),
                Ok(stack) => match stack@.function_of(transition.function_name) {
                    Err(error) => Err(error),
                    Ok(function) => function_calls(stack@, function.instructions@),
                },
            }
        }
    }

    /// What the proof of a transition has to prove: the verifying key and the public inputs.
    pub open spec fn statement(
        self,
        transition: Transition,
        calls: Seq<Transition>,
        fee: Field,
    ) -> Result<(VerifyingKey, Seq<Field>), Error> {
        match self.key_of(transition.program_id, transition.function_name) {
            Err(error) => Err(error),
            Ok(key) => Ok((key.verifying_key, public_inputs(transition, calls, fee))),
        }
    }

    /// With the functions given, the proof of a transition whose `calls` are taken to be the ones
    /// given may be found to come to the given `answer`.
    pub open spec fn proof_outcome<F, C>(
        self,
        transition: Transition,
        calls: Seq<Transition>,
        to_field: F,
        check: C,
        answer: Result<(), Error>,
    ) -> bool where
        F: Fn(i64) -> Result<Field, Error>,
        C: Fn(&VerifyingKey, &Identifier, &Vec<Field>, &Proof) -> bool,
     {
        exists|fee: Result<Field, Error>| #[trigger]
            call_ensures(to_field, (transition.fee,), fee) && match fee {
                Err(error) => answer == Err::<(), Error>(error),
                Ok(fee) => match self.statement(transition, calls, fee) {
                    Err(error) => answer == Err::<(), Error>(error),
                    Ok((key, inputs)) => exists|valid: bool| #[trigger]
                        says(check, key, transition, inputs, valid) && answer == verdict(valid),
                },
            }
    }

    /// With the functions given, a transition whose inputs and outputs hold may come to the given
    /// `answer`. Its calls are taken to be the last `count` transitions before it, where `count` is
    /// how many functions it calls.
    pub open spec fn call_outcome<K, F, C>(
        self,
        transition: Transition,
        before: Seq<Transition>,
        is_coinbase: K,
        to_field: F,
        check: C,
        answer: Result<(), Error>,
    ) -> bool where
        K: Fn(&ProgramID, &Identifier) -> bool,
        F: Fn(i64) -> Result<Field, Error>,
        C: Fn(&VerifyingKey, &Identifier, &Vec<Field>, &Proof) -> bool,
     {
        exists|coinbase: bool| #[trigger]
            call_ensures(
                is_coinbase,
                (&transition.program_id, &transition.function_name),
                coinbase,
            ) && match self.calls_of(transition, coinbase) {
                Err(error) => answer == Err::<(), Error>(error),
                Ok(count) => self.proof_outcome(
                    transition,
                    last_of(before, count),
                    to_field,
                    check,
                    answer,
                ),
            }
    }

    /// With the functions given, [`Process::verify_transition`] may come to the given `answer`.
    pub open spec fn transition_outcome<V, K, F, C>(
        self,
        transition: Transition,
        before: Seq<Transition>,
        checks: Checks<V, K, F, C>,
        answer: Result<(), Error>,
    ) -> bool where
        V: Fn(&TransitionValue) -> bool,
        K: Fn(&ProgramID, &Identifier) -> bool,
        F: Fn(i64) -> Result<Field, Error>,
        C: Fn(&VerifyingKey, &Identifier, &Vec<Field>, &Proof) -> bool,
     {
        exists|valid: bool| #[trigger]
            values_outcome(transition.inputs@, checks.value, valid) && if !valid {
                answer == Err::<(), Error>(Error::InvalidInput)
            } else {
                exists|valid: bool| #[trigger]
                    values_outcome(transition.outputs@, checks.value, valid) && if !valid {
                        answer == Err::<(), Error>(Error::InvalidOutput)
                    } else {
                        self.call_outcome(
                            transition,
                            before,
                            checks.coinbase,
                            checks.fee,
                            checks.proof,
                            answer,
                        )
                    }
            }
    }

    /// With the functions given, the verification of the transitions, the last one first, may
    /// come to the given `answer`.
    pub open spec fn transitions_outcome<V, K, F, C>(
        self,
        transitions: Seq<Transition>,
        checks: Checks<V, K, F, C>,
        answer: Result<(), Error>,
    ) -> bool where
        V: Fn(&TransitionValue) -> bool,
        K: Fn(&ProgramID, &Identifier) -> bool,
        F: Fn(i64) -> Result<Field, Error>,
        C: Fn(&VerifyingKey, &Identifier, &Vec<Field>, &Proof) -> bool,

        decreases transitions.len(),
    {
        if transitions.len() == 0 {
            answer == Ok::<(), Error>(())
        } else {
            exists|one: Result<(), Error>| #[trigger]
                self.transition_outcome(
                    transitions.last(),
                    transitions.drop_last(),
                    checks,
                    one,
                ) && match one {
                    Ok(()) => self.transitions_outcome(
                        transitions.drop_last(),
                        checks,
                        answer,
                    ),
                    Err(error) => answer == Err::<(), Error>(error),
                }
        }
    }

    /// There is one transition for each call that the last one amounts to.
    pub open spec fn holds_each_call(self, transitions: Seq<Transition>) -> bool {
        &&& transitions.len() > 0
        &&& self.number_of_calls(transitions.last().program_id, transitions.last().function_name)
            == Ok::<nat, Error>(transitions.len())
    }

    /// With the functions given, [`Process::verify`] may come to the given `answer`.
    pub open spec fn verify_outcome<V, K, F, C>(
        self,
        transitions: Seq<Transition>,
        checks: Checks<V, K, F, C>,
        answer: Result<(), Error>,
    ) -> bool where
        V: Fn(&TransitionValue) -> bool,
        K: Fn(&ProgramID, &Identifier) -> bool,
        F: Fn(i64) -> Result<Field, Error>,
        C: Fn(&VerifyingKey, &Identifier, &Vec<Field>, &Proof) -> bool,
     {
        if transitions.len() == 0 {
            answer == Err::<(), Error>(Error::NoTransitions)
        } else {
            match self.number_of_calls(
                transitions.last().program_id,
                transitions.last().function_name,
            ) {
                Err(error) => answer == Err::<(), Error>(error),
                Ok(count) => if count != transitions.len() {
                    answer == Err::<(), Error>(
                        Error::TransitionCount {
                            expected: count as usize,
                            found: transitions.len() as usize,
                        },
                    )
                } else {
                    self.transitions_outcome(transitions, checks, answer)
                },
            }
        }
    }
}

/// What is made of the answer whether the proof of a transition holds.
pub open spec fn verdict(valid: bool) -> Result<(), Error> {
    if valid {
        Ok(())
    } else {
        Err(Error::InvalidTransition)
    }
}

/// Asked with `key` whether the proof of the transition proves the public inputs, `check` may
/// answer `valid`.
pub open spec fn says<C>(
    check: C,
    key: VerifyingKey,
    transition: Transition,
    inputs: Seq<Field>,
    valid: bool,
) -> bool where C: Fn(&VerifyingKey, &Identifier, &Vec<Field>, &Proof) -> bool {
    exists|given: Vec<Field>|
        given@ == inputs && #[trigger] call_ensures(
            check,
            (&key, &transition.function_name, &given, &transition.proof),
            valid,
        )
}

/// Asks about each of the inputs or outputs in turn, and returns `true` if all of them hold.
fn values_are_valid<V>(values: &Vec<TransitionValue>, check: &V) -> (valid: bool) where
    V: Fn(&TransitionValue) -> bool,

    requires
        forall|value: &TransitionValue| call_requires(*check, (value,)),
    ensures
        values_outcome(values@, *check, valid),
{
    let mut i: usize = 0;
    while i < values.len()
        invariant
            forall|value: &TransitionValue| call_requires(*check, (value,)),
            i <= values@.len(),
            forall|j: int|
                0 <= j < i ==> call_ensures(*check, (&#[trigger] values@[j],), true),
        decreases values@.len() - i,
    {
        if !check(&values[i]) {
            assert(first_invalid_at(values@, *check, i as int));
            return false;
        }
        i += 1;
    }
    true
}

/// Extends the public inputs with the identifiers of inputs or outputs.
fn extend_with_ids(inputs: &mut Vec<Field>, values: &Vec<TransitionValue>)
    ensures
        final(inputs)@ == old(inputs)@ + ids(values@),
{
    let ghost start = inputs@;
    let mut i: usize = 0;
    while i < values.len()
        invariant
            i <= values@.len(),
            inputs@ == start + ids(values@).take(i as int),
        decreases values@.len() - i,
    {
        inputs.push(values[i].id);
        i += 1;
        assert(inputs@ =~= start + ids(values@).take(i as int));
    }
    assert(ids(values@).take(i as int) =~= ids(values@));
}

/// Extends the public inputs with the identifiers of the last `count` of the transitions, in the
/// order in which they stand.
fn extend_with_calls(inputs: &mut Vec<Field>, transitions: &Vec<Transition>, count: usize)
    ensures
        final(inputs)@ == old(inputs)@ + call_ids(last_of(transitions@, count as nat)),
{
    let ghost start = inputs@;
    let ghost calls = last_of(transitions@, count as nat);
    let first: usize = if count < transitions.len() {
        transitions.len() - count
    } else {
        0
    };
    let mut i: usize = first;
    assert(calls.take(0) =~= Seq::empty());
    assert(inputs@ =~= start + call_ids(calls.take(0)));
    while i < transitions.len()
        invariant
            first <= i <= transitions@.len(),
            calls.len() == transitions@.len() - first,
            forall|j: int| 0 <= j < calls.len() ==> calls[j] == transitions@[first + j],
            inputs@ == start + call_ids(calls.take(i - first)),
        decreases transitions@.len() - i,
    {
        let ghost done = i - first;
        extend_with_ids(inputs, &transitions[i].inputs);
        extend_with_ids(inputs, &transitions[i].outputs);
        proof {
            assert(calls.take(done + 1).drop_last() =~= calls.take(done));
            assert(calls.take(done + 1).last() == transitions@[i as int]);
            assert(inputs@ =~= start + call_ids(calls.take(done + 1)));
        }
        i += 1;
    }
    assert(calls.take(i - first) =~= calls);
}

impl<const ID: u16> Process<ID> {
    /// Returns how many functions a transition calls, once its fee is right.
    pub fn get_calls(&self, transition: &Transition, coinbase: bool) -> (calls: Result<
        usize,
        Error,
    >)
        ensures
            match calls {
                Ok(count) => self@.calls_of(*transition, coinbase) == Ok::<nat, Error>(
                    count as nat,
                ),
                Err(error) => self@.calls_of(*transition, coinbase) == Err::<nat, Error>(error),
            },
    {
        // Ensure the fee is correct.
        if coinbase {
            if transition.fee >= 0 {
                return Err(Error::CoinbaseFee);
            }
        } else if transition.fee < 0 {
            return Err(Error::NegativeFee);
        }
        // Retrieve the stack, and the function from it.
        let stack = self.get_stack(&transition.program_id)?;
        let function = stack.get_function(&transition.function_name)?;
        // Determine the number of function calls in this function.
        stack.count_function_calls(function)
    }

    /// Returns what the proof of a transition has to prove: the verifying key and the public
    /// inputs. Its calls are taken to be the last `count` transitions `before` it.
    pub fn get_statement(
        &self,
        transition: &Transition,
        before: &Vec<Transition>,
        count: usize,
        fee: Field,
    ) -> (statement: Result<(&VerifyingKey, Vec<Field>), Error>)
        ensures
            match statement {
                Ok((key, inputs)) => self@.statement(
                    *transition,
                    last_of(before@, count as nat),
                    fee,
                ) == Ok::<_, Error>((*key, inputs@)),
                Err(error) => self@.statement(*transition, last_of(before@, count as nat), fee)
                    == Err::<(VerifyingKey, Seq<Field>), Error>(error),
            },
    {
        // Construct the public inputs to verify the proof.
        let mut inputs: Vec<Field> = Vec::new();
        inputs.push(Field::one());
        inputs.push(transition.tpk_x);
        inputs.push(transition.tpk_y);
        assert(inputs@ =~= seq![Field::one(), transition.tpk_x, transition.tpk_y]);
        // Extend the inputs with the input IDs.
        extend_with_ids(&mut inputs, &transition.inputs);
        // If there are function calls, append their inputs and outputs.
        extend_with_calls(&mut inputs, before, count);
        // Lastly, extend the inputs with the output IDs and fee.
        extend_with_ids(&mut inputs, &transition.outputs);
        inputs.push(fee);
        assert(inputs@ =~= public_inputs(*transition, last_of(before@, count as nat), fee));
        // Retrieve the verifying key.
        let verifying_key = self.get_verifying_key(
            &transition.program_id,
            &transition.function_name,
        )?;
        Ok((verifying_key, inputs))
    }

    /// Verifies a program call for the given execution. Nothing is asked where the number of its
    /// transitions is wrong.
    pub fn verify<V, K, F, C>(&self, execution: Execution, checks: Checks<V, K, F, C>) -> (answer:
        Result<(), Error>) where
        V: Fn(&TransitionValue) -> bool,
        K: Fn(&ProgramID, &Identifier) -> bool,
        F: Fn(i64) -> Result<Field, Error>,
        C: Fn(&VerifyingKey, &Identifier, &Vec<Field>, &Proof) -> bool,

        requires
            self@.well_formed(),
            self@.holds_each_call(execution.transitions@) ==> can_be_asked(checks),
        ensures
            self@.verify_outcome(execution.transitions@, checks, answer),
    {
        let ghost all = execution.transitions@;
        let length: usize = execution.transitions.len();
        // Ensure the execution contains transitions.
        if length == 0 {
            return Err(Error::NoTransitions);
        }
        // Ensure the number of transitions matches the program function.
        let last = &execution.transitions[length - 1];
        let number_of_calls: usize = self.get_number_of_calls(
            &last.program_id,
            &last.function_name,
        )?;
        if number_of_calls != length {
            return Err(Error::TransitionCount { expected: number_of_calls, found: length });
        }
        // Replicate the execution stack for verification.
        let mut queue = execution.transitions;
        // Verify each transition.
        #[verifier::loop_isolation(false)]
        while queue.len() > 0
            invariant
                forall|answer: Result<(), Error>|
                    self@.transitions_outcome(queue@, checks, answer)
                        ==> #[trigger] self@.verify_outcome(all, checks, answer),
            decreases queue@.len(),
        {
            let ghost rest = queue@;
            if let Some(transition) = queue.pop() {
                assert(transition == rest.last() && queue@ == rest.drop_last());
                let one = self.verify_transition(&transition, &queue, &checks);
                assert(self@.transition_outcome(rest.last(), rest.drop_last(), checks, one));
                if let Err(error) = one {
                    assert(self@.transitions_outcome(rest, checks, Err::<(), Error>(error)));
                    return Err(error);
                }
                assert forall|answer: Result<(), Error>|
                    self@.transitions_outcome(queue@, checks, answer) implies #[trigger] self@.verify_outcome(
                all, checks, answer) by {
                    assert(self@.transitions_outcome(rest, checks, answer));
                }
            }
        }
        assert(self@.transitions_outcome(queue@, checks, Ok::<(), Error>(())));
        Ok(())
    }

    /// Verifies one transition. Its calls are taken to be the last transitions `before` it, as
    /// many as it calls functions.
    pub fn verify_transition<V, K, F, C>(
        &self,
        transition: &Transition,
        before: &Vec<Transition>,
        checks: &Checks<V, K, F, C>,
    ) -> (answer: Result<(), Error>) where
        V: Fn(&TransitionValue) -> bool,
        K: Fn(&ProgramID, &Identifier) -> bool,
        F: Fn(i64) -> Result<Field, Error>,
        C: Fn(&VerifyingKey, &Identifier, &Vec<Field>, &Proof) -> bool,

        requires
            can_be_asked(*checks),
        ensures
            self@.transition_outcome(*transition, before@, *checks, answer),
    {
        // Ensure each input is valid.
        if !values_are_valid(&transition.inputs, &checks.value) {
            return Err(Error::InvalidInput);
        }
        // Ensure each output is valid.
        if !values_are_valid(&transition.outputs, &checks.value) {
            return Err(Error::InvalidOutput);
        }
        assert(values_outcome(transition.inputs@, checks.value, true));
        assert(values_outcome(transition.outputs@, checks.value, true));
        // Ensure the fee is correct, and determine the number of function calls.
        let is_coinbase = &checks.coinbase;
        let coinbase = is_coinbase(&transition.program_id, &transition.function_name);
        let count: usize = self.get_calls(transition, coinbase)?;
        // Construct the public inputs, and retrieve the verifying key.
        let to_field = &checks.fee;
        let fee = to_field(transition.fee)?;
        let (verifying_key, inputs) = self.get_statement(transition, before, count, fee)?;
        // Ensure the proof is valid.
        let check = &checks.proof;
        let valid = check(verifying_key, &transition.function_name, &inputs, &transition.proof);
        proof {
            let calls = last_of(before@, count as nat);
            let stated = self@.statement(*transition, calls, fee)->Ok_0;
            assert(says(checks.proof, stated.0, *transition, stated.1, valid));
        }
        if valid {
            Ok(())
        } else {
            Err(Error::InvalidTransition)
        }
    }
}

} // verus!
