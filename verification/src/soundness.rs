//! What it means that an execution is verified, or is not.

use vstd::prelude::*;
use crate::error::Error;
use crate::keys::{CircuitKey, VerifyingKey};
use crate::laws::{
    added_program_leaves_the_counts, inserted_key_leaves_the_others,
    programs_and_stacks_go_together,
};
use crate::names::{Identifier, ProgramID};
use crate::process::ProcessView;
use crate::program::Program;
use crate::stack::Stack;
use crate::transition::{Field, Proof, Transition, TransitionValue};
use crate::verify::{call_ids, ids, last_of, public_inputs, says, values_outcome, verdict, Checks};

verus! {

/// The transition at `i` may have been found to hold: its inputs and outputs match their
/// identifiers, and its proof was accepted for what it has to prove.
pub open spec fn holds_at<V, K, F, C>(
    process: ProcessView,
    transitions: Seq<Transition>,
    i: int,
    checks: Checks<V, K, F, C>,
) -> bool where
    V: Fn(&TransitionValue) -> bool,
    K: Fn(&ProgramID, &Identifier) -> bool,
    F: Fn(i64) -> Result<Field, Error>,
    C: Fn(&VerifyingKey, &Identifier, &Vec<Field>, &Proof) -> bool,
 {
    let transition = transitions[i];
    &&& values_outcome(transition.inputs@, checks.value, true)
    &&& values_outcome(transition.outputs@, checks.value, true)
    &&& exists|coinbase: bool| #[trigger]
        call_ensures(checks.coinbase, (&transition.program_id, &transition.function_name), coinbase)
            && (process.calls_of(transition, coinbase) matches Ok(count) && process.proof_outcome(
            transition,
            last_of(transitions.take(i), count),
            checks.fee,
            checks.proof,
            Ok::<(), Error>(()),
        ))
}

/// An execution that is verified holds one transition for each call that its last one amounts
/// to, and each of them was found to hold.
pub proof fn verified_execution_holds<V, K, F, C>(
    process: ProcessView,
    transitions: Seq<Transition>,
    checks: Checks<V, K, F, C>,
) where
    V: Fn(&TransitionValue) -> bool,
    K: Fn(&ProgramID, &Identifier) -> bool,
    F: Fn(i64) -> Result<Field, Error>,
    C: Fn(&VerifyingKey, &Identifier, &Vec<Field>, &Proof) -> bool,

    requires
        process.verify_outcome(transitions, checks, Ok::<(), Error>(())),
    ensures
        transitions.len() > 0,
        process.number_of_calls(transitions.last().program_id, transitions.last().function_name)
            == Ok::<nat, Error>(transitions.len()),
        forall|i: int|
            0 <= i < transitions.len() ==> holds_at(process, transitions, i, checks),
{
    lemma_transitions_hold(process, transitions, checks);
}

proof fn lemma_transitions_hold<V, K, F, C>(
    process: ProcessView,
    transitions: Seq<Transition>,
    checks: Checks<V, K, F, C>,
) where
    V: Fn(&TransitionValue) -> bool,
    K: Fn(&ProgramID, &Identifier) -> bool,
    F: Fn(i64) -> Result<Field, Error>,
    C: Fn(&VerifyingKey, &Identifier, &Vec<Field>, &Proof) -> bool,

    requires
        process.transitions_outcome(transitions, checks, Ok::<(), Error>(())),
    ensures
        forall|i: int|
            0 <= i < transitions.len() ==> holds_at(process, transitions, i, checks),
    decreases transitions.len(),
{
    if transitions.len() > 0 {
        let front = transitions.drop_last();
        lemma_transitions_hold(process, front, checks);
        assert forall|i: int| 0 <= i < transitions.len() implies holds_at(
            process,
            transitions,
            i,
            checks,
        ) by {
            assert(transitions.take(i) =~= front.take(i));
            if i < front.len() {
                assert(holds_at(process, front, i, checks));
                assert(transitions[i] == front[i]);
            } else {
                assert(front.take(i) =~= front);
            }
        }
    }
}

/// A transition whose proof was accepted is of a function that the process knows, with its
/// circuit key. Its fee is negative if and only if it is a coinbase, and the proof was accepted
/// for the public inputs of the transition, of the last `count` transitions before it, and of the
/// fee.
pub proof fn accepted_proofs_are_of_known_functions<F, C>(
    process: ProcessView,
    transition: Transition,
    before: Seq<Transition>,
    coinbase: bool,
    count: nat,
    to_field: F,
    check: C,
) where
    F: Fn(i64) -> Result<Field, Error>,
    C: Fn(&VerifyingKey, &Identifier, &Vec<Field>, &Proof) -> bool,

    requires
        process.well_formed(),
        process.calls_of(transition, coinbase) == Ok::<nat, Error>(count),
        process.proof_outcome(
            transition,
            last_of(before, count),
            to_field,
            check,
            Ok::<(), Error>(()),
        ),
    ensures
        transition.fee < 0 <==> coinbase,
        process.program_of(transition.program_id) matches Ok(program) && program.has_function(
            transition.function_name@,
        ),
        process.key_of(transition.program_id, transition.function_name) matches Ok(key) && exists|
            fee: Field,
        |
            #![trigger public_inputs(transition, last_of(before, count), fee)]
            call_ensures(to_field, (transition.fee,), Ok::<Field, Error>(fee)) && says(
                check,
                key.verifying_key,
                transition,
                public_inputs(transition, last_of(before, count), fee),
                true,
            ),
{
    programs_and_stacks_go_together(process, transition.program_id);
    let calls = last_of(before, count);
    let fee = choose|fee: Result<Field, Error>| #[trigger]
        call_ensures(to_field, (transition.fee,), fee) && match fee {
            Err(error) => Ok::<(), Error>(()) == Err::<(), Error>(error),
            Ok(fee) => match process.statement(transition, calls, fee) {
                Err(error) => Ok::<(), Error>(()) == Err::<(), Error>(error),
                Ok((key, inputs)) => exists|valid: bool| #[trigger]
                    says(check, key, transition, inputs, valid) && Ok::<(), Error>(()) == verdict(
                        valid,
                    ),
            },
        };
    let inputs = public_inputs(transition, calls, fee->Ok_0);
    let key = process.key_of(transition.program_id, transition.function_name)->Ok_0;
    assert(process.statement(transition, calls, fee->Ok_0) == Ok::<_, Error>(
        (key.verifying_key, inputs),
    ));
    assert(says(check, key.verifying_key, transition, inputs, true));
}

/// The transition at `i` holds whatever is answered: its inputs and outputs match their
/// identifiers, there is something to prove, and its proof is not rejected.
pub open spec fn certain_at<V, K, F, C>(
    process: ProcessView,
    transitions: Seq<Transition>,
    i: int,
    checks: Checks<V, K, F, C>,
) -> bool where
    V: Fn(&TransitionValue) -> bool,
    K: Fn(&ProgramID, &Identifier) -> bool,
    F: Fn(i64) -> Result<Field, Error>,
    C: Fn(&VerifyingKey, &Identifier, &Vec<Field>, &Proof) -> bool,
 {
    let transition = transitions[i];
    &&& !values_outcome(transition.inputs@, checks.value, false)
    &&& !values_outcome(transition.outputs@, checks.value, false)
    &&& forall|coinbase: bool| #[trigger]
        call_ensures(checks.coinbase, (&transition.program_id, &transition.function_name), coinbase)
            ==> (process.calls_of(transition, coinbase) matches Ok(count) && proof_is_certain(
            process,
            transition,
            last_of(transitions.take(i), count),
            checks.fee,
            checks.proof,
        ))
}

/// The proof of a transition holds whatever is answered: its fee is in the field, its function
/// has a circuit key, and the proof is not rejected.
pub open spec fn proof_is_certain<F, C>(
    process: ProcessView,
    transition: Transition,
    calls: Seq<Transition>,
    to_field: F,
    check: C,
) -> bool where
    F: Fn(i64) -> Result<Field, Error>,
    C: Fn(&VerifyingKey, &Identifier, &Vec<Field>, &Proof) -> bool,
 {
    forall|fee: Result<Field, Error>| #[trigger]
        call_ensures(to_field, (transition.fee,), fee) ==> (fee matches Ok(fee)
            && process.statement(transition, calls, fee) matches Ok(stated) && !says(
            check,
            stated.0,
            transition,
            stated.1,
            false,
        ))
}

/// The execution holds one transition for each call, all of which hold whatever is answered.
pub open spec fn valid_execution<V, K, F, C>(
    process: ProcessView,
    transitions: Seq<Transition>,
    checks: Checks<V, K, F, C>,
) -> bool where
    V: Fn(&TransitionValue) -> bool,
    K: Fn(&ProgramID, &Identifier) -> bool,
    F: Fn(i64) -> Result<Field, Error>,
    C: Fn(&VerifyingKey, &Identifier, &Vec<Field>, &Proof) -> bool,
 {
    &&& process.holds_each_call(transitions)
    &&& forall|i: int| 0 <= i < transitions.len() ==> certain_at(process, transitions, i, checks)
}

/// An execution that holds one transition for each call, all of which hold whatever is answered,
/// is verified.
pub proof fn valid_execution_is_verified<V, K, F, C>(
    process: ProcessView,
    transitions: Seq<Transition>,
    checks: Checks<V, K, F, C>,
    answer: Result<(), Error>,
) where
    V: Fn(&TransitionValue) -> bool,
    K: Fn(&ProgramID, &Identifier) -> bool,
    F: Fn(i64) -> Result<Field, Error>,
    C: Fn(&VerifyingKey, &Identifier, &Vec<Field>, &Proof) -> bool,

    requires
        valid_execution(process, transitions, checks),
        process.verify_outcome(transitions, checks, answer),
    ensures
        answer is Ok,
{
    lemma_transitions_pass(process, transitions, checks, answer);
}

proof fn lemma_transitions_pass<V, K, F, C>(
    process: ProcessView,
    transitions: Seq<Transition>,
    checks: Checks<V, K, F, C>,
    answer: Result<(), Error>,
) where
    V: Fn(&TransitionValue) -> bool,
    K: Fn(&ProgramID, &Identifier) -> bool,
    F: Fn(i64) -> Result<Field, Error>,
    C: Fn(&VerifyingKey, &Identifier, &Vec<Field>, &Proof) -> bool,

    requires
        forall|i: int|
            0 <= i < transitions.len() ==> certain_at(process, transitions, i, checks),
        process.transitions_outcome(transitions, checks, answer),
    ensures
        answer is Ok,
    decreases transitions.len(),
{
    if transitions.len() > 0 {
        let front = transitions.drop_last();
        let last = transitions.len() - 1;
        assert(certain_at(process, transitions, last, checks));
        assert(transitions.take(last) =~= front);
        assert forall|i: int| 0 <= i < front.len() implies certain_at(
            process,
            front,
            i,
            checks,
        ) by {
            assert(certain_at(process, transitions, i, checks));
            assert(transitions.take(i) =~= front.take(i));
        }
        assert(process.transitions_outcome(front, checks, answer));
        lemma_transitions_pass(process, front, checks, answer);
    }
}

/// A function answers each question about an input or output in one way.
pub open spec fn values_are_settled<V>(check: V) -> bool where V: Fn(&TransitionValue) -> bool {
    forall|value: &TransitionValue, one: bool, other: bool| #[trigger]
        call_ensures(check, (value,), one) && #[trigger] call_ensures(check, (value,), other)
            ==> one == other
}

/// A function answers each question about a coinbase in one way.
pub open spec fn coinbases_are_settled<K>(is_coinbase: K) -> bool where
    K: Fn(&ProgramID, &Identifier) -> bool,
 {
    forall|id: &ProgramID, name: &Identifier, one: bool, other: bool| #[trigger]
        call_ensures(is_coinbase, (id, name), one) && #[trigger] call_ensures(
            is_coinbase,
            (id, name),
            other,
        ) ==> one == other
}

/// A function finds one element of the field for each fee.
pub open spec fn fees_are_settled<F>(to_field: F) -> bool where F: Fn(i64) -> Result<Field, Error> {
    forall|fee: i64, one: Result<Field, Error>, other: Result<Field, Error>| #[trigger]
        call_ensures(to_field, (fee,), one) && #[trigger] call_ensures(to_field, (fee,), other)
            ==> one == other
}

/// A function answers each question on a proof in one way, by what the public inputs hold.
pub open spec fn proofs_are_settled<C>(check: C) -> bool where
    C: Fn(&VerifyingKey, &Identifier, &Vec<Field>, &Proof) -> bool,
 {
    forall|
        key: VerifyingKey,
        transition: Transition,
        inputs: Seq<Field>,
        one: bool,
        other: bool,
    | #[trigger]
        says(check, key, transition, inputs, one) && #[trigger] says(
            check,
            key,
            transition,
            inputs,
            other,
        ) ==> one == other
}

/// Each question is answered in one way.
pub open spec fn checks_are_settled<V, K, F, C>(checks: Checks<V, K, F, C>) -> bool where
    V: Fn(&TransitionValue) -> bool,
    K: Fn(&ProgramID, &Identifier) -> bool,
    F: Fn(i64) -> Result<Field, Error>,
    C: Fn(&VerifyingKey, &Identifier, &Vec<Field>, &Proof) -> bool,
 {
    &&& values_are_settled(checks.value)
    &&& coinbases_are_settled(checks.coinbase)
    &&& fees_are_settled(checks.fee)
    &&& proofs_are_settled(checks.proof)
}

/// Where each question is answered in one way, so is the verification of an execution: it comes
/// to one answer.
pub proof fn verification_is_settled<V, K, F, C>(
    process: ProcessView,
    transitions: Seq<Transition>,
    checks: Checks<V, K, F, C>,
    one: Result<(), Error>,
    other: Result<(), Error>,
) where
    V: Fn(&TransitionValue) -> bool,
    K: Fn(&ProgramID, &Identifier) -> bool,
    F: Fn(i64) -> Result<Field, Error>,
    C: Fn(&VerifyingKey, &Identifier, &Vec<Field>, &Proof) -> bool,

    requires
        checks_are_settled(checks),
        process.verify_outcome(transitions, checks, one),
        process.verify_outcome(transitions, checks, other),
    ensures
        one == other,
{
    if process.transitions_outcome(transitions, checks, one)
        && process.transitions_outcome(transitions, checks, other) {
        lemma_transitions_settled(process, transitions, checks, one, other);
    }
}

proof fn lemma_transitions_settled<V, K, F, C>(
    process: ProcessView,
    transitions: Seq<Transition>,
    checks: Checks<V, K, F, C>,
    one: Result<(), Error>,
    other: Result<(), Error>,
) where
    V: Fn(&TransitionValue) -> bool,
    K: Fn(&ProgramID, &Identifier) -> bool,
    F: Fn(i64) -> Result<Field, Error>,
    C: Fn(&VerifyingKey, &Identifier, &Vec<Field>, &Proof) -> bool,

    requires
        checks_are_settled(checks),
        process.transitions_outcome(transitions, checks, one),
        process.transitions_outcome(transitions, checks, other),
    ensures
        one == other,
    decreases transitions.len(),
{
    if transitions.len() > 0 {
        let last = transitions.last();
        let front = transitions.drop_last();
        let first = choose|first: Result<(), Error>| #[trigger]
            process.transition_outcome(last, front, checks, first) && match first {
                Ok(()) => process.transitions_outcome(front, checks, one),
                Err(error) => one == Err::<(), Error>(error),
            };
        let second = choose|second: Result<(), Error>| #[trigger]
            process.transition_outcome(last, front, checks, second) && match second {
                Ok(()) => process.transitions_outcome(front, checks, other),
                Err(error) => other == Err::<(), Error>(error),
            };
        assert(first == second);
        if first is Ok {
            lemma_transitions_settled(process, front, checks, one, other);
        }
    }
}

/// A program that is added does not change what the transitions of the others call and have to
/// prove.
pub proof fn added_program_leaves_the_statements(
    process: ProcessView,
    program: Program,
    stack: Stack,
    transition: Transition,
    coinbase: bool,
    calls: Seq<Transition>,
    fee: Field,
)
    requires
        transition.program_id@ != program.id@,
    ensures
        process.with_program(program, stack).calls_of(transition, coinbase) == process.calls_of(
            transition,
            coinbase,
        ),
        process.with_program(program, stack).statement(transition, calls, fee)
            == process.statement(transition, calls, fee),
{
}

/// A program that is added does not change which executions of the others are verified.
pub proof fn added_program_leaves_the_verification<V, K, F, C>(
    process: ProcessView,
    program: Program,
    stack: Stack,
    transitions: Seq<Transition>,
    checks: Checks<V, K, F, C>,
    answer: Result<(), Error>,
) where
    V: Fn(&TransitionValue) -> bool,
    K: Fn(&ProgramID, &Identifier) -> bool,
    F: Fn(i64) -> Result<Field, Error>,
    C: Fn(&VerifyingKey, &Identifier, &Vec<Field>, &Proof) -> bool,

    requires
        process.well_formed(),
        process.admits(program),
        stack@ == process.stack_for(program),
        forall|i: int|
            0 <= i < transitions.len() ==> (#[trigger] transitions[i]).program_id@ != program.id@,
    ensures
        process.with_program(program, stack).verify_outcome(
            transitions,
            checks,
            answer,
        ) == process.verify_outcome(transitions, checks, answer),
{
    if transitions.len() > 0 {
        let last = transitions.last();
        assert(last == transitions[transitions.len() - 1]);
        added_program_leaves_the_counts(
            process,
            program,
            stack,
            last.program_id,
            last.function_name,
        );
        lemma_same_transitions(
            process,
            process.with_program(program, stack),
            transitions,
            checks,
            answer,
        );
    }
}

/// A circuit key that is inserted does not change which executions are verified that do not call
/// its function.
pub proof fn inserted_key_leaves_the_verification<V, K, F, C>(
    process: ProcessView,
    program_id: ProgramID,
    function_name: Identifier,
    key: CircuitKey,
    transitions: Seq<Transition>,
    checks: Checks<V, K, F, C>,
    answer: Result<(), Error>,
) where
    V: Fn(&TransitionValue) -> bool,
    K: Fn(&ProgramID, &Identifier) -> bool,
    F: Fn(i64) -> Result<Field, Error>,
    C: Fn(&VerifyingKey, &Identifier, &Vec<Field>, &Proof) -> bool,

    requires
        process.well_formed(),
        forall|i: int|
            0 <= i < transitions.len() ==> (#[trigger] transitions[i]).program_id@ != program_id@
                || transitions[i].function_name@ != function_name@,
    ensures
        process.with_key(program_id@, function_name@, key).verify_outcome(
            transitions,
            checks,
            answer,
        ) == process.verify_outcome(transitions, checks, answer),
{
    let after = process.with_key(program_id@, function_name@, key);
    assert forall|i: int| 0 <= i < transitions.len() implies same_for(
        process,
        after,
        #[trigger] transitions[i],
    ) by {
        let transition = transitions[i];
        inserted_key_leaves_the_others(
            process,
            program_id,
            function_name,
            key,
            transition.program_id,
            transition.function_name,
        );
    }
    lemma_same_transitions(process, after, transitions, checks, answer);
}

/// Both processes know the same of the function of the transition.
spec fn same_for(process: ProcessView, after: ProcessView, transition: Transition) -> bool {
    &&& after.stack_of(transition.program_id) == process.stack_of(transition.program_id)
    &&& after.key_of(transition.program_id, transition.function_name) == process.key_of(
        transition.program_id,
        transition.function_name,
    )
}

proof fn lemma_same_transitions<V, K, F, C>(
    process: ProcessView,
    after: ProcessView,
    transitions: Seq<Transition>,
    checks: Checks<V, K, F, C>,
    answer: Result<(), Error>,
) where
    V: Fn(&TransitionValue) -> bool,
    K: Fn(&ProgramID, &Identifier) -> bool,
    F: Fn(i64) -> Result<Field, Error>,
    C: Fn(&VerifyingKey, &Identifier, &Vec<Field>, &Proof) -> bool,

    requires
        forall|i: int|
            0 <= i < transitions.len() ==> same_for(process, after, #[trigger] transitions[i]),
    ensures
        after.transitions_outcome(transitions, checks, answer) == process.transitions_outcome(
            transitions,
            checks,
            answer,
        ),
    decreases transitions.len(),
{
    if transitions.len() > 0 {
        let last = transitions.last();
        let front = transitions.drop_last();
        assert(same_for(process, after, transitions[transitions.len() - 1]));
        assert forall|i: int| 0 <= i < front.len() implies same_for(
            process,
            after,
            #[trigger] front[i],
        ) by {
            assert(front[i] == transitions[i]);
        }
        lemma_same_transitions(process, after, front, checks, answer);
        assert forall|one: Result<(), Error>|
            after.transition_outcome(last, front, checks, one) == process.transition_outcome(
                last,
                front,
                checks,
                one,
            ) by {
            lemma_same_transition(process, after, last, front, checks, one);
        }
    }
}

proof fn lemma_same_transition<V, K, F, C>(
    process: ProcessView,
    after: ProcessView,
    transition: Transition,
    before: Seq<Transition>,
    checks: Checks<V, K, F, C>,
    answer: Result<(), Error>,
) where
    V: Fn(&TransitionValue) -> bool,
    K: Fn(&ProgramID, &Identifier) -> bool,
    F: Fn(i64) -> Result<Field, Error>,
    C: Fn(&VerifyingKey, &Identifier, &Vec<Field>, &Proof) -> bool,

    requires
        same_for(process, after, transition),
    ensures
        after.transition_outcome(transition, before, checks, answer) == process.transition_outcome(
            transition,
            before,
            checks,
            answer,
        ),
{
    assert forall|calls: Seq<Transition>|
        after.proof_outcome(transition, calls, checks.fee, checks.proof, answer)
            == process.proof_outcome(transition, calls, checks.fee, checks.proof, answer) by {}
    assert(after.call_outcome(
        transition,
        before,
        checks.coinbase,
        checks.fee,
        checks.proof,
        answer,
    ) == process.call_outcome(
        transition,
        before,
        checks.coinbase,
        checks.fee,
        checks.proof,
        answer,
    ));
}

/// How many public inputs calls amount to.
pub open spec fn values_of(calls: Seq<Transition>) -> nat
    decreases calls.len(),
{
    if calls.len() == 0 {
        0
    } else {
        values_of(calls.drop_last()) + calls.last().inputs@.len() + calls.last().outputs@.len()
    }
}

/// The public inputs begin with one and the transition public key, then come the inputs, and
/// they end with the outputs and the fee. There is one for each input and output of the
/// transition and of the transitions that are taken for its calls.
pub proof fn public_inputs_have_their_places(
    transition: Transition,
    calls: Seq<Transition>,
    fee: Field,
)
    ensures
        ({
            let all = public_inputs(transition, calls, fee);
            let inputs = transition.inputs@.len();
            let outputs = transition.outputs@.len();
            &&& all.len() == 4 + inputs + values_of(calls) + outputs
            &&& all.take(3) == seq![Field::one(), transition.tpk_x, transition.tpk_y]
            &&& all.subrange(3, 3 + inputs as int) == ids(transition.inputs@)
            &&& all.subrange(all.len() - 1 - outputs, all.len() - 1) == ids(transition.outputs@)
            &&& all.last() == fee
        }),
{
    lemma_call_ids(calls);
    let all = public_inputs(transition, calls, fee);
    let inputs = transition.inputs@.len();
    let outputs = transition.outputs@.len();
    assert(all.take(3) =~= seq![Field::one(), transition.tpk_x, transition.tpk_y]);
    assert(all.subrange(3, 3 + inputs as int) =~= ids(transition.inputs@));
    assert(all.subrange(all.len() - 1 - outputs, all.len() - 1) =~= ids(transition.outputs@));
}

proof fn lemma_call_ids(calls: Seq<Transition>)
    ensures
        call_ids(calls).len() == values_of(calls),
    decreases calls.len(),
{
    if calls.len() > 0 {
        lemma_call_ids(calls.drop_last());
    }
}

} // verus!
