//! What it takes for an execution to be verified, by every input, output, fee, function, circuit key
//! and proof of its transitions.

use vstd::prelude::*;
use crate::error::Error;
use crate::keys::VerifyingKey;
use crate::lookups::{
    calls_a_function, calls_astray, defines, first_astray_at, function_calls_are_counted,
    functions_are_found_by_name, maps_are_looked_up, stacks_find_functions, stands_at,
};
use crate::names::{Identifier, ProgramID};
use crate::process::ProcessView;
use crate::program::Instruction;
use crate::stack::{function_calls, StackView};
use crate::transition::{Field, Proof, Transition, TransitionValue};
use crate::verify::{
    call_ids, can_be_asked, first_invalid_at, ids, last_of, public_inputs, says, values_outcome,
    verdict, Checks,
};

verus! {

/// The public inputs that a proof is for: the number one, the coordinates of the transition public
/// key, the identifiers of the inputs, those of the inputs and outputs of each of the `calls` in
/// turn, those of the outputs, and the fee.
pub open spec fn listed(transition: Transition, calls: Seq<Transition>, fee: Field) -> Seq<Field> {
    seq![Field { low: 1, high: 0 }, transition.tpk_x, transition.tpk_y]
        + transition.inputs@.map_values(|value: TransitionValue| value.id) + calls.map_values(
        |call: Transition|
            call.inputs@.map_values(|value: TransitionValue| value.id) + call.outputs@.map_values(
                |value: TransitionValue| value.id,
            ),
    ).flatten() + transition.outputs@.map_values(|value: TransitionValue| value.id) + seq![fee]
}

/// The last `count` of the transitions, or all of them.
pub open spec fn tail(before: Seq<Transition>, count: nat) -> Seq<Transition> {
    before.subrange(
        if count <= before.len() {
            before.len() - count
        } else {
            0
        },
        before.len() as int,
    )
}

/// How many of the instructions call a function.
pub open spec fn callers(stack: StackView, instructions: Seq<Instruction>) -> nat {
    instructions.filter(|instruction: Instruction| calls_a_function(stack, instruction)).len()
}

/// The public inputs are listed in their order, and the calls that they are for are the last
/// transitions before.
pub proof fn public_inputs_are_listed(
    transition: Transition,
    before: Seq<Transition>,
    count: nat,
    fee: Field,
)
    ensures
        last_of(before, count) == tail(before, count),
        public_inputs(transition, last_of(before, count), fee) == listed(
            transition,
            tail(before, count),
            fee,
        ),
{
    assert(last_of(before, count) =~= tail(before, count));
    lemma_call_ids_flat(tail(before, count));
    assert(ids(transition.inputs@) =~= transition.inputs@.map_values(
        |value: TransitionValue| value.id,
    ));
    assert(ids(transition.outputs@) =~= transition.outputs@.map_values(
        |value: TransitionValue| value.id,
    ));
}

proof fn lemma_call_ids_flat(calls: Seq<Transition>)
    ensures
        call_ids(calls) == calls.map_values(
            |call: Transition|
                call.inputs@.map_values(|value: TransitionValue| value.id)
                    + call.outputs@.map_values(|value: TransitionValue| value.id),
        ).flatten(),
    decreases calls.len(),
{
    let of_call = |call: Transition|
        call.inputs@.map_values(|value: TransitionValue| value.id) + call.outputs@.map_values(
            |value: TransitionValue| value.id,
        );
    let parts = calls.map_values(of_call);
    parts.lemma_flatten_and_flatten_alt_are_equivalent();
    if calls.len() > 0 {
        let front = calls.drop_last();
        lemma_call_ids_flat(front);
        assert(parts.drop_last() =~= front.map_values(of_call));
        front.map_values(of_call).lemma_flatten_and_flatten_alt_are_equivalent();
        let last = calls.last();
        assert(ids(last.inputs@) =~= last.inputs@.map_values(|value: TransitionValue| value.id));
        assert(ids(last.outputs@) =~= last.outputs@.map_values(|value: TransitionValue| value.id));
        assert(parts.last() == of_call(last));
        assert(call_ids(calls) =~= parts.drop_last().flatten_alt() + parts.last());
    }
}

/// What the functions may answer about the proof of the transition, under the verifying key that is
/// held for its function.
pub open spec fn proof_may_be<C>(
    process: ProcessView,
    transition: Transition,
    calls: Seq<Transition>,
    fee: Field,
    check: C,
    valid: bool,
) -> bool where C: Fn(&VerifyingKey, &Identifier, &Vec<Field>, &Proof) -> bool {
    exists|given: Vec<Field>|
        given@ == listed(transition, calls, fee) && #[trigger] call_ensures(
            check,
            (
                &process.keys[(transition.program_id@, transition.function_name@)].verifying_key,
                &transition.function_name,
                &given,
                &transition.proof,
            ),
            valid,
        )
}

/// Each of the inputs or outputs may be found to hold.
pub open spec fn all_may_hold<V>(values: Seq<TransitionValue>, check: V) -> bool where
    V: Fn(&TransitionValue) -> bool,
 {
    forall|i: int| 0 <= i < values.len() ==> call_ensures(check, (&#[trigger] values[i],), true)
}

/// One of the inputs or outputs may be found not to hold.
pub open spec fn one_may_fail<V>(values: Seq<TransitionValue>, check: V) -> bool where
    V: Fn(&TransitionValue) -> bool,
 {
    exists|i: int| 0 <= i < values.len() && call_ensures(check, (&#[trigger] values[i],), false)
}

/// The transition is of a function that the process holds with a circuit key, every input and output
/// of it may be found to hold, its fee is negative just where its function may be a coinbase, and its
/// proof may be found to hold for what it has to prove.
pub open spec fn accepted<V, K, F, C>(
    process: ProcessView,
    transition: Transition,
    before: Seq<Transition>,
    checks: Checks<V, K, F, C>,
) -> bool where
    V: Fn(&TransitionValue) -> bool,
    K: Fn(&ProgramID, &Identifier) -> bool,
    F: Fn(i64) -> Result<Field, Error>,
    C: Fn(&VerifyingKey, &Identifier, &Vec<Field>, &Proof) -> bool,
 {
    let id = transition.program_id@;
    let name = transition.function_name@;
    &&& all_may_hold(transition.inputs@, checks.value)
    &&& all_may_hold(transition.outputs@, checks.value)
    &&& call_ensures(
        checks.coinbase,
        (&transition.program_id, &transition.function_name),
        transition.fee < 0,
    )
    &&& process.programs.contains_key(id)
    &&& process.keys.contains_key((id, name))
    &&& exists|k: int| #[trigger]
        stands_at(&*process.programs[id], name, k) && ({
            let instructions = process.programs[id].functions@[k].instructions@;
            let stack = process.stacks[id]@;
            &&& forall|j: int|
                0 <= j < instructions.len() ==> !calls_astray(stack, #[trigger] instructions[j])
            &&& exists|fee: Field|
                #![trigger call_ensures(checks.fee, (transition.fee,), Ok::<Field, Error>(fee))]
                call_ensures(checks.fee, (transition.fee,), Ok::<Field, Error>(fee))
                    && proof_may_be(
                    process,
                    transition,
                    tail(before, callers(stack, instructions)),
                    fee,
                    checks.proof,
                    true,
                )
        })
}

/// The transition may be refused with the error.
pub open spec fn refused<V, K, F, C>(
    process: ProcessView,
    transition: Transition,
    before: Seq<Transition>,
    checks: Checks<V, K, F, C>,
    error: Error,
) -> bool where
    V: Fn(&TransitionValue) -> bool,
    K: Fn(&ProgramID, &Identifier) -> bool,
    F: Fn(i64) -> Result<Field, Error>,
    C: Fn(&VerifyingKey, &Identifier, &Vec<Field>, &Proof) -> bool,
 {
    let asked = (&transition.program_id, &transition.function_name);
    ||| one_may_fail(transition.inputs@, checks.value) && error == Error::InvalidInput
    ||| all_may_hold(transition.inputs@, checks.value) && one_may_fail(
        transition.outputs@,
        checks.value,
    ) && error == Error::InvalidOutput
    ||| all_may_hold(transition.inputs@, checks.value) && all_may_hold(
        transition.outputs@,
        checks.value,
    ) && {
        ||| call_ensures(checks.coinbase, asked, true) && transition.fee >= 0 && error
            == Error::CoinbaseFee
        ||| call_ensures(checks.coinbase, asked, false) && transition.fee < 0 && error
            == Error::NegativeFee
        ||| call_ensures(checks.coinbase, asked, transition.fee < 0) && proof_refused(
            process,
            transition,
            before,
            checks.fee,
            checks.proof,
            error,
        )
    }
}

/// The proof of the transition may be refused with the error: the program, the function, a program
/// that its function calls into or the circuit key is missing, there is no field element for the fee,
/// or the proof may be found not to hold.
pub open spec fn proof_refused<F, C>(
    process: ProcessView,
    transition: Transition,
    before: Seq<Transition>,
    to_field: F,
    check: C,
    error: Error,
) -> bool where
    F: Fn(i64) -> Result<Field, Error>,
    C: Fn(&VerifyingKey, &Identifier, &Vec<Field>, &Proof) -> bool,
 {
    let id = transition.program_id@;
    let name = transition.function_name@;
    let stack = process.stacks[id]@;
    if !process.programs.contains_key(id) {
        error == Error::StackNotFound(transition.program_id)
    } else if !defines(&*process.programs[id], name) {
        error == Error::FunctionNotFound(transition.function_name)
    } else {
        exists|k: int| #[trigger]
            stands_at(&*process.programs[id], name, k) && ({
                let instructions = process.programs[id].functions@[k].instructions@;
                ||| exists|j: int| #[trigger]
                    first_astray_at(stack, instructions, j) && error
                        == Error::ExternalProgramNotFound(
                        instructions[j]->Call_0.operator->Locator_0.program_id,
                    )
                ||| (forall|j: int|
                    0 <= j < instructions.len() ==> !calls_astray(
                        stack,
                        #[trigger] instructions[j],
                    )) && {
                    ||| call_ensures(to_field, (transition.fee,), Err::<Field, Error>(error))
                    ||| exists|fee: Field|
                        #![trigger call_ensures(to_field, (transition.fee,), Ok::<Field, Error>(fee))]
                        call_ensures(to_field, (transition.fee,), Ok::<Field, Error>(fee)) && if
                            process.keys.contains_key((id, name)) {
                            error == Error::InvalidTransition && proof_may_be(
                                process,
                                transition,
                                tail(before, callers(stack, instructions)),
                                fee,
                                check,
                                false,
                            )
                        } else {
                            error == Error::KeyNotFound(
                                process.programs[id].id,
                                transition.function_name,
                            )
                        }
                }
            })
    }
}

/// A transition is verified only if it is accepted, and refused only if it may be, with that error.
pub proof fn transitions_are_accepted_or_refused<V, K, F, C>(
    process: ProcessView,
    transition: Transition,
    before: Seq<Transition>,
    checks: Checks<V, K, F, C>,
    answer: Result<(), Error>,
) where
    V: Fn(&TransitionValue) -> bool,
    K: Fn(&ProgramID, &Identifier) -> bool,
    F: Fn(i64) -> Result<Field, Error>,
    C: Fn(&VerifyingKey, &Identifier, &Vec<Field>, &Proof) -> bool,

    requires
        process.well_formed(),
        process.transition_outcome(transition, before, checks, answer),
    ensures
        match answer {
            Ok(()) => accepted(process, transition, before, checks),
            Err(error) => refused(process, transition, before, checks, error),
        },
{
    let inputs_hold = choose|valid: bool| #[trigger]
        values_outcome(transition.inputs@, checks.value, valid) && if !valid {
            answer == Err::<(), Error>(Error::InvalidInput)
        } else {
            exists|valid: bool| #[trigger]
                values_outcome(transition.outputs@, checks.value, valid) && if !valid {
                    answer == Err::<(), Error>(Error::InvalidOutput)
                } else {
                    process.call_outcome(
                        transition,
                        before,
                        checks.coinbase,
                        checks.fee,
                        checks.proof,
                        answer,
                    )
                }
        };
    lemma_values(transition.inputs@, checks.value, inputs_hold);
    if inputs_hold {
        let outputs_hold = choose|valid: bool| #[trigger]
            values_outcome(transition.outputs@, checks.value, valid) && if !valid {
                answer == Err::<(), Error>(Error::InvalidOutput)
            } else {
                process.call_outcome(
                    transition,
                    before,
                    checks.coinbase,
                    checks.fee,
                    checks.proof,
                    answer,
                )
            };
        lemma_values(transition.outputs@, checks.value, outputs_hold);
        if outputs_hold {
            lemma_call(
                process,
                transition,
                before,
                checks.coinbase,
                checks.fee,
                checks.proof,
                answer,
            );
        }
    }
}

proof fn lemma_values<V>(values: Seq<TransitionValue>, check: V, valid: bool) where
    V: Fn(&TransitionValue) -> bool,

    requires
        values_outcome(values, check, valid),
    ensures
        valid ==> all_may_hold(values, check),
        !valid ==> one_may_fail(values, check),
{
    if !valid {
        let i = choose|i: int| first_invalid_at(values, check, i);
        assert(call_ensures(check, (&values[i],), false));
    }
}

proof fn lemma_call<K, F, C>(
    process: ProcessView,
    transition: Transition,
    before: Seq<Transition>,
    is_coinbase: K,
    to_field: F,
    check: C,
    answer: Result<(), Error>,
) where
    K: Fn(&ProgramID, &Identifier) -> bool,
    F: Fn(i64) -> Result<Field, Error>,
    C: Fn(&VerifyingKey, &Identifier, &Vec<Field>, &Proof) -> bool,

    requires
        process.well_formed(),
        process.call_outcome(transition, before, is_coinbase, to_field, check, answer),
    ensures
        ({
            let id = transition.program_id@;
            let name = transition.function_name@;
            let asked = (&transition.program_id, &transition.function_name);
            match answer {
                Ok(()) => {
                    &&& call_ensures(is_coinbase, asked, transition.fee < 0)
                    &&& process.programs.contains_key(id)
                    &&& process.keys.contains_key((id, name))
                    &&& exists|k: int| #[trigger]
                        stands_at(&*process.programs[id], name, k) && ({
                            let instructions = process.programs[id].functions@[k].instructions@;
                            let stack = process.stacks[id]@;
                            &&& forall|j: int|
                                0 <= j < instructions.len() ==> !calls_astray(
                                    stack,
                                    #[trigger] instructions[j],
                                )
                            &&& exists|fee: Field|
                                #![trigger call_ensures(to_field, (transition.fee,), Ok::<Field, Error>(fee))]
                                call_ensures(to_field, (transition.fee,), Ok::<Field, Error>(fee))
                                    && proof_may_be(
                                    process,
                                    transition,
                                    tail(before, callers(stack, instructions)),
                                    fee,
                                    check,
                                    true,
                                )
                        })
                },
                Err(error) => {
                    ||| call_ensures(is_coinbase, asked, true) && transition.fee >= 0 && error
                        == Error::CoinbaseFee
                    ||| call_ensures(is_coinbase, asked, false) && transition.fee < 0 && error
                        == Error::NegativeFee
                    ||| call_ensures(is_coinbase, asked, transition.fee < 0) && proof_refused(
                        process,
                        transition,
                        before,
                        to_field,
                        check,
                        error,
                    )
                },
            }
        }),
{
    let id = transition.program_id@;
    let name = transition.function_name@;
    let coinbase = choose|coinbase: bool| #[trigger]
        call_ensures(
            is_coinbase,
            (&transition.program_id, &transition.function_name),
            coinbase,
        ) && match process.calls_of(transition, coinbase) {
            Err(error) => answer == Err::<(), Error>(error),
            Ok(count) => process.proof_outcome(
                transition,
                last_of(before, count),
                to_field,
                check,
                answer,
            ),
        };
    if coinbase == (transition.fee < 0) {
        maps_are_looked_up(process, transition.program_id, transition.function_name);
        if process.stacks.contains_key(id) {
            assert(process.stack_fits(id));
            let stack = process.stacks[id];
            assert(stack.program == process.programs[id]);
            stacks_find_functions(stack@, transition.function_name);
            functions_are_found_by_name(&*process.programs[id], name);
            if let Ok(function) = stack@.function_of(transition.function_name) {
                let k = choose|k: int| #[trigger]
                    stands_at(&*stack.program, name, k) && function
                        == stack.program.functions@[k];
                assert(stands_at(&*process.programs[id], name, k));
                assert(process.programs[id].functions@[k].name@ == name);
                let instructions = process.programs[id].functions@[k].instructions@;
                function_calls_are_counted(stack@, instructions);
                if let Ok(count) = process.calls_of(transition, coinbase) {
                    assert(count == callers(stack@, instructions));
                    lemma_proof(process, transition, before, count, to_field, check, answer);
                }
            }
        }
    }
}

proof fn lemma_proof<F, C>(
    process: ProcessView,
    transition: Transition,
    before: Seq<Transition>,
    count: nat,
    to_field: F,
    check: C,
    answer: Result<(), Error>,
) where
    F: Fn(i64) -> Result<Field, Error>,
    C: Fn(&VerifyingKey, &Identifier, &Vec<Field>, &Proof) -> bool,

    requires
        process.well_formed(),
        process.programs.contains_key(transition.program_id@),
        process.proof_outcome(transition, last_of(before, count), to_field, check, answer),
    ensures
        ({
            let id = transition.program_id@;
            let name = transition.function_name@;
            match answer {
                Ok(()) => process.keys.contains_key((id, name)) && exists|fee: Field|
                    #![trigger call_ensures(to_field, (transition.fee,), Ok::<Field, Error>(fee))]
                    call_ensures(to_field, (transition.fee,), Ok::<Field, Error>(fee))
                        && proof_may_be(
                        process,
                        transition,
                        tail(before, count),
                        fee,
                        check,
                        true,
                    ),
                Err(error) => {
                    ||| call_ensures(to_field, (transition.fee,), Err::<Field, Error>(error))
                    ||| exists|fee: Field|
                        #![trigger call_ensures(to_field, (transition.fee,), Ok::<Field, Error>(fee))]
                        call_ensures(to_field, (transition.fee,), Ok::<Field, Error>(fee)) && if
                            process.keys.contains_key((id, name)) {
                            error == Error::InvalidTransition && proof_may_be(
                                process,
                                transition,
                                tail(before, count),
                                fee,
                                check,
                                false,
                            )
                        } else {
                            error == Error::KeyNotFound(
                                process.programs[id].id,
                                transition.function_name,
                            )
                        }
                },
            }
        }),
{
    let id = transition.program_id@;
    let name = transition.function_name@;
    let calls = last_of(before, count);
    maps_are_looked_up(process, transition.program_id, transition.function_name);
    assert(process.stack_fits(id));
    let fee = choose|fee: Result<Field, Error>| #[trigger]
        call_ensures(to_field, (transition.fee,), fee) && match fee {
            Err(error) => answer == Err::<(), Error>(error),
            Ok(fee) => match process.statement(transition, calls, fee) {
                Err(error) => answer == Err::<(), Error>(error),
                Ok((key, inputs)) => exists|valid: bool| #[trigger]
                    says(check, key, transition, inputs, valid) && answer == verdict(valid),
            },
        };
    if let Ok(element) = fee {
        assert(call_ensures(to_field, (transition.fee,), Ok::<Field, Error>(element)));
        public_inputs_are_listed(transition, before, count, element);
        if let Ok((key, inputs)) = process.statement(transition, calls, element) {
            let valid = choose|valid: bool| #[trigger]
                says(check, key, transition, inputs, valid) && answer == verdict(valid);
            assert(key == process.keys[(id, name)].verifying_key);
            assert(inputs == listed(transition, tail(before, count), element));
            let given = choose|given: Vec<Field>|
                given@ == inputs && #[trigger] call_ensures(
                    check,
                    (&key, &transition.function_name, &given, &transition.proof),
                    valid,
                );
            let held = process.keys[(id, name)].verifying_key;
            assert(call_ensures(
                check,
                (&held, &transition.function_name, &given, &transition.proof),
                valid,
            ));
            assert(proof_may_be(
                process,
                transition,
                tail(before, count),
                element,
                check,
                valid,
            ));
        }
    }
}

/// An execution is verified only if it has as many transitions as the function of the last one has
/// calls, and each of them is accepted: with every input and output, its fee, its function, its
/// circuit key and its proof.
pub proof fn verified_transitions_are_accepted<V, K, F, C>(
    process: ProcessView,
    transitions: Seq<Transition>,
    checks: Checks<V, K, F, C>,
) where
    V: Fn(&TransitionValue) -> bool,
    K: Fn(&ProgramID, &Identifier) -> bool,
    F: Fn(i64) -> Result<Field, Error>,
    C: Fn(&VerifyingKey, &Identifier, &Vec<Field>, &Proof) -> bool,

    requires
        process.well_formed(),
        process.verify_outcome(transitions, checks, Ok::<(), Error>(())),
    ensures
        transitions.len() > 0,
        process.number_of_calls(transitions.last().program_id, transitions.last().function_name)
            == Ok::<nat, Error>(transitions.len()),
        forall|i: int|
            0 <= i < transitions.len() ==> accepted(
                process,
                #[trigger] transitions[i],
                transitions.take(i),
                checks,
            ),
{
    lemma_each(process, transitions, checks, Ok::<(), Error>(()));
}

/// Where for one of the inputs or outputs of a transition the answer can only be that it does not
/// hold, the execution is not verified.
pub proof fn one_wrong_value_is_enough<V, K, F, C>(
    process: ProcessView,
    transitions: Seq<Transition>,
    checks: Checks<V, K, F, C>,
    i: int,
    value: TransitionValue,
    answer: Result<(), Error>,
) where
    V: Fn(&TransitionValue) -> bool,
    K: Fn(&ProgramID, &Identifier) -> bool,
    F: Fn(i64) -> Result<Field, Error>,
    C: Fn(&VerifyingKey, &Identifier, &Vec<Field>, &Proof) -> bool,

    requires
        process.well_formed(),
        0 <= i < transitions.len(),
        (exists|m: int|
            0 <= m < transitions[i].inputs@.len() && #[trigger] transitions[i].inputs@[m] == value)
            || (exists|m: int|
            0 <= m < transitions[i].outputs@.len() && #[trigger] transitions[i].outputs@[m]
                == value),
        !call_ensures(checks.value, (&value,), true),
        process.verify_outcome(transitions, checks, answer),
    ensures
        answer is Err,
{
    if let Ok(done) = answer {
        assert(done == ());
        assert(answer == Ok::<(), Error>(()));
        verified_transitions_are_accepted(process, transitions, checks);
        let transition = transitions[i];
        assert(accepted(process, transition, transitions.take(i), checks));
        if exists|m: int|
            0 <= m < transition.inputs@.len() && #[trigger] transition.inputs@[m] == value {
            let m = choose|m: int|
                0 <= m < transition.inputs@.len() && #[trigger] transition.inputs@[m] == value;
            assert(call_ensures(checks.value, (&transition.inputs@[m],), true));
        } else {
            let m = choose|m: int|
                0 <= m < transition.outputs@.len() && #[trigger] transition.outputs@[m] == value;
            assert(call_ensures(checks.value, (&transition.outputs@[m],), true));
        }
    }
}

/// An execution is refused only where it has no transitions, where the number of them is not that of
/// the calls, or where one of them may be refused and all behind it are accepted, and with the error
/// that says so.
pub proof fn refused_executions_have_a_reason<V, K, F, C>(
    process: ProcessView,
    transitions: Seq<Transition>,
    checks: Checks<V, K, F, C>,
    error: Error,
) where
    V: Fn(&TransitionValue) -> bool,
    K: Fn(&ProgramID, &Identifier) -> bool,
    F: Fn(i64) -> Result<Field, Error>,
    C: Fn(&VerifyingKey, &Identifier, &Vec<Field>, &Proof) -> bool,

    requires
        process.well_formed(),
        process.verify_outcome(transitions, checks, Err::<(), Error>(error)),
    ensures
        if transitions.len() == 0 {
            error == Error::NoTransitions
        } else {
            match process.number_of_calls(
                transitions.last().program_id,
                transitions.last().function_name,
            ) {
                Err(reason) => error == reason,
                Ok(count) => if count == transitions.len() {
                    exists|i: int|
                        0 <= i < transitions.len() && refused(
                            process,
                            #[trigger] transitions[i],
                            transitions.take(i),
                            checks,
                            error,
                        ) && forall|j: int|
                            i < j < transitions.len() ==> accepted(
                                process,
                                #[trigger] transitions[j],
                                transitions.take(j),
                                checks,
                            )
                } else {
                    error == Error::TransitionCount {
                        expected: count as usize,
                        found: transitions.len() as usize,
                    }
                },
            }
        },
{
    if process.transitions_outcome(transitions, checks, Err::<(), Error>(error)) {
        lemma_each(process, transitions, checks, Err::<(), Error>(error));
    }
}

/// An execution that has one transition for each call, none of which may be refused, is verified.
pub proof fn execution_without_fault_is_verified<V, K, F, C>(
    process: ProcessView,
    transitions: Seq<Transition>,
    checks: Checks<V, K, F, C>,
    answer: Result<(), Error>,
) where
    V: Fn(&TransitionValue) -> bool,
    K: Fn(&ProgramID, &Identifier) -> bool,
    F: Fn(i64) -> Result<Field, Error>,
    C: Fn(&VerifyingKey, &Identifier, &Vec<Field>, &Proof) -> bool,

    requires
        process.well_formed(),
        transitions.len() > 0,
        process.number_of_calls(transitions.last().program_id, transitions.last().function_name)
            == Ok::<nat, Error>(transitions.len()),
        forall|i: int, error: Error|
            0 <= i < transitions.len() ==> !(#[trigger] refused(
                process,
                transitions[i],
                transitions.take(i),
                checks,
                error,
            )),
        process.verify_outcome(transitions, checks, answer),
    ensures
        answer is Ok,
{
    if let Err(error) = answer {
        refused_executions_have_a_reason(process, transitions, checks, error);
    }
}

proof fn lemma_each<V, K, F, C>(
    process: ProcessView,
    transitions: Seq<Transition>,
    checks: Checks<V, K, F, C>,
    answer: Result<(), Error>,
) where
    V: Fn(&TransitionValue) -> bool,
    K: Fn(&ProgramID, &Identifier) -> bool,
    F: Fn(i64) -> Result<Field, Error>,
    C: Fn(&VerifyingKey, &Identifier, &Vec<Field>, &Proof) -> bool,

    requires
        process.well_formed(),
        process.transitions_outcome(transitions, checks, answer),
    ensures
        match answer {
            Ok(()) => forall|i: int|
                0 <= i < transitions.len() ==> accepted(
                    process,
                    #[trigger] transitions[i],
                    transitions.take(i),
                    checks,
                ),
            Err(error) => exists|i: int|
                0 <= i < transitions.len() && refused(
                    process,
                    #[trigger] transitions[i],
                    transitions.take(i),
                    checks,
                    error,
                ) && forall|j: int|
                    i < j < transitions.len() ==> accepted(
                        process,
                        #[trigger] transitions[j],
                        transitions.take(j),
                        checks,
                    ),
        },
    decreases transitions.len(),
{
    if transitions.len() > 0 {
        let front = transitions.drop_last();
        let last = transitions.len() - 1;
        assert(transitions[last] == transitions.last());
        assert(transitions.take(last) =~= front);
        let one = choose|one: Result<(), Error>| #[trigger]
            process.transition_outcome(transitions.last(), front, checks, one) && match one {
                Ok(()) => process.transitions_outcome(front, checks, answer),
                Err(error) => answer == Err::<(), Error>(error),
            };
        transitions_are_accepted_or_refused(process, transitions.last(), front, checks, one);
        match one {
            Err(error) => {
                assert(refused(
                    process,
                    transitions[last],
                    transitions.take(last),
                    checks,
                    error,
                ));
            },
            Ok(_) => {
                lemma_each(process, front, checks, answer);
                assert forall|j: int| 0 <= j < last implies #[trigger] transitions[j] == front[j]
                    && transitions.take(j) == front.take(j) by {
                    assert(transitions.take(j) =~= front.take(j));
                }
                if let Err(error) = answer {
                    let i = choose|i: int|
                        0 <= i < front.len() && refused(
                            process,
                            #[trigger] front[i],
                            front.take(i),
                            checks,
                            error,
                        ) && forall|j: int|
                            i < j < front.len() ==> accepted(
                                process,
                                #[trigger] front[j],
                                front.take(j),
                                checks,
                            );
                    assert(transitions[i] == front[i]);
                    assert forall|j: int| i < j < transitions.len() implies accepted(
                        process,
                        #[trigger] transitions[j],
                        transitions.take(j),
                        checks,
                    ) by {
                        if j < last {
                            assert(accepted(process, front[j], front.take(j), checks));
                        }
                    }
                } else {
                    assert forall|j: int| 0 <= j < transitions.len() implies accepted(
                        process,
                        #[trigger] transitions[j],
                        transitions.take(j),
                        checks,
                    ) by {
                        if j < last {
                            assert(accepted(process, front[j], front.take(j), checks));
                        }
                    }
                }
            },
        }
    }
}

/// Questions come up in a verification only where there is one transition for each call.
pub proof fn questions_come_up_for_whole_executions(
    process: ProcessView,
    transitions: Seq<Transition>,
)
    ensures
        process.holds_each_call(transitions) <==> (transitions.len() > 0
            && process.number_of_calls(
            transitions.last().program_id,
            transitions.last().function_name,
        ) == Ok::<nat, Error>(transitions.len())),
{
}

/// Functions that can be called on everything can be handed to `verify`.
pub proof fn every_execution_can_be_asked_about<V, K, F, C>(checks: Checks<V, K, F, C>) where
    V: Fn(&TransitionValue) -> bool,
    K: Fn(&ProgramID, &Identifier) -> bool,
    F: Fn(i64) -> Result<Field, Error>,
    C: Fn(&VerifyingKey, &Identifier, &Vec<Field>, &Proof) -> bool,

    requires
        forall|value: &TransitionValue| call_requires(checks.value, (value,)),
        forall|id: &ProgramID, name: &Identifier| call_requires(checks.coinbase, (id, name)),
        forall|fee: i64| call_requires(checks.fee, (fee,)),
        forall|key: &VerifyingKey, name: &Identifier, inputs: &Vec<Field>, shown: &Proof|
            call_requires(checks.proof, (key, name, inputs, shown)),
    ensures
        can_be_asked(checks),
{
}

/// How many functions a transition calls is known only where its fee is negative just if it is a
/// coinbase, and its function is one of the process that calls into no program that is not imported.
/// It is then as many as there are instructions that call one.
pub proof fn called_functions_are_counted(
    process: ProcessView,
    transition: Transition,
    coinbase: bool,
)
    requires
        process.well_formed(),
    ensures
        ({
            let id = transition.program_id@;
            let name = transition.function_name@;
            match process.calls_of(transition, coinbase) {
                Ok(count) => {
                    &&& coinbase <==> transition.fee < 0
                    &&& process.programs.contains_key(id)
                    &&& exists|k: int| #[trigger]
                        stands_at(&*process.programs[id], name, k) && ({
                            let instructions = process.programs[id].functions@[k].instructions@;
                            &&& forall|j: int|
                                0 <= j < instructions.len() ==> !calls_astray(
                                    process.stacks[id]@,
                                    #[trigger] instructions[j],
                                )
                            &&& count == callers(process.stacks[id]@, instructions)
                        })
                },
                Err(error) => if coinbase && transition.fee >= 0 {
                    error == Error::CoinbaseFee
                } else if !coinbase && transition.fee < 0 {
                    error == Error::NegativeFee
                } else if !process.programs.contains_key(id) {
                    error == Error::StackNotFound(transition.program_id)
                } else if !defines(&*process.programs[id], name) {
                    error == Error::FunctionNotFound(transition.function_name)
                } else {
                    exists|k: int, j: int|
                        stands_at(&*process.programs[id], name, k) && #[trigger] first_astray_at(
                            process.stacks[id]@,
                            process.programs[id].functions@[k].instructions@,
                            j,
                        ) && error == Error::ExternalProgramNotFound(
                            process.programs[id].functions@[k].instructions@[j]->Call_0.operator->Locator_0.program_id,
                        )
                },
            }
        }),
{
    let id = transition.program_id@;
    let name = transition.function_name@;
    maps_are_looked_up(process, transition.program_id, transition.function_name);
    if process.stacks.contains_key(id) {
        assert(process.stack_fits(id));
        let stack = process.stacks[id];
        stacks_find_functions(stack@, transition.function_name);
        functions_are_found_by_name(&*process.programs[id], name);
        if let Ok(function) = stack@.function_of(transition.function_name) {
            let k = choose|k: int| #[trigger]
                stands_at(&*stack.program, name, k) && function == stack.program.functions@[k];
            assert(stands_at(&*process.programs[id], name, k));
            assert(process.programs[id].functions@[k].name@ == name);
            let instructions = process.programs[id].functions@[k].instructions@;
            function_calls_are_counted(stack@, instructions);
            if let Err(error) = function_calls(stack@, instructions) {
                let j = choose|j: int| #[trigger]
                    first_astray_at(stack@, instructions, j) && error
                        == Error::ExternalProgramNotFound(
                        instructions[j]->Call_0.operator->Locator_0.program_id,
                    );
                assert(first_astray_at(
                    process.stacks[id]@,
                    process.programs[id].functions@[k].instructions@,
                    j,
                ));
            }
        }
    }
}

/// What a proof has to prove is known only where a circuit key is held for the function of a program
/// of the process: it is the verifying key of that function, and the public inputs as they are
/// listed, for the last transitions before.
pub proof fn statements_are_of_held_keys(
    process: ProcessView,
    transition: Transition,
    before: Seq<Transition>,
    count: nat,
    fee: Field,
)
    requires
        process.well_formed(),
    ensures
        ({
            let id = transition.program_id@;
            let name = transition.function_name@;
            match process.statement(transition, last_of(before, count), fee) {
                Ok((key, inputs)) => {
                    &&& process.programs.contains_key(id)
                    &&& process.keys.contains_key((id, name))
                    &&& key == process.keys[(id, name)].verifying_key
                    &&& inputs == listed(transition, tail(before, count), fee)
                },
                Err(error) => if !process.programs.contains_key(id) {
                    error == Error::StackNotFound(transition.program_id)
                } else {
                    &&& !process.keys.contains_key((id, name))
                    &&& error == Error::KeyNotFound(
                        process.programs[id].id,
                        transition.function_name,
                    )
                },
            }
        }),
{
    maps_are_looked_up(process, transition.program_id, transition.function_name);
    public_inputs_are_listed(transition, before, count, fee);
    if process.stacks.contains_key(transition.program_id@) {
        assert(process.stack_fits(transition.program_id@));
    }
}

} // verus!
