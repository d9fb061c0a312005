//! Transitions: the calls that an execution proves.

use vstd::prelude::*;
use crate::names::{Identifier, ProgramID};

verus! {

/// An element of the field that proofs are over: the integer `high * 2^128 + low`.
#[derive(Debug, Clone, Copy, PartialEq, Eq)]
pub struct Field {
    pub low: u128,
    pub high: u128,
}

impl Field {
    /// The number one.
    pub open spec fn spec_one() -> Self {
        Field { low: 1, high: 0 }
    }

    /// Returns the number one.
    #[verifier::when_used_as_spec(spec_one)]
    pub fn one() -> (one: Self)
        ensures
            one == Field::spec_one(),
    {
        Field { low: 1, high: 0 }
    }
}

/// An input or output of a transition.
#[derive(Debug, PartialEq, Eq)]
pub struct TransitionValue {
    /// The identifier that the transition is proved with.
    pub id: Field,
    /// What the identifier commits to, in its textual form, where it is shown.
    pub content: Option<String>,
}

/// The proof of a transition, in its serialized form.
#[derive(Debug, PartialEq, Eq)]
pub struct Proof {
    pub bytes: Vec<u8>,
}

/// One call of a function, with its proof.
#[derive(Debug, PartialEq, Eq)]
pub struct Transition {
    pub program_id: ProgramID,
    pub function_name: Identifier,
    pub inputs: Vec<TransitionValue>,
    pub outputs: Vec<TransitionValue>,
    /// The coordinates of the transition public key.
    pub tpk_x: Field,
    pub tpk_y: Field,
    /// What the transition pays, or, where it is negative, what it is paid.
    pub fee: i64,
    pub proof: Proof,
}

/// The transitions of one call: those of the calls that it makes first, its own last.
#[derive(Debug, PartialEq, Eq)]
pub struct Execution {
    pub transitions: Vec<Transition>,
}

impl Execution {
    /// Initializes an execution without transitions.
    pub fn new() -> (execution: Self)
        ensures
            execution.transitions@.len() == 0,
    {
        Execution { transitions: Vec::new() }
    }
}

} // verus!
