//! Requests for calls, and what comes of them.

use vstd::prelude::*;
use crate::error::{finds, Error};
use crate::names::{Identifier, ProgramID};
use crate::transition::{Execution, Field};

verus! {

/// The key of an account, with which its requests are signed.
#[derive(Debug, Clone, Copy, PartialEq, Eq)]
pub struct PrivateKey {
    pub bytes: [u8; 32],
}

/// A value that is handed to a function or comes out of one, such as `5u32`.
#[derive(Debug, PartialEq, Eq)]
pub struct Value {
    pub name: String,
}

impl Clone for Value {
    fn clone(&self) -> (copy: Self)
        ensures
            copy == *self,
    {
        Value { name: self.name.clone() }
    }
}

/// A signed request to call a function.
#[derive(Debug, PartialEq, Eq)]
pub struct Request {
    /// The network that the request is made for.
    pub network_id: u16,
    pub program_id: ProgramID,
    pub function_name: Identifier,
    pub inputs: Vec<Value>,
    /// The transition view key.
    pub tvk: Field,
    pub signature: Vec<u8>,
}

/// What a request says.
#[verifier::ext_equal]
pub struct RequestView {
    pub network_id: u16,
    pub program_id: ProgramID,
    pub function_name: Identifier,
    pub inputs: Seq<Value>,
    pub tvk: Field,
    pub signature: Seq<u8>,
}

impl View for Request {
    type V = RequestView;

    open spec fn view(&self) -> RequestView {
        RequestView {
            network_id: self.network_id,
            program_id: self.program_id,
            function_name: self.function_name,
            inputs: self.inputs@,
            tvk: self.tvk,
            signature: self.signature@,
        }
    }
}

impl Clone for Request {
    fn clone(&self) -> (copy: Self)
        ensures
            copy@ == self@,
    {
        let copy = Request {
            network_id: self.network_id,
            program_id: self.program_id.clone(),
            function_name: self.function_name.clone(),
            inputs: self.inputs.clone(),
            tvk: self.tvk,
            signature: self.signature.clone(),
        };
        assert(copy.inputs@ =~= self.inputs@);
        assert(copy.signature@ =~= self.signature@);
        copy
    }
}

/// The answer to a request.
#[derive(Debug, PartialEq, Eq)]
pub struct Response {
    pub outputs: Vec<Value>,
}

/// The requests that were signed for one call: the call itself first, then those that it makes.
#[derive(Debug, PartialEq, Eq)]
pub struct Authorization {
    pub requests: Vec<Request>,
}

impl Authorization {
    /// Initializes an authorization with the given requests.
    pub fn new(requests: Vec<Request>) -> (authorization: Self)
        ensures
            authorization.requests == requests,
    {
        Authorization { requests }
    }

    /// What [`Authorization::peek_next`] returns.
    pub open spec fn next_request(self) -> Result<Request, Error> {
        if self.requests@.len() > 0 {
            Ok(self.requests@[0])
        } else {
            Err(Error::NoRequest)
        }
    }

    /// Returns the next request, without taking it out.
    pub fn peek_next(&self) -> (request: Result<&Request, Error>)
        ensures
            finds(request, self.next_request()),
    {
        if self.requests.len() > 0 {
            Ok(&self.requests[0])
        } else {
            Err(Error::NoRequest)
        }
    }
}

/// What a function is run for, with what it is to be run on.
#[derive(Debug, PartialEq, Eq)]
pub enum CallStack {
    /// To sign the requests that the call makes. They are added to the authorization.
    Authorize(Vec<Request>, PrivateKey, Authorization),
    /// To prove the requests of the authorization. The transitions are added to the execution.
    Execute(Authorization, Execution),
}

} // verus!
