//! The process of a virtual machine that runs programs whose calls are proved and verified:
//! the registry of programs and circuit keys, the checks that stand before a call is
//! authorized, evaluated or executed, and the verification of an execution.

pub mod error;
pub mod names;
pub mod program;
pub mod stack;
pub mod keys;
pub mod registry;
pub mod calls;
pub mod process;
pub mod request;
pub mod transition;
pub mod run;
pub mod verify;
pub mod laws;
pub mod admission;
pub mod soundness;
pub mod outcomes;
pub mod proved;
pub mod lookups;
pub mod counting;
pub mod promises;
pub mod accepted;
pub mod texts;
