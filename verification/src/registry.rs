//! The maps in which a process keeps its programs and stacks, and what is believed of them.

use vstd::prelude::*;
use std::sync::Arc;
use indexmap::IndexMap;
use crate::program::Program;
use crate::stack::Stack;

verus! {

/// `indexmap::IndexMap`: a hash map that also remembers the order of insertion.
#[verifier::external_type_specification]
#[verifier::external_body]
#[verifier::reject_recursive_types(K)]
#[verifier::reject_recursive_types(V)]
#[verifier::reject_recursive_types(S)]
pub struct ExIndexMap<K, V, S>(indexmap::IndexMap<K, V, S>);

/// The programs that a map holds, each under its key.
pub uninterp spec fn programs_in(map: IndexMap<String, Arc<Program>>) -> Map<Seq<char>, Arc<Program>>;

/// The stacks that a map holds, each under its key.
pub uninterp spec fn stacks_in(map: IndexMap<String, Stack>) -> Map<Seq<char>, Stack>;

/// Calls `IndexMap::new`: the map that it makes holds nothing.
#[verifier::external_body]
pub(crate) fn new_programs() -> (map: IndexMap<String, Arc<Program>>)
    ensures
        programs_in(map) == (Map::<Seq<char>, Arc<Program>>::empty()),
{
    IndexMap::new()
}

/// Calls `IndexMap::contains_key`: whether a program is held under the key.
#[verifier::external_body]
pub(crate) fn contains_program(map: &IndexMap<String, Arc<Program>>, key: &String) -> (found: bool)
    ensures
        found == programs_in(*map).contains_key(key@),
{
    map.contains_key(key)
}

/// Calls `IndexMap::get`: the program that is held under the key, or `None` where none is.
#[verifier::external_body]
pub(crate) fn get_program<'a>(map: &'a IndexMap<String, Arc<Program>>, key: &String) -> (found:
    Option<&'a Arc<Program>>)
    ensures
        match found {
            Some(program) => programs_in(*map).contains_key(key@)
                && *program == programs_in(*map)[key@],
            None => !programs_in(*map).contains_key(key@),
        },
{
    map.get(key)
}

/// Calls `IndexMap::insert`: the program is held under the key from now on, in place of the
/// one that was before, and everything else stays.
#[verifier::external_body]
pub(crate) fn insert_program(
    map: &mut IndexMap<String, Arc<Program>>,
    key: String,
    program: Arc<Program>,
)
    ensures
        programs_in(*final(map)) == programs_in(*old(map)).insert(key@, program),
{
    map.insert(key, program);
}

/// Calls `IndexMap::new`: the map that it makes holds nothing.
#[verifier::external_body]
pub(crate) fn new_stacks() -> (map: IndexMap<String, Stack>)
    ensures
        stacks_in(map) == (Map::<Seq<char>, Stack>::empty()),
{
    IndexMap::new()
}

/// Calls `IndexMap::get`: the stack that is held under the key, or `None` where none is.
#[verifier::external_body]
pub(crate) fn get_stack<'a>(map: &'a IndexMap<String, Stack>, key: &String) -> (found: Option<
    &'a Stack,
>)
    ensures
        match found {
            Some(stack) => stacks_in(*map).contains_key(key@) && *stack == stacks_in(*map)[key@],
            None => !stacks_in(*map).contains_key(key@),
        },
{
    map.get(key)
}

/// Calls `IndexMap::insert`: the stack is held under the key from now on, in place of the one
/// that was before, and everything else stays.
#[verifier::external_body]
pub(crate) fn insert_stack(map: &mut IndexMap<String, Stack>, key: String, stack: Stack)
    ensures
        stacks_in(*final(map)) == stacks_in(*old(map)).insert(key@, stack),
{
    map.insert(key, stack);
}

/// Calls `Arc::clone`: another handle of the same program.
#[verifier::external_body]
pub(crate) fn share(program: &Arc<Program>) -> (handle: Arc<Program>)
    ensures
        handle == *program,
{
    Arc::clone(program)
}

} // verus!
