//! The circuit keys of functions.

use vstd::prelude::*;
use crate::names::{lemma_first_is_unique, Identifier, ProgramID};

verus! {

/// The key with which calls of one function are proved, in its serialized form.
#[derive(Debug, PartialEq, Eq)]
pub struct ProvingKey {
    pub bytes: Vec<u8>,
}

/// The key with which proofs of one function are checked, in its serialized form.
#[derive(Debug, PartialEq, Eq)]
pub struct VerifyingKey {
    pub bytes: Vec<u8>,
}

/// The structured reference string from which circuit keys are made, in its serialized form.
#[derive(Debug, PartialEq, Eq)]
pub struct UniversalSRS {
    pub bytes: Vec<u8>,
}

/// The two keys of the circuit of one function.
#[derive(Debug, PartialEq, Eq)]
pub struct CircuitKey {
    pub proving_key: ProvingKey,
    pub verifying_key: VerifyingKey,
}

impl View for ProvingKey {
    type V = Seq<u8>;

    open spec fn view(&self) -> Seq<u8> {
        self.bytes@
    }
}

impl Clone for ProvingKey {
    fn clone(&self) -> (copy: Self)
        ensures
            copy@ == self@,
    {
        let copy = ProvingKey { bytes: self.bytes.clone() };
        assert(copy.bytes@ =~= self.bytes@);
        copy
    }
}

impl View for VerifyingKey {
    type V = Seq<u8>;

    open spec fn view(&self) -> Seq<u8> {
        self.bytes@
    }
}

impl Clone for VerifyingKey {
    fn clone(&self) -> (copy: Self)
        ensures
            copy@ == self@,
    {
        let copy = VerifyingKey { bytes: self.bytes.clone() };
        assert(copy.bytes@ =~= self.bytes@);
        copy
    }
}

/// A circuit key that was made while a function was executed, and the function that it is for.
#[derive(Debug, PartialEq, Eq)]
pub struct MadeKey {
    pub program_id: ProgramID,
    pub function_name: Identifier,
    pub key: CircuitKey,
}

/// A circuit key with the function that it belongs to.
#[derive(Debug, PartialEq, Eq)]
struct Entry {
    program_id: ProgramID,
    function_name: Identifier,
    key: CircuitKey,
}

impl Entry {
    /// The name under which the key is kept.
    closed spec fn name(self) -> (Seq<char>, Seq<char>) {
        (self.program_id@, self.function_name@)
    }
}

/// The mapping of `(program ID, function name)` to `(proving_key, verifying_key)`.
#[derive(Debug, PartialEq, Eq)]
pub struct CircuitKeys {
    srs: Option<UniversalSRS>,
    entries: Vec<Entry>,
}

/// The entry at `i` is the first one of this name.
closed spec fn first_at(entries: Seq<Entry>, name: (Seq<char>, Seq<char>), i: int) -> bool {
    &&& 0 <= i < entries.len()
    &&& entries[i].name() == name
    &&& forall|j: int| 0 <= j < i ==> (#[trigger] entries[j]).name() != name
}

/// What the entries say: the first one of each name counts.
closed spec fn mapping(entries: Seq<Entry>) -> Map<(Seq<char>, Seq<char>), CircuitKey> {
    Map::new(
        |name: (Seq<char>, Seq<char>)| exists|i: int| first_at(entries, name, i),
        |name: (Seq<char>, Seq<char>)| entries[choose|i: int| first_at(entries, name, i)].key,
    )
}

impl View for CircuitKeys {
    type V = Map<(Seq<char>, Seq<char>), CircuitKey>;

    closed spec fn view(&self) -> Map<(Seq<char>, Seq<char>), CircuitKey> {
        mapping(self.entries@)
    }
}

/// The names of the entries.
closed spec fn names(entries: Seq<Entry>) -> Seq<(Seq<char>, Seq<char>)> {
    entries.map_values(|entry: Entry| entry.name())
}

impl CircuitKeys {
    /// The reference string that the keys are made from, where one was given.
    pub closed spec fn universal_srs(self) -> Option<UniversalSRS> {
        self.srs
    }

    /// Initializes an empty mapping.
    pub fn new() -> (keys: Self)
        ensures
            keys@ == Map::<(Seq<char>, Seq<char>), CircuitKey>::empty(),
            keys.universal_srs() is None,
    {
        let keys = CircuitKeys { srs: None, entries: Vec::new() };
        assert(keys@ =~= Map::empty());
        keys
    }

    /// Initializes an empty mapping that makes its keys from the given reference string.
    pub fn from_universal_srs(srs: UniversalSRS) -> (keys: Self)
        ensures
            keys@ == Map::<(Seq<char>, Seq<char>), CircuitKey>::empty(),
            keys.universal_srs() == Some(srs),
    {
        let keys = CircuitKeys { srs: Some(srs), entries: Vec::new() };
        assert(keys@ =~= Map::empty());
        keys
    }

    /// Returns the reference string that the keys are made from, where one was given.
    pub fn get_universal_srs(&self) -> (srs: Option<&UniversalSRS>)
        ensures
            match srs {
                Some(given) => self.universal_srs() == Some(*given),
                None => self.universal_srs() is None,
            },
    {
        self.srs.as_ref()
    }

    /// The place of the first entry of the given name, if there is one.
    fn position(&self, program_id: &ProgramID, function_name: &Identifier) -> (place: Option<usize>)
        ensures
            match place {
                Some(i) => first_at(self.entries@, (program_id@, function_name@), i as int),
                None => forall|i: int|
                    0 <= i < self.entries@.len() ==> (#[trigger] self.entries@[i]).name() != (
                    program_id@,
                    function_name@,
                    ),
            },
    {
        let mut i: usize = 0;
        while i < self.entries.len()
            invariant
                i <= self.entries@.len(),
                forall|j: int|
                    0 <= j < i ==> (#[trigger] self.entries@[j]).name() != (
                    program_id@,
                    function_name@,
                    ),
            decreases self.entries@.len() - i,
        {
            if self.entries[i].program_id.name.eq(&program_id.name)
                && self.entries[i].function_name.name.eq(&function_name.name) {
                return Some(i);
            }
            i += 1;
        }
        None
    }

    /// Returns the circuit key of the given function, if there is one.
    pub fn get(&self, program_id: &ProgramID, function_name: &Identifier) -> (found: Option<
        &CircuitKey,
    >)
        ensures
            match found {
                Some(key) => self@.contains_key((program_id@, function_name@)) && *key
                    == self@[(program_id@, function_name@)],
                None => !self@.contains_key((program_id@, function_name@)),
            },
    {
        match self.position(program_id, function_name) {
            Some(i) => {
                proof {
                    let name = (program_id@, function_name@);
                    lemma_first_is_unique(
                        names(self.entries@),
                        name,
                        i as int,
                        choose|j: int| first_at(self.entries@, name, j),
                    );
                }
                Some(&self.entries[i].key)
            },
            None => None,
        }
    }

    /// Keeps the given circuit key for the given function, in place of the one that was before.
    pub fn insert(&mut self, program_id: &ProgramID, function_name: &Identifier, key: CircuitKey)
        ensures
            final(self)@ == old(self)@.insert((program_id@, function_name@), key),
            final(self).universal_srs() == old(self).universal_srs(),
    {
        let ghost name = (program_id@, function_name@);
        let ghost before = self.entries@;
        let entry = Entry {
            program_id: program_id.clone(),
            function_name: function_name.clone(),
            key,
        };
        match self.position(program_id, function_name) {
            Some(i) => {
                self.entries.set(i, entry);
                proof {
                    let after = self.entries@;
                    assert forall|n: (Seq<char>, Seq<char>), j: int|
                        first_at(before, n, j) == first_at(after, n, j) by {
                        assert(forall|k: int|
                            0 <= k < before.len() ==> before[k].name() == (#[trigger] after[k]).name());
                        assert(forall|k: int|
                            0 <= k < before.len() ==> (#[trigger] before[k]).name() == after[k].name());
                    }
                    lemma_mapping_insert(before, after, name, key, i as int);
                }
            },
            None => {
                self.entries.push(entry);
                proof {
                    let after = self.entries@;
                    let i = before.len() as int;
                    assert forall|n: (Seq<char>, Seq<char>), j: int| j != i implies first_at(
                        before,
                        n,
                        j,
                    ) == first_at(after, n, j) by {
                        assert(forall|k: int| 0 <= k < before.len() ==> before[k] == after[k]);
                    }
                    assert(forall|k: int|
                        0 <= k < before.len() ==> (#[trigger] after[k]).name() == before[k].name());
                    assert(first_at(after, name, i));
                    lemma_mapping_insert(before, after, name, key, i);
                }
            },
        }
    }
}

/// Entries that agree but for the first one of one name say the same but for that name.
proof fn lemma_mapping_insert(
    before: Seq<Entry>,
    after: Seq<Entry>,
    name: (Seq<char>, Seq<char>),
    key: CircuitKey,
    i: int,
)
    requires
        first_at(after, name, i),
        after[i].key == key,
        forall|n: (Seq<char>, Seq<char>), j: int|
            j != i ==> (#[trigger] first_at(before, n, j) == #[trigger] first_at(after, n, j)),
        forall|j: int| 0 <= j < before.len() && j != i ==> before[j] == after[j],
        i < before.len() ==> before[i].name() == name,
    ensures
        mapping(after) == mapping(before).insert(name, key),
{
    assert forall|n: (Seq<char>, Seq<char>)| n != name implies !first_at(after, n, i)
        && !first_at(before, n, i) by {}
    assert forall|n: (Seq<char>, Seq<char>)|
        mapping(after).contains_key(n) == mapping(before).insert(name, key).contains_key(n) by {
        if n != name {
            if exists|j: int| first_at(after, n, j) {
                let j = choose|j: int| first_at(after, n, j);
                assert(first_at(before, n, j));
            }
            if exists|j: int| first_at(before, n, j) {
                let j = choose|j: int| first_at(before, n, j);
                assert(first_at(after, n, j));
            }
        }
    }
    assert forall|n: (Seq<char>, Seq<char>)| mapping(after).contains_key(n) implies mapping(
        after,
    )[n] == mapping(before).insert(name, key)[n] by {
        let j = choose|j: int| first_at(after, n, j);
        if n == name {
            lemma_first_is_unique(names(after), n, i, j);
        } else {
            assert(first_at(before, n, j));
            let k = choose|k: int| first_at(before, n, k);
            lemma_first_is_unique(names(before), n, j, k);
        }
    }
    assert(mapping(after) =~= mapping(before).insert(name, key));
}

} // verus!
