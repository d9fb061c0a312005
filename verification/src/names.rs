//! The names by which programs and functions are known.

use vstd::prelude::*;

verus! {

/// The name of a function, a closure or a record, such as `transfer`.
#[derive(Debug, PartialEq, Eq)]
pub struct Identifier {
    pub name: String,
}

impl View for Identifier {
    type V = Seq<char>;

    open spec fn view(&self) -> Seq<char> {
        self.name@
    }
}

impl Clone for Identifier {
    fn clone(&self) -> (copy: Self)
        ensures
            copy == *self,
    {
        Identifier { name: self.name.clone() }
    }
}

/// The name of a program, such as `token.aleo`.
#[derive(Debug, PartialEq, Eq)]
pub struct ProgramID {
    pub name: String,
}

impl View for ProgramID {
    type V = Seq<char>;

    open spec fn view(&self) -> Seq<char> {
        self.name@
    }
}

impl Clone for ProgramID {
    fn clone(&self) -> (copy: Self)
        ensures
            copy == *self,
    {
        ProgramID { name: self.name.clone() }
    }
}

/// A resource of another program, such as `token.aleo/transfer`.
#[derive(Debug, PartialEq, Eq)]
pub struct Locator {
    pub program_id: ProgramID,
    pub resource: Identifier,
}

/// A name has one first place among names.
pub proof fn lemma_first_is_unique<N>(names: Seq<N>, name: N, i: int, j: int)
    requires
        0 <= i < names.len(),
        0 <= j < names.len(),
        names[i] == name,
        names[j] == name,
        forall|k: int| 0 <= k < i ==> #[trigger] names[k] != name,
        forall|k: int| 0 <= k < j ==> #[trigger] names[k] != name,
    ensures
        i == j,
{
    if i < j {
        assert(names[i] != name);
    } else if j < i {
        assert(names[j] != name);
    }
}

} // verus!
