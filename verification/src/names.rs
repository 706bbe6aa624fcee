//! Looking a node's name up in a list of names.
//!
//! The tables that a node keeps about its cluster are keyed by node names. They
//! hold the names in a list in which no name occurs twice, and find an entry by
//! its position in that list.

use vstd::prelude::*;

verus! {

/// Whether `key` is one of `names`.
pub open spec fn has_name(names: Seq<String>, key: Seq<char>) -> bool {
    exists|i: int| 0 <= i < names.len() && (#[trigger] names[i])@ == key
}

/// Whether no name occurs twice in `names`.
pub open spec fn distinct(names: Seq<String>) -> bool {
    forall|i: int, j: int|
        0 <= i < j < names.len() ==> (#[trigger] names[i])@ != (#[trigger] names[j])@
}

/// The place of `key` in `names`; meaningful where `key` is one of them.
pub open spec fn place_of(names: Seq<String>, key: Seq<char>) -> int {
    choose|i: int| 0 <= i < names.len() && (#[trigger] names[i])@ == key
}

/// The names as plain character sequences, in their order.
pub open spec fn spelled(names: Seq<String>) -> Seq<Seq<char>> {
    Seq::new(names.len(), |i: int| names[i]@)
}

/// In a list without repeats, a name stands at one place only.
pub proof fn lemma_place_is_unique(names: Seq<String>, i: int)
    requires
        distinct(names),
        0 <= i < names.len(),
    ensures
        has_name(names, names[i]@),
        place_of(names, names[i]@) == i,
{
    let found = place_of(names, names[i]@);
    assert(0 <= found < names.len() && names[found]@ == names[i]@);
    if found < i {
        assert(names[found]@ != names[i]@);
    } else if i < found {
        assert(names[i]@ != names[found]@);
    }
}

/// Finds the first place at which `key` stands in `names`.
pub fn find(names: &Vec<String>, key: &String) -> (at: Option<usize>)
    ensures
        match at {
            Some(i) => {
                &&& i < names.len()
                &&& names[i as int]@ == key@
                &&& forall|j: int| 0 <= j < i ==> (#[trigger] names[j])@ != key@
            },
            None => !has_name(names@, key@),
        },
{
    let mut i: usize = 0;
    while i < names.len()
        invariant
            i <= names.len(),
            forall|j: int| 0 <= j < i ==> (#[trigger] names[j])@ != key@,
        decreases names.len() - i,
    {
        if names[i] == *key {
            return Some(i);
        }
        i += 1;
    }
    None
}

} // verus!
