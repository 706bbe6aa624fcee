//! What a node believes each member of its cluster has seen.

use crate::gossip::merge;
use crate::names::{distinct, find, has_name, lemma_place_is_unique, place_of};
use std::collections::HashSet;
use vstd::prelude::*;

verus! {

/// The table a node starts with: an empty set for every name in `members`.
pub open spec fn blank(members: Seq<String>) -> Map<Seq<char>, Set<usize>> {
    Map::new(|name: Seq<char>| has_name(members, name), |name: Seq<char>| Set::<usize>::empty())
}

/// For each member of the cluster, the values it has shown it holds.
///
/// A member's entry only grows, and only by what that member itself reported.
#[derive(Debug)]
pub struct KnowledgeMap {
    names: Vec<String>,
    seen: Vec<HashSet<usize>>,
}

impl View for KnowledgeMap {
    type V = Map<Seq<char>, Set<usize>>;

    closed spec fn view(&self) -> Map<Seq<char>, Set<usize>> {
        Map::new(
            |name: Seq<char>| has_name(self.names@, name),
            |name: Seq<char>| self.seen@[place_of(self.names@, name)]@,
        )
    }
}

impl KnowledgeMap {
    #[verifier::type_invariant]
    spec fn well_formed(&self) -> bool {
        &&& self.names.len() == self.seen.len()
        &&& distinct(self.names@)
    }

    /// A table with an empty entry for each of `members`; a name given twice
    /// gets one entry.
    pub fn new(members: &Vec<String>) -> (table: Self)
        ensures
            table@ == blank(members@),
    {
        let mut names: Vec<String> = Vec::new();
        let mut seen: Vec<HashSet<usize>> = Vec::new();
        let mut i: usize = 0;
        while i < members.len()
            invariant
                i <= members.len(),
                names.len() == seen.len(),
                distinct(names@),
                forall|k: int| 0 <= k < seen.len() ==> (#[trigger] seen[k])@ == Set::<usize>::empty(),
                forall|k: int| 0 <= k < names.len() ==> has_name(members@, (#[trigger] names[k])@),
                forall|k: int| 0 <= k < i ==> has_name(names@, (#[trigger] members[k])@),
            decreases members.len() - i,
        {
            let ghost before = names@;
            if find(&names, &members[i]).is_none() {
                names.push(members[i].clone());
                seen.push(HashSet::new());
                assert(names@[names.len() - 1]@ == members[i as int]@);
            }
            assert forall|k: int| 0 <= k <= i implies has_name(names@, (#[trigger] members[k])@) by {
                if k < i {
                    let at = choose|at: int| 0 <= at < before.len() && (#[trigger] before[at])@ == members[k]@;
                    assert(names@[at]@ == members[k]@);
                } else if has_name(before, members[k]@) {
                    let at = choose|at: int| 0 <= at < before.len() && (#[trigger] before[at])@ == members[k]@;
                    assert(names@[at]@ == members[k]@);
                }
            }
            i += 1;
        }
        let table = KnowledgeMap { names, seen };
        proof {
            assert forall|name: Seq<char>| has_name(table.names@, name) == has_name(
                members@,
                name,
            ) by {
                if has_name(table.names@, name) {
                    let at = choose|at: int|
                        0 <= at < table.names@.len() && (#[trigger] table.names@[at])@ == name;
                    assert(has_name(members@, table.names@[at]@));
                }
                if has_name(members@, name) {
                    let at = choose|at: int|
                        0 <= at < members@.len() && (#[trigger] members@[at])@ == name;
                    assert(has_name(table.names@, members@[at]@));
                }
            }
            assert(table@ =~= blank(members@));
        }
        table
    }

    /// The values that `name` has shown it holds, where `name` is a member.
    pub fn get(&self, name: &String) -> (entry: Option<&HashSet<usize>>)
        ensures
            match entry {
                Some(set) => self@.contains_key(name@) && set@ == self@[name@],
                None => !self@.contains_key(name@),
            },
    {
        proof {
            use_type_invariant(self);
        }
        match find(&self.names, name) {
            Some(i) => {
                proof {
                    lemma_place_is_unique(self.names@, i as int);
                }
                Some(&self.seen[i])
            },
            None => None,
        }
    }

    /// Whether `name` is a member.
    pub fn contains(&self, name: &String) -> (present: bool)
        ensures
            present == self@.contains_key(name@),
    {
        find(&self.names, name).is_some()
    }

    /// Records that `name` has shown it holds `reported`. Says whether `name`
    /// is a member; for a stranger nothing is recorded.
    pub fn record(&mut self, name: &String, reported: &HashSet<usize>) -> (member: bool)
        ensures
            member == old(self)@.contains_key(name@),
            final(self)@ == if member {
                old(self)@.insert(name@, old(self)@[name@].union(reported@))
            } else {
                old(self)@
            },
    {
        proof {
            use_type_invariant(&*self);
        }
        let mut held = KnowledgeMap { names: Vec::new(), seen: Vec::new() };
        core::mem::swap(self, &mut held);
        let KnowledgeMap { names, mut seen } = held;
        match find(&names, name) {
            Some(i) => {
                proof {
                    lemma_place_is_unique(names@, i as int);
                }
                merge(&mut seen[i], reported);
                *self = KnowledgeMap { names, seen };
                proof {
                    assert forall|key: Seq<char>| has_name(self.names@, key) implies #[trigger] self@[key]
                        == old(self)@.insert(name@, old(self)@[name@].union(reported@))[key] by {
                        let at = place_of(self.names@, key);
                        lemma_place_is_unique(self.names@, at);
                    }
                    assert(self@ =~= old(self)@.insert(name@, old(self)@[name@].union(reported@)));
                }
                true
            },
            None => {
                *self = KnowledgeMap { names, seen };
                false
            },
        }
    }
}

} // verus!
