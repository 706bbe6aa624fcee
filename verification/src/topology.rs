//! The neighbour graph that the cluster's operator hands to each node.

use crate::names::{distinct, find, has_name, lemma_place_is_unique, place_of, spelled};
use vstd::prelude::*;

verus! {

/// A copy of a list of names.
pub fn copy_names(list: &Vec<String>) -> (copy: Vec<String>)
    ensures
        spelled(copy@) == spelled(list@),
{
    let mut copy: Vec<String> = Vec::new();
    let mut i: usize = 0;
    while i < list.len()
        invariant
            i <= list.len(),
            copy.len() == i,
            forall|k: int| 0 <= k < i ==> (#[trigger] copy[k])@ == list[k]@,
        decreases list.len() - i,
    {
        copy.push(list[i].clone());
        i += 1;
    }
    assert(spelled(copy@) =~= spelled(list@));
    copy
}

/// For each node of the graph, the ordered list of its neighbours.
#[derive(Debug)]
pub struct Topology {
    names: Vec<String>,
    links: Vec<Vec<String>>,
}

impl View for Topology {
    type V = Map<Seq<char>, Seq<Seq<char>>>;

    closed spec fn view(&self) -> Map<Seq<char>, Seq<Seq<char>>> {
        Map::new(
            |name: Seq<char>| has_name(self.names@, name),
            |name: Seq<char>| spelled(self.links@[place_of(self.names@, name)]@),
        )
    }
}

impl Topology {
    #[verifier::type_invariant]
    spec fn well_formed(&self) -> bool {
        &&& self.names.len() == self.links.len()
        &&& distinct(self.names@)
    }

    /// A graph without nodes.
    pub fn new() -> (graph: Self)
        ensures
            graph@ == Map::<Seq<char>, Seq<Seq<char>>>::empty(),
    {
        let graph = Topology { names: Vec::new(), links: Vec::new() };
        assert(graph@ =~= Map::<Seq<char>, Seq<Seq<char>>>::empty());
        graph
    }

    /// A copy of the graph.
    pub fn copy(&self) -> (graph: Self)
        ensures
            graph@ == self@,
    {
        proof {
            use_type_invariant(self);
        }
        let mut names: Vec<String> = Vec::new();
        let mut links: Vec<Vec<String>> = Vec::new();
        let mut i: usize = 0;
        while i < self.names.len()
            invariant
                i <= self.names.len(),
                self.names.len() == self.links.len(),
                names.len() == i,
                links.len() == i,
                forall|k: int| 0 <= k < i ==> (#[trigger] names[k])@ == self.names[k]@,
                forall|k: int| 0 <= k < i ==> spelled((#[trigger] links[k])@) == spelled(self.links[k]@),
            decreases self.names.len() - i,
        {
            names.push(self.names[i].clone());
            links.push(copy_names(&self.links[i]));
            i += 1;
        }
        assert forall|key: Seq<char>| has_name(names@, key) == has_name(self.names@, key) by {
            if has_name(names@, key) {
                let at = place_of(names@, key);
                assert(self.names@[at]@ == key);
            }
            if has_name(self.names@, key) {
                let at = place_of(self.names@, key);
                assert(names@[at]@ == key);
            }
        }
        assert(distinct(names@)) by {
            assert forall|a: int, b: int| 0 <= a < b < names@.len() implies (#[trigger] names@[a])@
                != (#[trigger] names@[b])@ by {
                assert(self.names@[a]@ != self.names@[b]@);
            }
        }
        let graph = Topology { names, links };
        proof {
            assert forall|key: Seq<char>| has_name(self.names@, key) implies #[trigger] graph@[key]
                == self@[key] by {
                let at = place_of(self.names@, key);
                assert(graph.names@[at]@ == key);
                lemma_place_is_unique(self.names@, at);
                lemma_place_is_unique(graph.names@, at);
            }
            assert(graph@ =~= self@);
        }
        graph
    }

    /// How many nodes the graph has an entry for.
    pub fn len(&self) -> (count: usize)
        ensures
            count == self@.dom().len(),
            self@.dom().finite(),
    {
        proof {
            use_type_invariant(self);
            self.lemma_domain_size();
        }
        self.names.len()
    }

    /// The names that have an entry, each once.
    pub fn names(&self) -> (list: &Vec<String>)
        ensures
            distinct(list@),
            forall|name: Seq<char>| has_name(list@, name) <==> self@.contains_key(name),
    {
        proof {
            use_type_invariant(self);
        }
        &self.names
    }

    /// Whether `name` has an entry.
    pub fn contains(&self, name: &String) -> (present: bool)
        ensures
            present == self@.contains_key(name@),
    {
        find(&self.names, name).is_some()
    }

    /// The neighbours of `name`, where it has an entry.
    pub fn get(&self, name: &String) -> (entry: Option<&Vec<String>>)
        ensures
            match entry {
                Some(list) => self@.contains_key(name@) && spelled(list@) == self@[name@],
                None => !self@.contains_key(name@),
            },
    {
        proof {
            use_type_invariant(self);
        }
        match find(&self.names, name) {
            Some(i) => {
                proof {
                    lemma_place_is_unique(self.names@, i as int);
                }
                Some(&self.links[i])
            },
            None => None,
        }
    }

    /// Gives `name` the neighbours `neighbours`, in place of any it had.
    pub fn insert(&mut self, name: String, neighbours: Vec<String>)
        ensures
            final(self)@ == old(self)@.insert(name@, spelled(neighbours@)),
    {
        proof {
            use_type_invariant(&*self);
        }
        let ghost goal = old(self)@.insert(name@, spelled(neighbours@));
        let (mut names, mut links) = self.take();
        match find(&names, &name) {
            Some(i) => {
                links.set(i, neighbours);
                *self = Topology { names, links };
                proof {
                    assert forall|key: Seq<char>| has_name(self.names@, key) implies #[trigger] self@[key]
                        == goal[key] by {
                        lemma_place_is_unique(self.names@, i as int);
                        lemma_place_is_unique(self.names@, place_of(self.names@, key));
                    }
                    assert(has_name(self.names@, name@)) by {
                        lemma_place_is_unique(self.names@, i as int);
                    }
                    assert(self@ =~= goal);
                }
            },
            None => {
                let ghost before = names@;
                names.push(name);
                links.push(neighbours);
                *self = Topology { names, links };
                proof {
                    let last = self.names@.len() - 1;
                    assert(self.names@[last]@ == name@);
                    assert forall|key: Seq<char>| has_name(self.names@, key) == (has_name(
                        before,
                        key,
                    ) || key == name@) by {
                        if has_name(before, key) {
                            let at = place_of(before, key);
                            assert(self.names@[at]@ == key);
                        }
                    }
                    assert forall|key: Seq<char>| has_name(self.names@, key) implies #[trigger] self@[key]
                        == goal[key] by {
                        let at = place_of(self.names@, key);
                        if at < last {
                            assert(before[at]@ == key);
                            lemma_place_is_unique(before, at);
                        }
                    }
                    assert(self@ =~= goal);
                }
            },
        }
    }

    /// Takes the entry of `name` out of the graph and hands its neighbours over;
    /// without an entry the graph stays as it is.
    pub fn remove(&mut self, name: &String) -> (taken: Option<Vec<String>>)
        ensures
            match taken {
                Some(list) => old(self)@.contains_key(name@) && spelled(list@) == old(self)@[name@],
                None => !old(self)@.contains_key(name@),
            },
            final(self)@ == old(self)@.remove(name@),
    {
        proof {
            use_type_invariant(&*self);
        }
        let ghost goal = old(self)@.remove(name@);
        let (mut names, mut links) = self.take();
        match find(&names, name) {
            Some(i) => {
                let ghost before = names@;
                proof {
                    lemma_place_is_unique(before, i as int);
                }
                names.remove(i);
                let list = links.remove(i);
                *self = Topology { names, links };
                proof {
                    assert forall|k: int| 0 <= k < self.names@.len() implies (#[trigger] self.names@[k])
                        == before[if k < i { k } else { k + 1 }] by {}
                    assert forall|key: Seq<char>| has_name(self.names@, key) == (has_name(
                        before,
                        key,
                    ) && key != name@) by {
                        if has_name(self.names@, key) {
                            let at = place_of(self.names@, key);
                            let was = if at < i { at } else { at + 1 };
                            assert(before[was]@ == key);
                            lemma_place_is_unique(before, was);
                        }
                        if has_name(before, key) && key != name@ {
                            let was = place_of(before, key);
                            let at = if was < i { was } else { was - 1 };
                            assert(self.names@[at]@ == key);
                        }
                    }
                    assert forall|key: Seq<char>| has_name(self.names@, key) implies #[trigger] self@[key]
                        == goal[key] by {
                        let at = place_of(self.names@, key);
                        let was = if at < i { at } else { at + 1 };
                        assert(before[was]@ == key);
                        lemma_place_is_unique(before, was);
                    }
                    assert(self@ =~= goal);
                }
                Some(list)
            },
            None => {
                *self = Topology { names, links };
                assert(self@ =~= goal);
                None
            },
        }
    }

    /// Empties the graph and hands out what it held.
    fn take(&mut self) -> (parts: (Vec<String>, Vec<Vec<String>>))
        ensures
            parts.0 == old(self).names,
            parts.1 == old(self).links,
    {
        let mut held = Topology { names: Vec::new(), links: Vec::new() };
        core::mem::swap(self, &mut held);
        let Topology { names, links } = held;
        (names, links)
    }

    proof fn lemma_domain_size(&self)
        requires
            self.names.len() == self.links.len(),
            distinct(self.names@),
        ensures
            self@.dom().finite(),
            self@.dom().len() == self.names.len(),
    {
        let keys = spelled(self.names@);
        assert(keys.no_duplicates());
        assert(keys.to_set() =~= self@.dom()) by {
            assert forall|key: Seq<char>| keys.to_set().contains(key) == self@.dom().contains(
                key,
            ) by {
                if keys.to_set().contains(key) {
                    let at = choose|at: int| 0 <= at < keys.len() && keys[at] == key;
                    assert(self.names@[at]@ == key);
                }
                if has_name(self.names@, key) {
                    let at = place_of(self.names@, key);
                    assert(keys[at] == key);
                }
            }
        }
        keys.unique_seq_to_set();
    }
}

} // verus!
