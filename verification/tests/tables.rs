use mjollnir::names::find;
use mjollnir::topology::copy_names;
use mjollnir::{KnowledgeMap, Topology};
use std::collections::HashSet;

fn name(text: &str) -> String {
    text.to_string()
}

fn names(list: &[&str]) -> Vec<String> {
    list.iter().map(|n| name(n)).collect()
}

fn set(values: &[usize]) -> HashSet<usize> {
    values.iter().copied().collect()
}

#[test]
fn find_gives_the_first_place() {
    let list = names(&["a", "b", "a", "c"]);
    assert_eq!(find(&list, &name("a")), Some(0));
    assert_eq!(find(&list, &name("b")), Some(1));
    assert_eq!(find(&list, &name("c")), Some(3));
    assert_eq!(find(&list, &name("d")), None);
    assert_eq!(find(&names(&[]), &name("a")), None);
    assert_eq!(find(&list, &name("")), None);
}

#[test]
fn copy_names_keeps_order() {
    assert_eq!(copy_names(&names(&["x", "y", "x"])), names(&["x", "y", "x"]));
    assert_eq!(copy_names(&names(&[])), names(&[]));
}

#[test]
fn knowledge_starts_blank_for_each_member() {
    let table = KnowledgeMap::new(&names(&["n1", "n2", "n1"]));
    assert_eq!(table.get(&name("n1")), Some(&set(&[])));
    assert_eq!(table.get(&name("n2")), Some(&set(&[])));
    assert_eq!(table.get(&name("n3")), None);
    assert!(table.contains(&name("n1")));
    assert!(!table.contains(&name("n3")));
    assert!(!KnowledgeMap::new(&names(&[])).contains(&name("n1")));
}

#[test]
fn knowledge_records_per_member() {
    let mut table = KnowledgeMap::new(&names(&["n1", "n2"]));
    assert!(table.record(&name("n2"), &set(&[1, 2])));
    assert!(table.record(&name("n2"), &set(&[2, 3])));
    assert!(table.record(&name("n1"), &set(&[])));
    assert_eq!(table.get(&name("n2")), Some(&set(&[1, 2, 3])));
    assert_eq!(table.get(&name("n1")), Some(&set(&[])));
}

#[test]
fn knowledge_of_a_stranger_is_not_recorded() {
    let mut table = KnowledgeMap::new(&names(&["n1"]));
    assert!(!table.record(&name("n7"), &set(&[1])));
    assert_eq!(table.get(&name("n7")), None);
    assert_eq!(table.get(&name("n1")), Some(&set(&[])));
}

#[test]
fn topology_insert_get_remove() {
    let mut graph = Topology::new();
    assert_eq!(graph.len(), 0);
    graph.insert(name("n1"), names(&["n2", "n3"]));
    graph.insert(name("n2"), names(&["n1"]));
    graph.insert(name("n3"), names(&[]));
    assert_eq!(graph.len(), 3);
    let mut listed = graph.names().clone();
    listed.sort();
    assert_eq!(listed, names(&["n1", "n2", "n3"]));
    assert!(graph.contains(&name("n2")));
    assert!(!graph.contains(&name("n4")));
    assert_eq!(graph.get(&name("n1")), Some(&names(&["n2", "n3"])));
    assert_eq!(graph.get(&name("n4")), None);
    assert_eq!(graph.remove(&name("n1")), Some(names(&["n2", "n3"])));
    assert_eq!(graph.remove(&name("n1")), None);
    assert_eq!(graph.len(), 2);
    assert_eq!(graph.get(&name("n2")), Some(&names(&["n1"])));
    assert_eq!(graph.get(&name("n3")), Some(&names(&[])));
    let mut listed = graph.names().clone();
    listed.sort();
    assert_eq!(listed, names(&["n2", "n3"]));
}

#[test]
fn topology_insert_replaces() {
    let mut graph = Topology::new();
    graph.insert(name("n1"), names(&["n2"]));
    graph.insert(name("n2"), names(&["n1"]));
    graph.insert(name("n1"), names(&["n3", "n2"]));
    assert_eq!(graph.len(), 2);
    assert_eq!(graph.get(&name("n1")), Some(&names(&["n3", "n2"])));
    assert_eq!(graph.get(&name("n2")), Some(&names(&["n1"])));
}

#[test]
fn topology_copy_is_equal_and_separate() {
    let mut graph = Topology::new();
    graph.insert(name("n1"), names(&["n2"]));
    graph.insert(name("n2"), names(&["n1", "n3"]));
    let copy = graph.copy();
    graph.remove(&name("n1"));
    assert_eq!(copy.len(), 2);
    assert_eq!(copy.get(&name("n1")), Some(&names(&["n2"])));
    assert_eq!(copy.get(&name("n2")), Some(&names(&["n1", "n3"])));
    assert_eq!(graph.len(), 1);
}
