use clipman::history::History;
use clipman::snapshot::Snapshot;

fn cv(s: &str) -> Vec<char> {
    s.chars().collect()
}

fn snap(ts: &str, content: &str) -> Snapshot {
    Snapshot { timestamp: cv(ts), content: cv(content) }
}

fn contents(h: &History) -> Vec<String> {
    let mut out = Vec::new();
    let mut i = 0;
    while let Some(c) = h.content_at(i) {
        out.push(c.iter().collect::<String>());
        i += 1;
    }
    out
}

#[test]
fn empty_history() {
    let h = History::new(5);
    assert_eq!(h.len(), 0);
    assert!(h.content_at(0).is_none());
}

#[test]
fn insert_keeps_order() {
    let mut h = History::new(10);
    h.insert(snap("t1", "a"));
    h.insert(snap("t2", "b"));
    h.insert(snap("t3", "c"));
    assert_eq!(h.len(), 3);
    assert_eq!(contents(&h), vec!["a", "b", "c"]);
}

#[test]
fn bounded_retention_evicts_oldest() {
    let mut h = History::new(3);
    for (i, c) in ["a", "b", "c", "d", "e"].iter().enumerate() {
        h.insert(snap(&format!("t{}", i), c));
        assert!(h.len() <= 3);
    }
    assert_eq!(contents(&h), vec!["c", "d", "e"]);
}

#[test]
fn retention_bound_one() {
    let mut h = History::new(1);
    h.insert(snap("t1", "a"));
    h.insert(snap("t2", "b"));
    assert_eq!(contents(&h), vec!["b"]);
}

#[test]
fn from_entries_within_bound() {
    let entries = vec![snap("t1", "a"), snap("t2", "b")];
    let h = History::from_entries(entries, 5);
    assert_eq!(contents(&h), vec!["a", "b"]);
}

#[test]
fn from_entries_trims_oldest() {
    let entries = vec![snap("t1", "a"), snap("t2", "b"), snap("t3", "c"), snap("t4", "d")];
    let h = History::from_entries(entries, 2);
    assert_eq!(contents(&h), vec!["c", "d"]);
}

#[test]
fn copy_entries_is_field_for_field() {
    let mut h = History::new(4);
    h.insert(snap("t1", "a"));
    h.insert(snap("t2", "b"));
    let copy = h.copy_entries();
    assert_eq!(copy.len(), 2);
    assert_eq!(copy[0].timestamp, cv("t1"));
    assert_eq!(copy[0].content, cv("a"));
    assert_eq!(copy[1].timestamp, cv("t2"));
    assert_eq!(copy[1].content, cv("b"));
}
