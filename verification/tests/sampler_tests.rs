use clipman::history::History;
use clipman::sampler::{is_blank_exec, Sampler};
use clipman::view::{display_list, InputMode};

fn cv(s: &str) -> Vec<char> {
    s.chars().collect()
}

fn contents(h: &History) -> Vec<String> {
    let mut out = Vec::new();
    let mut i = 0;
    while let Some(c) = h.content_at(i) {
        out.push(c.iter().collect::<String>());
        i += 1;
    }
    out
}

#[test]
fn first_read_is_recorded() {
    let mut h = History::new(5);
    let mut s = Sampler::new();
    let recorded = s.observe_with_timestamp(&mut h, cv("hello"), cv("t1"));
    assert!(recorded);
    assert_eq!(contents(&h), vec!["hello"]);
}

#[test]
fn identical_reads_never_grow_history() {
    let mut h = History::new(5);
    let mut s = Sampler::new();
    assert!(s.observe_with_timestamp(&mut h, cv("v"), cv("t1")));
    for i in 0..10 {
        let recorded = s.observe_with_timestamp(&mut h, cv("v"), cv(&format!("t{}", i + 2)));
        assert!(!recorded);
    }
    assert_eq!(h.len(), 1);
}

#[test]
fn changed_read_appends_exactly_one() {
    let mut h = History::new(5);
    let mut s = Sampler::new();
    assert!(s.observe_with_timestamp(&mut h, cv("v"), cv("t1")));
    assert!(s.observe_with_timestamp(&mut h, cv("w"), cv("t2")));
    assert_eq!(contents(&h), vec!["v", "w"]);
}

#[test]
fn dedup_is_whitespace_sensitive() {
    let mut h = History::new(5);
    let mut s = Sampler::new();
    assert!(s.observe_with_timestamp(&mut h, cv("v"), cv("t1")));
    assert!(s.observe_with_timestamp(&mut h, cv("v "), cv("t2")));
    assert_eq!(h.len(), 2);
}

#[test]
fn blank_reads_are_never_recorded() {
    let mut h = History::new(5);
    let mut s = Sampler::new();
    for text in ["\n", "\r", "\n\n\r\n", "\r\r\r\r\r\r\r\r", ""] {
        let recorded = s.observe_with_timestamp(&mut h, cv(text), cv("t"));
        assert!(!recorded);
    }
    assert_eq!(h.len(), 0);
}

#[test]
fn blank_check_examples() {
    assert!(is_blank_exec(&cv("")));
    assert!(is_blank_exec(&cv("\n\r")));
    assert!(!is_blank_exec(&cv(" ")));
    assert!(!is_blank_exec(&cv("a\n")));
}

#[test]
fn blank_read_keeps_last_memory() {
    let mut h = History::new(5);
    let mut s = Sampler::new();
    assert!(s.observe_with_timestamp(&mut h, cv("v"), cv("t1")));
    assert!(!s.observe_with_timestamp(&mut h, cv("\n"), cv("t2")));
    assert!(!s.observe_with_timestamp(&mut h, cv("v"), cv("t3")));
    assert_eq!(h.len(), 1);
}

#[test]
fn end_to_end_scenario() {
    let mut h = History::new(3);
    let mut s = Sampler::new();
    let mut t = 0;
    for text in ["a", "a", "b", "c", "d"] {
        t += 1;
        s.observe_with_timestamp(&mut h, cv(text), cv(&format!("t{}", t)));
    }
    assert_eq!(contents(&h), vec!["b", "c", "d"]);
    let shown = display_list(&h.copy_entries(), &InputMode::Normal);
    let shown_contents: Vec<String> = shown.iter().map(|e| e.content.iter().collect()).collect();
    assert_eq!(shown_contents, vec!["d", "c", "b"]);
}
