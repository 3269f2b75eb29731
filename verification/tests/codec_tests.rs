use clipman::codec::{decode_history, encode_history, history_from_text, history_to_text};
use clipman::history::History;
use clipman::snapshot::Snapshot;

fn cv(s: &str) -> Vec<char> {
    s.chars().collect()
}

fn snap(ts: &str, content: &str) -> Snapshot {
    Snapshot { timestamp: cv(ts), content: cv(content) }
}

fn text_of(v: &[char]) -> String {
    v.iter().collect()
}

fn contents(h: &History) -> Vec<String> {
    let mut out = Vec::new();
    let mut i = 0;
    while let Some(c) = h.content_at(i) {
        out.push(c.iter().collect::<String>());
        i += 1;
    }
    out
}

#[test]
fn encode_empty_history() {
    let text = encode_history(&Vec::new());
    assert_eq!(text_of(&text), "[]");
}

#[test]
fn encode_one_entry_exactly() {
    let entries = vec![snap("2024-01-01 00:00:00", "a")];
    let text = encode_history(&entries);
    assert_eq!(
        text_of(&text),
        "[\n{\"timestamp\":\"2024-01-01 00:00:00\",\"content\":\"a\"}\n]"
    );
}

#[test]
fn encode_escapes_special_characters() {
    let entries = vec![snap("t", "a\"b\\c\nd\re\tf")];
    let text = encode_history(&entries);
    assert_eq!(
        text_of(&text),
        "[\n{\"timestamp\":\"t\",\"content\":\"a\\\"b\\\\c\\nd\\re\\tf\"}\n]"
    );
}

#[test]
fn round_trip_several_entries() {
    let entries = vec![
        snap("2024-01-01 00:00:00", "plain"),
        snap("2024-01-01 00:00:01", "with \"quotes\" and \\slashes\\"),
        snap("2024-01-01 00:00:02", "line\nbreaks\r\tand tabs"),
        snap("2024-01-01 00:00:03", ""),
    ];
    let text = encode_history(&entries);
    let back = decode_history(&text).expect("written file must read back");
    assert_eq!(back.len(), entries.len());
    for (a, b) in entries.iter().zip(back.iter()) {
        assert_eq!(a.timestamp, b.timestamp);
        assert_eq!(a.content, b.content);
    }
}

#[test]
fn round_trip_empty_history() {
    let text = encode_history(&Vec::new());
    let back = decode_history(&text).unwrap();
    assert!(back.is_empty());
}

#[test]
fn decode_rejects_corrupt_text() {
    for bad in [
        "",
        "[",
        "]",
        "[}",
        "not json at all",
        "[\n{\"timestamp\":\"t\",\"content\":\"a\"}",
        "[\n{\"timestamp\":\"t\",\"content\":\"a\"}\n",
        "[\n{\"timestamp\":\"t\"}\n]",
        "[\n{\"timestamp\":\"t\",\"content\":\"a\\x\"}\n]",
        "[\n{\"timestamp\":\"t\",\"content\":\"a\"},\n]",
    ] {
        assert!(decode_history(&cv(bad)).is_none(), "accepted: {bad}");
    }
}

#[test]
fn history_round_trips_through_text() {
    let mut h = History::new(10);
    h.insert(snap("t1", "alpha"));
    h.insert(snap("t2", "beta\n"));
    let text = history_to_text(&h);
    let back = history_from_text(&text, 10);
    assert_eq!(contents(&back), vec!["alpha", "beta\n"]);
}

#[test]
fn corrupt_file_degrades_to_empty() {
    let back = history_from_text(&cv("{{ corrupted }}"), 10);
    assert_eq!(back.len(), 0);
}

#[test]
fn load_trims_to_retention_bound() {
    let entries = vec![snap("t1", "a"), snap("t2", "b"), snap("t3", "c")];
    let text = encode_history(&entries);
    let back = history_from_text(&text, 2);
    assert_eq!(contents(&back), vec!["b", "c"]);
}
