use clipman::history::History;
use clipman::snapshot::Snapshot;
use clipman::view::{
    contains_query, display_line, display_list, restore_target, BrowseAction, InputMode, Key,
    ViewState,
};

fn cv(s: &str) -> Vec<char> {
    s.chars().collect()
}

fn snap(ts: &str, content: &str) -> Snapshot {
    Snapshot { timestamp: cv(ts), content: cv(content) }
}

fn sample_history() -> History {
    let mut h = History::new(10);
    h.insert(snap("t1", "apple"));
    h.insert(snap("t2", "banana"));
    h.insert(snap("t3", "grape"));
    h
}

fn shown_contents(entries: &[Snapshot]) -> Vec<String> {
    entries.iter().map(|e| e.content.iter().collect()).collect()
}

#[test]
fn substring_check_examples() {
    assert!(contains_query(&cv("banana"), &cv("nan")));
    assert!(contains_query(&cv("banana"), &cv("")));
    assert!(contains_query(&cv("banana"), &cv("banana")));
    assert!(!contains_query(&cv("banana"), &cv("bananas")));
    assert!(!contains_query(&cv("banana"), &cv("Ban")));
}

#[test]
fn normal_display_is_most_recent_first() {
    let h = sample_history();
    let shown = display_list(&h.copy_entries(), &InputMode::Normal);
    assert_eq!(shown_contents(&shown), vec!["grape", "banana", "apple"]);
}

#[test]
fn search_filters_by_substring() {
    let h = sample_history();
    let shown = display_list(&h.copy_entries(), &InputMode::Searching(cv("ap")));
    assert_eq!(shown_contents(&shown), vec!["grape", "apple"]);
}

#[test]
fn search_is_case_sensitive() {
    let h = sample_history();
    let shown = display_list(&h.copy_entries(), &InputMode::Searching(cv("AP")));
    assert!(shown.is_empty());
}

#[test]
fn empty_query_shows_everything() {
    let h = sample_history();
    let shown = display_list(&h.copy_entries(), &InputMode::Searching(cv("")));
    assert_eq!(shown_contents(&shown), vec!["grape", "banana", "apple"]);
}

#[test]
fn restore_row_zero_is_most_recent() {
    let h = sample_history();
    let c = restore_target(&h, 0).unwrap();
    assert_eq!(c, cv("grape"));
    let c = restore_target(&h, 2).unwrap();
    assert_eq!(c, cv("apple"));
    assert!(restore_target(&h, 3).is_none());
}

#[test]
fn quit_key_exits() {
    let v = ViewState::init();
    let (_, a) = v.handle_key(Key::Char('q'), 3);
    assert_eq!(a, BrowseAction::Quit);
}

#[test]
fn down_clamps_to_length() {
    let v = ViewState::init();
    let (v, a) = v.handle_key(Key::Down, 3);
    assert_eq!(a, BrowseAction::Idle);
    assert_eq!(v.selected, 1);
    let (v, _) = v.handle_key(Key::Down, 3);
    let (v, _) = v.handle_key(Key::Down, 3);
    assert_eq!(v.selected, 2);
    let (v, _) = v.handle_key(Key::Down, 0);
    assert_eq!(v.selected, 2);
}

#[test]
fn up_clamps_to_zero() {
    let v = ViewState::init();
    let (v, _) = v.handle_key(Key::Up, 3);
    assert_eq!(v.selected, 0);
    let (v, _) = v.handle_key(Key::Down, 3);
    let (v, _) = v.handle_key(Key::Up, 3);
    assert_eq!(v.selected, 0);
}

#[test]
fn enter_restores_selected_row() {
    let v = ViewState::init();
    let (v, _) = v.handle_key(Key::Down, 3);
    let (_, a) = v.handle_key(Key::Enter, 3);
    assert_eq!(a, BrowseAction::Restore(1));
}

#[test]
fn enter_on_empty_history_does_nothing() {
    let v = ViewState::init();
    let (_, a) = v.handle_key(Key::Enter, 0);
    assert_eq!(a, BrowseAction::Idle);
}

#[test]
fn slash_begins_search() {
    let v = ViewState::init();
    let (v, a) = v.handle_key(Key::Char('/'), 3);
    assert_eq!(a, BrowseAction::Idle);
    assert_eq!(v.mode, InputMode::Searching(Vec::new()));
}

#[test]
fn search_query_editing() {
    let v = ViewState::init();
    let (v, _) = v.handle_key(Key::Char('/'), 3);
    let (v, _) = v.handle_key(Key::Char('a'), 3);
    let (v, _) = v.handle_key(Key::Char('b'), 3);
    assert_eq!(v.mode, InputMode::Searching(cv("ab")));
    let (v, _) = v.handle_key(Key::Backspace, 3);
    assert_eq!(v.mode, InputMode::Searching(cv("a")));
    let (v, _) = v.handle_key(Key::Backspace, 3);
    let (v, _) = v.handle_key(Key::Backspace, 3);
    assert_eq!(v.mode, InputMode::Searching(cv("")));
}

#[test]
fn esc_and_enter_leave_search() {
    let v = ViewState::init();
    let (v, _) = v.handle_key(Key::Char('/'), 3);
    let (v, _) = v.handle_key(Key::Char('x'), 3);
    let (v, _) = v.handle_key(Key::Esc, 3);
    assert_eq!(v.mode, InputMode::Normal);
    let (v, _) = v.handle_key(Key::Char('/'), 3);
    let (v, a) = v.handle_key(Key::Enter, 3);
    assert_eq!(a, BrowseAction::Idle);
    assert_eq!(v.mode, InputMode::Normal);
}

#[test]
fn up_down_ignored_while_searching() {
    let v = ViewState::init();
    let (v, _) = v.handle_key(Key::Down, 5);
    let (v, _) = v.handle_key(Key::Char('/'), 5);
    let (v, _) = v.handle_key(Key::Down, 5);
    assert_eq!(v.selected, 1);
    assert_eq!(v.mode, InputMode::Searching(Vec::new()));
}

#[test]
fn display_line_plain_content() {
    let line = display_line(&snap("2024-01-02 03:04:05", "hello"));
    let line: String = line.iter().collect();
    assert_eq!(line, "[2024-01-02 03:04:05] hello");
}

#[test]
fn display_line_marks_whitespace_only_content() {
    let line = display_line(&snap("t1", "\n"));
    let line: String = line.iter().collect();
    assert_eq!(line, "[t1] (whitespace: \"\\n\")");
    let line = display_line(&snap("t2", " \t"));
    let line: String = line.iter().collect();
    assert_eq!(line, "[t2] (whitespace: \" \\t\")");
}

#[test]
fn display_line_marks_unicode_whitespace() {
    let line: String = display_line(&snap("t", "\u{b}")).iter().collect();
    assert_eq!(line, "[t] (whitespace: \"\\u{b}\")");
    let line: String = display_line(&snap("t", "\u{a0}")).iter().collect();
    assert_eq!(line, "[t] (whitespace: \"\\u{a0}\")");
}

#[test]
fn display_line_marker_matches_debug_rendering() {
    for content in [
        " ",
        "\n",
        " \t\r\n",
        "\u{b}",
        "\u{c}",
        "\u{85}",
        "\u{a0}",
        "\u{1680}",
        "\u{2000}\u{2001}\u{2002}\u{2003}\u{2004}\u{2005}",
        "\u{2006}\u{2007}\u{2008}\u{2009}\u{200a}",
        "\u{2028}\u{2029}",
        "\u{202f}\u{205f}\u{3000}",
    ] {
        assert!(content.trim().is_empty());
        let line: String = display_line(&snap("t", content)).iter().collect();
        assert_eq!(line, format!("[t] (whitespace: {:?})", content));
    }
}

#[test]
fn display_line_mixed_content_stays_raw() {
    for content in ["\u{a0}x", "a\u{b}", " .", "\u{2028}!"] {
        assert!(!content.trim().is_empty());
        let line: String = display_line(&snap("t", content)).iter().collect();
        assert_eq!(line, format!("[t] {}", content));
    }
}
