use clog_tracker::dashboard::{InputMode, KeyInput, TerminalUI};
use clog_tracker::store::ClogTracker;

fn bits(v: f64) -> u64 {
    v.to_bits()
}

fn store_with(names: &[&str]) -> ClogTracker {
    let mut tracker = ClogTracker::new();
    for (i, n) in names.iter().enumerate() {
        tracker.record_metric(n.to_string(), bits(1.0), i, i as u64);
    }
    tracker
}

#[test]
fn filtering_empty_query_returns_every_name() {
    let tracker = store_with(&["loss", "val_loss", "acc"]);
    let all = tracker.filtered_names(&"".to_string());
    assert_eq!(all, vec!["loss".to_string(), "val_loss".to_string(), "acc".to_string()]);
}

#[test]
fn filtering_is_substring_based() {
    let tracker = store_with(&["loss", "val_loss", "acc"]);
    let hits = tracker.filtered_names(&"loss".to_string());
    assert_eq!(hits, vec!["loss".to_string(), "val_loss".to_string()]);
    assert!(!hits.contains(&"acc".to_string()));
}

#[test]
fn filtering_is_case_sensitive() {
    let tracker = store_with(&["Loss", "loss"]);
    let hits = tracker.filtered_names(&"Lo".to_string());
    assert_eq!(hits, vec!["Loss".to_string()]);
}

#[test]
fn navigation_wraps_around() {
    let tracker = store_with(&["a", "b", "c"]);
    let mut ui = TerminalUI::new();
    ui.selected_metric = Some("c".to_string());
    ui.next_metric(&tracker);
    assert_eq!(ui.selected_metric, Some("a".to_string()));
    ui.previous_metric(&tracker);
    assert_eq!(ui.selected_metric, Some("c".to_string()));
}

#[test]
fn navigation_from_no_selection() {
    let tracker = store_with(&["a", "b", "c"]);
    let mut ui = TerminalUI::new();
    ui.next_metric(&tracker);
    assert_eq!(ui.selected_metric, Some("a".to_string()));
    let mut ui2 = TerminalUI::new();
    ui2.previous_metric(&tracker);
    assert_eq!(ui2.selected_metric, Some("c".to_string()));
}

#[test]
fn navigation_steps_through_the_list() {
    let tracker = store_with(&["a", "b", "c"]);
    let mut ui = TerminalUI::new();
    ui.selected_metric = Some("a".to_string());
    ui.next_metric(&tracker);
    assert_eq!(ui.selected_metric, Some("b".to_string()));
    ui.previous_metric(&tracker);
    assert_eq!(ui.selected_metric, Some("a".to_string()));
}

#[test]
fn stale_selection_recovers_to_first() {
    let tracker = store_with(&["apple", "banana"]);
    let mut ui = TerminalUI::new();
    ui.selected_metric = Some("banana".to_string());
    ui.search_query = "app".to_string();
    // "banana" is no longer in the filtered list; both directions reset to
    // the first entry.
    ui.next_metric(&tracker);
    assert_eq!(ui.selected_metric, Some("apple".to_string()));
    let mut ui2 = TerminalUI::new();
    ui2.selected_metric = Some("banana".to_string());
    ui2.search_query = "app".to_string();
    ui2.previous_metric(&tracker);
    assert_eq!(ui2.selected_metric, Some("apple".to_string()));
}

#[test]
fn empty_filtered_list_leaves_selection_alone() {
    let tracker = store_with(&["a"]);
    let mut ui = TerminalUI::new();
    ui.selected_metric = Some("a".to_string());
    ui.search_query = "zzz".to_string();
    ui.next_metric(&tracker);
    assert_eq!(ui.selected_metric, Some("a".to_string()));
}

#[test]
fn key_transitions_follow_the_table() {
    let tracker = store_with(&["a", "b"]);
    let mut ui = TerminalUI::new();
    assert_eq!(ui.input_mode, InputMode::Normal);

    // Normal: '/' enters search mode, no quit.
    assert!(!ui.handle_key(&tracker, KeyInput::Char('/')));
    assert_eq!(ui.input_mode, InputMode::Searching);

    // Searching: printable characters extend the query ('q' included).
    assert!(!ui.handle_key(&tracker, KeyInput::Char('q')));
    assert!(!ui.handle_key(&tracker, KeyInput::Char('x')));
    assert_eq!(ui.search_query, "qx".to_string());

    // Searching: backspace removes the last character.
    assert!(!ui.handle_key(&tracker, KeyInput::Backspace));
    assert_eq!(ui.search_query, "q".to_string());

    // Searching: enter returns to normal mode.
    assert!(!ui.handle_key(&tracker, KeyInput::Enter));
    assert_eq!(ui.input_mode, InputMode::Normal);

    // Normal: 'q' and escape quit, leaving state alone.
    assert!(ui.handle_key(&tracker, KeyInput::Char('q')));
    assert!(ui.handle_key(&tracker, KeyInput::Esc));
    assert_eq!(ui.input_mode, InputMode::Normal);
    assert_eq!(ui.search_query, "q".to_string());
}

#[test]
fn backspace_on_empty_query_is_a_no_op() {
    let tracker = store_with(&[]);
    let mut ui = TerminalUI::new();
    ui.handle_key(&tracker, KeyInput::Char('/'));
    assert!(!ui.handle_key(&tracker, KeyInput::Backspace));
    assert_eq!(ui.search_query, "".to_string());
    assert_eq!(ui.input_mode, InputMode::Searching);
}

#[test]
fn down_key_navigates_selection() {
    let tracker = store_with(&["a", "b"]);
    let mut ui = TerminalUI::new();
    assert!(!ui.handle_key(&tracker, KeyInput::Down));
    assert_eq!(ui.selected_metric, Some("a".to_string()));
    assert!(!ui.handle_key(&tracker, KeyInput::Up));
    assert_eq!(ui.selected_metric, Some("b".to_string()));
}
