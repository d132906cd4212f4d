//! The multi-line editor and the autocomplete field, driven by event
//! scripts.

use promptheus::editor::{
    find_autocomplete_suggestion, prompt_input_with_autocomplete, prompt_multiline,
    AutocompleteEvent, AutocompleteResult, EditorEvent, InputBuffer, MultilineResult,
};

#[test]
fn typing_linebreak_typing_enter_commits_both_lines() {
    let events = vec![
        EditorEvent::Type('a'),
        EditorEvent::LineBreak,
        EditorEvent::Type('b'),
        EditorEvent::Submit,
    ];
    match prompt_multiline(&events) {
        MultilineResult::Submitted(s) => assert_eq!(s, "a\nb"),
        _ => panic!("expected a submitted session"),
    }
}

#[test]
fn backspace_after_linebreak_returns_to_previous_line() {
    let mut buf = InputBuffer::new();
    buf.type_char('a');
    buf.line_break();
    assert_eq!(buf.lines, vec!["a".to_string()]);
    assert!(buf.current.is_empty());
    buf.backspace();
    assert!(buf.lines.is_empty());
    assert_eq!(buf.current, vec!['a']);
    buf.type_char('b');
    assert_eq!(buf.current, vec!['a', 'b']);
}

#[test]
fn backspace_removes_last_character_first() {
    let mut buf = InputBuffer::new();
    buf.type_char('h');
    buf.type_char('i');
    buf.backspace();
    assert_eq!(buf.current, vec!['h']);
}

#[test]
fn backspace_on_empty_editor_changes_nothing() {
    let mut buf = InputBuffer::new();
    buf.backspace();
    assert!(buf.lines.is_empty());
    assert!(buf.current.is_empty());
}

#[test]
fn paste_keeps_typed_prefix_on_current_line() {
    // A three-line paste with prefix "X" already typed: the first two pasted
    // lines are committed as they stand, and the last joins the prefix.
    let mut buf = InputBuffer::new();
    buf.type_char('X');
    buf.paste("line1\nline2\nline3");
    assert_eq!(buf.lines, vec!["line1".to_string(), "line2".to_string()]);
    let current: String = buf.current.iter().collect();
    assert_eq!(current, "Xline3");
}

#[test]
fn paste_single_line_extends_current_line() {
    let mut buf = InputBuffer::new();
    buf.type_char('a');
    buf.paste("bc");
    assert!(buf.lines.is_empty());
    let current: String = buf.current.iter().collect();
    assert_eq!(current, "abc");
}

#[test]
fn empty_first_enter_gives_one_empty_line() {
    let events = vec![EditorEvent::Submit];
    match prompt_multiline(&events) {
        MultilineResult::Submitted(s) => assert_eq!(s, ""),
        _ => panic!("expected a submitted session"),
    }
}

#[test]
fn escape_cancels_the_session() {
    let events = vec![EditorEvent::Type('a'), EditorEvent::Cancel];
    assert!(matches!(prompt_multiline(&events), MultilineResult::Cancelled));
}

#[test]
fn exhausted_script_is_pending() {
    let events = vec![EditorEvent::Type('a')];
    assert!(matches!(prompt_multiline(&events), MultilineResult::Pending));
}

#[test]
fn suggestion_completes_first_matching_entry() {
    let suggestions = vec!["work".to_string(), "world".to_string()];
    assert_eq!(find_autocomplete_suggestion("wo", &suggestions), "rk");
    assert_eq!(find_autocomplete_suggestion("worl", &suggestions), "d");
}

#[test]
fn suggestion_needs_two_characters() {
    let suggestions = vec!["work".to_string()];
    assert_eq!(find_autocomplete_suggestion("w", &suggestions), "");
}

#[test]
fn suggestion_skips_exact_match() {
    let suggestions = vec!["work".to_string()];
    assert_eq!(find_autocomplete_suggestion("work", &suggestions), "");
}

#[test]
fn tab_accepts_the_shown_suggestion() {
    let suggestions = vec!["coding".to_string()];
    let events = vec![
        AutocompleteEvent::Type('c'),
        AutocompleteEvent::Type('o'),
        AutocompleteEvent::Tab,
        AutocompleteEvent::Submit,
    ];
    match prompt_input_with_autocomplete(&events, &suggestions) {
        AutocompleteResult::Submitted(s) => assert_eq!(s, "coding"),
        _ => panic!("expected a submitted session"),
    }
}

#[test]
fn second_tab_adds_nothing_until_the_next_keystroke() {
    // After Tab accepts "work", no suggestion is shown, so another Tab
    // changes nothing even though "workshop" would extend the input.
    let suggestions = vec!["work".to_string(), "workshop".to_string()];
    let events = vec![
        AutocompleteEvent::Type('w'),
        AutocompleteEvent::Type('o'),
        AutocompleteEvent::Tab,
        AutocompleteEvent::Tab,
        AutocompleteEvent::Submit,
    ];
    match prompt_input_with_autocomplete(&events, &suggestions) {
        AutocompleteResult::Submitted(s) => assert_eq!(s, "work"),
        _ => panic!("expected a submitted session"),
    }
}

#[test]
fn autocomplete_submit_trims_the_input() {
    let suggestions: Vec<String> = Vec::new();
    let events = vec![
        AutocompleteEvent::Type(' '),
        AutocompleteEvent::Type('h'),
        AutocompleteEvent::Type('i'),
        AutocompleteEvent::Type(' '),
        AutocompleteEvent::Submit,
    ];
    match prompt_input_with_autocomplete(&events, &suggestions) {
        AutocompleteResult::Submitted(s) => assert_eq!(s, "hi"),
        _ => panic!("expected a submitted session"),
    }
}

#[test]
fn autocomplete_escape_cancels() {
    let suggestions: Vec<String> = Vec::new();
    let events = vec![AutocompleteEvent::Type('a'), AutocompleteEvent::Cancel];
    assert!(matches!(
        prompt_input_with_autocomplete(&events, &suggestions),
        AutocompleteResult::Cancelled
    ));
}
