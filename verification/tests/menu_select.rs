//! The built-in selectors, driven by key scripts.

use promptheus::menu::{CustomSelection, MenuKey, MenuSelector};

fn three_items() -> Vec<String> {
    vec!["a".to_string(), "b".to_string(), "c".to_string()]
}

#[test]
fn empty_list_selects_nothing_without_reading_keys() {
    let items: Vec<String> = Vec::new();
    let keys: Vec<MenuKey> = Vec::new();
    assert_eq!(MenuSelector::select_single(&items, &keys), None);
}

#[test]
fn down_twice_then_enter_selects_index_two() {
    let keys = vec![MenuKey::Down, MenuKey::Down, MenuKey::Enter];
    assert_eq!(MenuSelector::select_single(&three_items(), &keys), Some(2));
}

#[test]
fn up_from_first_row_stays_on_first_row() {
    let keys = vec![MenuKey::Up, MenuKey::Enter];
    assert_eq!(MenuSelector::select_single(&three_items(), &keys), Some(0));
}

#[test]
fn down_clamps_at_last_row() {
    let keys = vec![
        MenuKey::Down,
        MenuKey::Down,
        MenuKey::Down,
        MenuKey::Down,
        MenuKey::Enter,
    ];
    assert_eq!(MenuSelector::select_single(&three_items(), &keys), Some(2));
}

#[test]
fn q_cancels_single_select() {
    let keys = vec![MenuKey::Down, MenuKey::Char('q')];
    assert_eq!(MenuSelector::select_single(&three_items(), &keys), None);
}

#[test]
fn escape_cancels_single_select() {
    let keys = vec![MenuKey::Esc];
    assert_eq!(MenuSelector::select_single(&three_items(), &keys), None);
}

#[test]
fn exhausted_keys_select_nothing() {
    let keys = vec![MenuKey::Down];
    assert_eq!(MenuSelector::select_single(&three_items(), &keys), None);
}

#[test]
fn space_marks_rows_and_enter_confirms() {
    let keys = vec![
        MenuKey::Char(' '),
        MenuKey::Down,
        MenuKey::Down,
        MenuKey::Char(' '),
        MenuKey::Enter,
    ];
    assert_eq!(MenuSelector::select_multi(&three_items(), &keys), vec![0, 2]);
}

#[test]
fn space_toggles_a_mark_off_again() {
    let keys = vec![MenuKey::Char(' '), MenuKey::Char(' '), MenuKey::Enter];
    assert!(MenuSelector::select_multi(&three_items(), &keys).is_empty());
}

#[test]
fn multi_select_on_empty_list_is_empty() {
    let items: Vec<String> = Vec::new();
    let keys = vec![MenuKey::Enter];
    assert!(MenuSelector::select_multi(&items, &keys).is_empty());
}

#[test]
fn multi_select_cancel_returns_empty() {
    let keys = vec![MenuKey::Char(' '), MenuKey::Esc];
    assert!(MenuSelector::select_multi(&three_items(), &keys).is_empty());
}

#[test]
fn custom_select_picks_a_listed_item() {
    let keys = vec![MenuKey::Down, MenuKey::Enter];
    match MenuSelector::select_with_custom(&three_items(), &keys) {
        Some(CustomSelection::Picked(i)) => assert_eq!(i, 1),
        other => panic!("expected a picked index, got {:?}", other.is_some()),
    }
}

#[test]
fn custom_select_types_a_new_value_on_the_virtual_row() {
    let keys = vec![
        MenuKey::Down,
        MenuKey::Down,
        MenuKey::Down,
        MenuKey::Enter,
        MenuKey::Char('n'),
        MenuKey::Char('e'),
        MenuKey::Char('w'),
        MenuKey::Enter,
    ];
    match MenuSelector::select_with_custom(&three_items(), &keys) {
        Some(CustomSelection::Custom(s)) => assert_eq!(s, "new"),
        _ => panic!("expected a typed value"),
    }
}

#[test]
fn custom_select_empty_text_falls_back_to_the_list() {
    let keys = vec![
        MenuKey::Char('c'),
        MenuKey::Enter,
        MenuKey::Enter,
    ];
    match MenuSelector::select_with_custom(&three_items(), &keys) {
        Some(CustomSelection::Picked(i)) => assert_eq!(i, 0),
        _ => panic!("expected a picked index after falling back"),
    }
}

#[test]
fn custom_select_empty_list_selects_nothing() {
    let items: Vec<String> = Vec::new();
    let keys = vec![MenuKey::Enter];
    assert!(MenuSelector::select_with_custom(&items, &keys).is_none());
}
