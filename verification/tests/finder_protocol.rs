//! The external finder bridge: command splitting, the NUL-delimited
//! protocol, and answer parsing.

use promptheus::finder::{
    decode_candidates, encode_candidates, find_result, finder_extra_args, parse_finder_output,
    plan_finder, recover_index, split_command,
};

#[test]
fn unavailable_executable_means_no_result_not_an_error() {
    assert_eq!(find_result(false, true, "enter\nwhatever"), None);
}

#[test]
fn candidate_with_embedded_newline_round_trips_as_one_record() {
    let items = vec!["x\ny".to_string()];
    let encoded = encode_candidates(&items);
    assert_eq!(encoded, "x\ny\0");
    let decoded = decode_candidates(&encoded);
    assert_eq!(decoded, vec!["x\ny".to_string()]);
}

#[test]
fn several_candidates_round_trip() {
    let items = vec![
        "first".to_string(),
        "".to_string(),
        "multi\nline\npreview".to_string(),
    ];
    assert_eq!(decode_candidates(&encode_candidates(&items)), items);
}

#[test]
fn empty_candidate_list_encodes_to_nothing() {
    let items: Vec<String> = Vec::new();
    assert_eq!(encode_candidates(&items), "");
    assert!(decode_candidates("").is_empty());
}

#[test]
fn failing_exit_status_means_nothing_selected() {
    assert_eq!(parse_finder_output(false, "enter\nchoice"), None);
}

#[test]
fn fewer_than_two_lines_means_nothing_selected() {
    assert_eq!(parse_finder_output(true, "enter"), None);
    assert_eq!(parse_finder_output(true, ""), None);
}

#[test]
fn second_line_is_the_trimmed_selection() {
    assert_eq!(
        parse_finder_output(true, "enter\n  choice  \n"),
        Some("choice".to_string())
    );
}

#[test]
fn empty_selection_after_trimming_means_nothing_selected() {
    assert_eq!(parse_finder_output(true, "enter\n   "), None);
}

#[test]
fn split_command_separates_executable_and_arguments() {
    assert_eq!(
        split_command("fzf --height=40%  --border"),
        vec![
            "fzf".to_string(),
            "--height=40%".to_string(),
            "--border".to_string()
        ]
    );
    assert!(split_command("   ").is_empty());
}

#[test]
fn fzf_gets_the_convenience_flags() {
    let args = finder_extra_args("fzf", &Some("que".to_string()));
    assert_eq!(
        args,
        vec![
            "--height=40%".to_string(),
            "--layout=reverse".to_string(),
            "--border".to_string(),
            "--inline-info".to_string(),
            "--prompt=o ".to_string(),
            "--read0".to_string(),
            "--ansi".to_string(),
            "--expect=ctrl-c,esc".to_string(),
            "--query=que".to_string(),
        ]
    );
}

#[test]
fn peco_gets_only_the_query() {
    let args = finder_extra_args("peco", &Some("q".to_string()));
    assert_eq!(args, vec!["--query".to_string(), "q".to_string()]);
    assert!(finder_extra_args("peco", &None).is_empty());
    assert!(finder_extra_args("unknown-tool", &Some("q".to_string())).is_empty());
}

#[test]
fn plan_finder_builds_the_whole_invocation() {
    let items = vec!["a".to_string(), "b".to_string()];
    let inv = plan_finder(&items, "sk --tac", &None)
        .expect("valid command")
        .expect("non-empty items");
    assert_eq!(inv.program, "sk");
    assert_eq!(inv.args, vec!["--tac".to_string()]);
    assert_eq!(inv.payload, "a\0b\0");
}

#[test]
fn plan_finder_skips_empty_item_lists() {
    let items: Vec<String> = Vec::new();
    assert!(plan_finder(&items, "fzf", &None).unwrap().is_none());
}

#[test]
fn plan_finder_rejects_an_empty_command() {
    let items = vec!["a".to_string()];
    assert!(plan_finder(&items, "  ", &None).is_err());
}

#[test]
fn recover_index_finds_the_first_equal_display_string() {
    let items = vec!["one".to_string(), "two".to_string(), "two".to_string()];
    assert_eq!(recover_index(&items, "two"), Some(1));
    assert_eq!(recover_index(&items, "three"), None);
}
