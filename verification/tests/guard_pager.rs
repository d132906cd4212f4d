//! The terminal mode guard's release guarantees, the pagination decision,
//! and the preview builder.

use promptheus::error::AppError;
use promptheus::pager::{
    parse_yes_no, rows_or_fallback, should_paginate, truncated_preview, DEFAULT_TERMINAL_ROWS,
};
use promptheus::guard::TerminalModeGuard;

fn lines(n: usize) -> String {
    let mut s = String::new();
    let mut i = 0;
    while i < n {
        if i > 0 {
            s.push('\n');
        }
        s.push_str("line");
        i += 1;
    }
    s
}

#[test]
fn release_clears_both_flags_even_after_an_error_path() {
    // Simulate an interactive scope that fails mid-way: the guard was
    // acquired with both modes on, the work errored, and the scope runs the
    // release on its way out.
    let mut guard = TerminalModeGuard { raw_mode_active: true, bracketed_paste_active: true };
    let failing_step: Result<(), AppError> = Err(AppError::System("boom".to_string()));
    assert!(failing_step.is_err());
    guard.release();
    assert!(!guard.raw_mode_active);
    assert!(!guard.bracketed_paste_active);
}

#[test]
fn release_without_bracketed_paste_clears_flags_too() {
    let mut guard = TerminalModeGuard { raw_mode_active: true, bracketed_paste_active: false };
    guard.release();
    assert!(!guard.raw_mode_active);
    assert!(!guard.bracketed_paste_active);
}

#[test]
fn pagination_triggers_just_above_two_thirds_of_the_height() {
    let height: u16 = 24;
    // 24 * 2 / 3 == 16 lines: at the threshold nothing is paged, one line
    // above it is.
    assert!(!should_paginate(&lines(16), height));
    assert!(should_paginate(&lines(17), height));
}

#[test]
fn pagination_on_odd_heights_rounds_the_threshold_down() {
    let height: u16 = 25;
    assert!(!should_paginate(&lines(16), height));
    assert!(should_paginate(&lines(17), height));
}

#[test]
fn short_content_is_never_paged() {
    assert!(!should_paginate("one line", 24));
    assert!(!should_paginate("", 24));
}

#[test]
fn fallback_height_is_twenty_four() {
    let failed: Result<(u16, u16), AppError> = Err(AppError::System("no tty".to_string()));
    assert_eq!(rows_or_fallback(&failed), DEFAULT_TERMINAL_ROWS);
    assert_eq!(DEFAULT_TERMINAL_ROWS, 24);
    let probed: Result<(u16, u16), AppError> = Ok((50, 120));
    assert_eq!(rows_or_fallback(&probed), 50);
}

#[test]
fn short_preview_is_the_content_itself() {
    assert_eq!(truncated_preview("a\nb\nc"), "a\nb\nc");
}

#[test]
fn long_preview_shows_head_marker_and_tail() {
    let mut numbered = String::new();
    for i in 0..12 {
        if i > 0 {
            numbered.push('\n');
        }
        numbered.push_str(&format!("l{}", i));
    }
    let preview = truncated_preview(&numbered);
    assert_eq!(
        preview,
        "l0\nl1\nl2\nl3\nl4\n[...]\nl7\nl8\nl9\nl10\nl11"
    );
}

#[test]
fn yes_no_answers_parse_case_insensitively() {
    assert_eq!(parse_yes_no("y"), Some(true));
    assert_eq!(parse_yes_no("YES"), Some(true));
    assert_eq!(parse_yes_no(" n "), Some(false));
    assert_eq!(parse_yes_no("No"), Some(false));
    assert_eq!(parse_yes_no(""), Some(false));
    assert_eq!(parse_yes_no("maybe"), None);
}
