//! The pagination decision and the short preview shown before offering the
//! full-screen pager, plus the terminal size probe.
//!
//! The full-screen pager itself and the yes/no prompt's input reading live
//! outside the library; the library decides whether to page, builds the
//! preview text, and interprets the user's answer.

use vstd::prelude::*;

use crate::error::AppError;
use crate::text::{
    chars_of, eq_ic_chars, join_with, line_count, lines_of, lines_strings, trim_of, views_of,
    yes_no_of,
};

verus! {

/// The terminal height assumed when the size probe fails.
pub const DEFAULT_TERMINAL_ROWS: u16 = 24;

/// Relies on `crossterm::terminal::size`, which returns (columns, rows):
/// the current terminal size as (rows, columns). The value depends on the
/// terminal the process runs in, so nothing more can be promised of it.
#[verifier::external_body]
pub fn get_terminal_size() -> Result<(u16, u16), AppError> {
    crossterm::terminal::size().map(|(width, height)| (height, width)).map_err(
        |e| AppError::System(format!("Failed to get terminal size: {}", e)),
    )
}

/// The rows out of a probe result, or the fixed fallback if the probe
/// failed.
pub fn rows_or_fallback(probe: &Result<(u16, u16), AppError>) -> (r: u16)
    ensures
        probe matches Ok(p) ==> r == p.0,
        probe is Err ==> r == DEFAULT_TERMINAL_ROWS,
{
    match probe {
        Ok((rows, _cols)) => *rows,
        Err(_e) => DEFAULT_TERMINAL_ROWS,
    }
}

/// The number of lines of `content`, as `str::lines` counts them.
pub fn count_lines(content: &str) -> (r: usize)
    ensures
        r as nat == line_count(content@),
{
    let cs = chars_of(content);
    let ls = lines_strings(&cs);
    proof {
        assert(views_of(ls@).len() == lines_of(content@).len());
    }
    ls.len()
}

/// Whether `content` should be paged: true exactly when its line count
/// exceeds two thirds of the terminal height.
pub fn should_paginate(content: &str, terminal_height: u16) -> (r: bool)
    ensures
        r == (line_count(content@) > (terminal_height as int) * 2 / 3),
{
    let lc = count_lines(content);
    let threshold: u32 = (terminal_height as u32) * 2 / 3;
    lc as u64 > threshold as u64
}

/// The preview text: short content stands as it is; longer content shows its
/// first five lines, a truncation marker, and its last five lines.
pub open spec fn preview_of(s: Seq<char>) -> Seq<char> {
    let ls = lines_of(s);
    if ls.len() <= 10 {
        s
    } else {
        join_with(ls.take(5).push("[...]"@) + ls.skip(ls.len() - 5), '\n')
    }
}

/// Build the preview of `content`.
pub fn truncated_preview(content: &str) -> (r: String)
    ensures
        r@ == preview_of(content@),
{
    let cs = chars_of(content);
    let ls = lines_strings(&cs);
    let n: usize = ls.len();
    if n <= 10 {
        let r = content.to_owned();
        return r;
    }
    let mut parts: Vec<String> = Vec::new();
    let mut i: usize = 0;
    while i < 5
        invariant
            i <= 5,
            n == ls@.len() > 10,
            views_of(ls@) == lines_of(content@),
            views_of(parts@) == lines_of(content@).take(5).take(i as int),
        decreases 5 - i,
    {
        let ghost prev = parts@;
        let line = ls[i].clone();
        proof {
            crate::text::lemma_views_push(prev, line);
        }
        parts.push(line);
        i = i + 1;
        proof {
            assert(views_of(parts@) =~~= lines_of(content@).take(5).take(i as int));
        }
    }
    let ghost prev5 = parts@;
    let marker = String::from_str("[...]");
    proof {
        crate::text::lemma_views_push(prev5, marker);
    }
    parts.push(marker);
    let mut j: usize = n - 5;
    while j < n
        invariant
            n - 5 <= j <= n,
            n == ls@.len() > 10,
            views_of(ls@) == lines_of(content@),
            views_of(parts@) == lines_of(content@).take(5).push("[...]"@) + lines_of(
                content@,
            ).skip(n - 5).take(j - (n - 5)),
        decreases n - j,
    {
        let ghost prev = parts@;
        let line = ls[j].clone();
        proof {
            crate::text::lemma_views_push(prev, line);
        }
        parts.push(line);
        j = j + 1;
        proof {
            assert(views_of(parts@) =~~= lines_of(content@).take(5).push("[...]"@) + lines_of(
                content@,
            ).skip(n - 5).take(j - (n - 5)));
        }
    }
    proof {
        assert(lines_of(content@).skip(n - 5).take(5) =~~= lines_of(content@).skip(n - 5));
        assert(views_of(parts@) =~~= lines_of(content@).take(5).push("[...]"@) + lines_of(
            content@,
        ).skip(n - 5));
    }
    crate::text::join_strings(&parts, '\n')
}

/// Classify a pager error: a user-initiated abort of the pager (its message
/// mentions an abort, in any letter case) counts as normal completion, not
/// a failure.
pub fn is_pager_abort_message(message: &str) -> (r: bool)
    ensures
        r == crate::text::has_substring(crate::text::lower_of(message@), "abort"@),
{
    let folded = crate::text::fold_case(message);
    let m = chars_of(folded.as_str());
    let w = chars_of("abort");
    crate::text::contains_chars(&m, &w)
}

/// Interpret one line typed at a yes/no prompt. `None` asks the caller to
/// prompt again.
pub fn parse_yes_no(input: &str) -> (r: Option<bool>)
    ensures
        r == yes_no_of(trim_of(input@)),
{
    let cs = chars_of(input);
    let t = crate::text::trim_chars(&cs);
    if eq_ic_chars(&t, "y") || eq_ic_chars(&t, "yes") {
        Some(true)
    } else if t.len() == 0 || eq_ic_chars(&t, "n") || eq_ic_chars(&t, "no") {
        Some(false)
    } else {
        None
    }
}

} // verus!
