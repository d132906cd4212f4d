//! The terminal mode guard: raw mode and bracketed paste as a modelled
//! resource pair, acquired for the duration of one interactive session and
//! released on every path out of it.
//!
//! The two flags model the process-wide terminal state; at most one guard is
//! logically active at a time. Release writes a fresh line, turns bracketed
//! paste off (if it was on), then turns raw mode off — in that order — and
//! swallows any secondary error, so a failed restoration never masks the
//! session's own outcome.

use vstd::prelude::*;

use crate::error::AppError;

verus! {

/// Relies on `crossterm::terminal::enable_raw_mode`: switches the terminal
/// into raw mode; the result only reports whether that succeeded.
#[verifier::external_body]
fn enable_raw_mode_call() -> Result<(), String> {
    crossterm::terminal::enable_raw_mode().map_err(|e| e.to_string())
}

/// Relies on `crossterm::terminal::disable_raw_mode`: switches raw mode off.
#[verifier::external_body]
fn disable_raw_mode_call() -> Result<(), String> {
    crossterm::terminal::disable_raw_mode().map_err(|e| e.to_string())
}

/// Relies on `crossterm::event::EnableBracketedPaste` executed on stdout:
/// asks the terminal to wrap pasted text in markers.
#[verifier::external_body]
fn enable_bracketed_paste_call() -> Result<(), String> {
    crossterm::ExecutableCommand::execute(
        &mut std::io::stdout(),
        crossterm::event::EnableBracketedPaste,
    ).map(|_| ()).map_err(|e| e.to_string())
}

/// Relies on `crossterm::event::DisableBracketedPaste` executed on stdout.
#[verifier::external_body]
fn disable_bracketed_paste_call() -> Result<(), String> {
    crossterm::ExecutableCommand::execute(
        &mut std::io::stdout(),
        crossterm::event::DisableBracketedPaste,
    ).map(|_| ()).map_err(|e| e.to_string())
}

/// Relies on `crossterm::style::Print` executed on stdout: emits a carriage
/// return and newline so the cursor starts a fresh line.
#[verifier::external_body]
fn print_fresh_line() -> Result<(), String> {
    crossterm::ExecutableCommand::execute(
        &mut std::io::stdout(),
        crossterm::style::Print("\r\n"),
    ).map(|_| ()).map_err(|e| e.to_string())
}

/// The guard over the terminal's mode flags. While a guard with
/// `raw_mode_active` exists, the terminal is in raw mode; `release` must be
/// called on every path out of the owning scope, after which both flags are
/// false again.
pub struct TerminalModeGuard {
    pub raw_mode_active: bool,
    pub bracketed_paste_active: bool,
}

impl TerminalModeGuard {
    /// Switch the terminal into raw mode and, if asked, bracketed-paste
    /// reporting. Failure to acquire raw mode is a system error, not a
    /// cancellation; a failure to enable bracketed paste alone is ignored,
    /// as the editor still works without paste events.
    pub fn acquire(bracketed_paste: bool) -> (r: Result<TerminalModeGuard, AppError>)
        ensures
            r matches Ok(g) ==> g.raw_mode_active && g.bracketed_paste_active == bracketed_paste,
            r matches Err(e) ==> e is System,
    {
        match enable_raw_mode_call() {
            Ok(_u) => {},
            Err(m) => {
                return Err(AppError::System(m));
            },
        }
        if bracketed_paste {
            let _ignored = enable_bracketed_paste_call();
        }
        Ok(TerminalModeGuard { raw_mode_active: true, bracketed_paste_active: bracketed_paste })
    }

    /// Restore the terminal: a fresh line first, then bracketed paste off if
    /// it was on, then raw mode off. Errors during restoration are
    /// swallowed; after the call both flags are false whatever happened
    /// before or during it.
    pub fn release(&mut self)
        ensures
            !final(self).raw_mode_active,
            !final(self).bracketed_paste_active,
    {
        let _ignored = print_fresh_line();
        if self.bracketed_paste_active {
            let _ignored2 = disable_bracketed_paste_call();
        }
        let _ignored3 = disable_raw_mode_call();
        self.raw_mode_active = false;
        self.bracketed_paste_active = false;
    }
}

} // verus!
