//! A prompt/snippet manager library whose core is an interactive terminal
//! input and selection subsystem: a multi-line raw-mode line editor, arrow-key
//! menu selection, a bridge to an external fuzzy-finder process with a
//! NUL-delimited candidate protocol, a built-in fuzzy scorer, a pagination
//! decision, and a terminal-mode guard model.
//!
//! All decision logic lives here with contracts; terminal drawing, key
//! reading, process spawning and file I/O live outside the library and hand
//! it plain values.

pub mod cli;
pub mod clipboard;
pub mod config;
pub mod display;
pub mod editor;
pub mod error;
pub mod finder;
pub mod fuzzy;
pub mod guard;
pub mod manager;
pub mod menu;
pub mod pager;
pub mod prompts;
pub mod storage;
pub mod sync;
pub mod text;
pub mod vars;
