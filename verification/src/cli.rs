//! The command model: what each command line asks the manager to do, as
//! plain data.
//!
//! Argument parsing itself runs outside the library; it fills these
//! structures and hands them to the handlers.

use vstd::prelude::*;

verus! {

/// One invocation: global switches plus the command to run.
#[derive(Debug)]
pub struct Cli {
    pub config: Option<String>,
    pub debug: bool,
    pub interactive: bool,
    pub command: Commands,
}

/// The commands the manager understands.
#[derive(Debug)]
pub enum Commands {
    New(NewArgs),
    Edit(EditArgs),
    List(ListArgs),
    Search(SearchArgs),
    Exec(ExecArgs),
    Delete(DeleteArgs),
    Show(ShowArgs),
    Config(ConfigArgs),
    Sync(SyncArgs),
    Push,
    Import(ImportArgs),
    Export(ExportArgs),
}

/// Arguments of the create command.
#[derive(Debug)]
pub struct NewArgs {
    pub title: Option<String>,
    pub description: Option<String>,
    pub tag: Option<String>,
    pub category: Option<String>,
    pub editor: bool,
    pub content: Option<String>,
}

/// Arguments of the edit command.
#[derive(Debug)]
pub struct EditArgs {
    pub identifier: Option<String>,
    pub id: Option<String>,
    pub tag: Option<String>,
    pub category: Option<String>,
    pub file: bool,
    pub editor: Option<String>,
    pub line: Option<u32>,
}

/// Arguments of the list command.
#[derive(Debug)]
pub struct ListArgs {
    pub tag: Option<String>,
    pub category: Option<String>,
    pub format: Option<ListFormat>,
    pub stats: bool,
    pub tags: bool,
    pub categories: bool,
}

/// Arguments of the search command.
#[derive(Debug)]
pub struct SearchArgs {
    pub tag: Option<String>,
    pub category: Option<String>,
    pub query: Option<String>,
    pub execute: bool,
    pub copy: bool,
}

/// Arguments of the execute command.
#[derive(Debug)]
pub struct ExecArgs {
    pub identifier: Option<String>,
    pub copy: bool,
    pub output: bool,
    pub vars: Vec<String>,
}

/// Arguments of the delete command.
#[derive(Debug)]
pub struct DeleteArgs {
    pub identifier: String,
    pub force: bool,
}

/// Arguments of the show command.
#[derive(Debug)]
pub struct ShowArgs {
    pub identifier: String,
    pub vars: Vec<String>,
}

/// Arguments of the sync command.
#[derive(Debug)]
pub struct SyncArgs {
    pub upload: bool,
    pub download: bool,
    pub force: bool,
}

/// Arguments of the import command.
#[derive(Debug)]
pub struct ImportArgs {
    pub file: String,
    pub format: Option<ImportFormat>,
    pub merge: bool,
}

/// Arguments of the export command.
#[derive(Debug)]
pub struct ExportArgs {
    pub file: String,
    pub format: ExportFormat,
    pub tag: Option<String>,
    pub category: Option<String>,
}

/// How a listing is laid out.
#[derive(Clone, Copy, Debug, PartialEq, Eq, Structural)]
pub enum ListFormat {
    Simple,
    Detailed,
    Table,
    Json,
}

/// The formats imports are read from.
#[derive(Clone, Copy, Debug, PartialEq, Eq, Structural)]
pub enum ImportFormat {
    Toml,
    Json,
    Yaml,
}

/// The formats exports are written to.
#[derive(Clone, Copy, Debug, PartialEq, Eq, Structural)]
pub enum ExportFormat {
    Toml,
    Json,
    Yaml,
    Markdown,
}

/// Arguments of the configuration command.
#[derive(Debug)]
pub struct ConfigArgs {
    pub command: Option<ConfigCommands>,
}

/// The configuration subcommands.
#[derive(Clone, Copy, Debug, PartialEq, Eq, Structural)]
pub enum ConfigCommands {
    Show,
    Open,
    Reset,
}

} // verus!
