//! The commands the tool understands, and how results are shown.

use vstd::prelude::*;
use crate::keyed::str_eq;

verus! {

/// A command of the tool.
#[derive(Clone, Debug, PartialEq, Eq)]
pub enum Cli {
    /// Index the file or directory at `path`.
    Index { path: String },
    /// Answer `query` from the `top_k` nearest chunks, shown as `format`,
    /// in session `session` (an id, or `new`).
    Query { query: String, top_k: usize, format: String, session: Option<String> },
    /// List, clear or switch sessions.
    Sessions { list: bool, clear: bool, switch: Option<String> },
    /// Set the API key or show the settings.
    Config { set_api_key: Option<String>, show: bool },
}

/// How search results are shown.
#[derive(Clone, Copy, Debug, PartialEq, Eq, Structural)]
pub enum OutputFormat {
    Json,
    Markdown,
    /// An answer written by the chat model from the results.
    Smart,
    /// Each result with its source, distance and highlighted text.
    Pretty,
}

/// The format named `name`; any name not known means `Pretty`.
pub fn output_format(name: &str) -> (r: OutputFormat)
    ensures
        r == (if name@ == "json"@ {
            OutputFormat::Json
        } else if name@ == "markdown"@ {
            OutputFormat::Markdown
        } else if name@ == "smart"@ {
            OutputFormat::Smart
        } else {
            OutputFormat::Pretty
        }),
{
    if str_eq(name, "json") {
        OutputFormat::Json
    } else if str_eq(name, "markdown") {
        OutputFormat::Markdown
    } else if str_eq(name, "smart") {
        OutputFormat::Smart
    } else {
        OutputFormat::Pretty
    }
}

impl Cli {
    /// Whether the command needs the API key before it runs.
    pub fn needs_api_key(&self) -> (r: bool)
        ensures
            r == !(self is Config),
    {
        match self {
            Cli::Config { .. } => false,
            _ => true,
        }
    }
}

} // verus!
