//! The command line, as plain values: what `bulk-merge` was asked to do.
use crate::config::LibgenDumpKind;
use vstd::prelude::*;
use vstd::string::StringExecFns;

verus! {

broadcast use vstd::string::group_string_axioms;

/// Global options and the command.
pub struct Args {
    /// Path to the TOML configuration file.
    pub config: Option<String>,
    /// Only report what mutating commands would do.
    pub dry_run: bool,
    /// Overrides the configured log level.
    pub log_level: Option<String>,
    /// Overrides the configured log format (`human` or `json`).
    pub log_format: Option<String>,
    pub command: Command,
}

/// The commands.
pub enum Command {
    /// Create the database schemas and bookkeeping tables.
    InitDb,
    /// LibGen operations.
    Libgen { command: LibgenCommand },
    /// Open Library operations.
    Openlibrary { command: OpenlibraryCommand },
}

/// The LibGen operations.
pub enum LibgenCommand {
    /// Load a dump into PostgreSQL.
    Ingest {
        kind: LibgenDumpKindArg,
        dump: String,
        dataset_id: Option<String>,
        dataset_version: Option<String>,
    },
    /// Update loaded tables from a newer dump.
    Update {
        kind: LibgenDumpKindArg,
        dump: String,
        dataset_id: Option<String>,
        dataset_version: Option<String>,
    },
    /// Report the loaded tables and recent runs.
    Stats,
    /// Report a few rows of a table.
    Sample { kind: LibgenDumpKindArg, mysql_table: String, limit: u32 },
    /// Check that a table holds rows.
    Validate { kind: LibgenDumpKindArg, mysql_table: String },
    /// Convert a dump into TSV files.
    Convert { kind: LibgenDumpKindArg, dump: String, out_dir: Option<String> },
    /// Load converted TSV files.
    Load {
        in_dir: String,
        dataset_id: Option<String>,
        dataset_version: Option<String>,
        import_run_id: Option<i64>,
        resume_latest: bool,
    },
    /// Report how far the load of an import run got.
    LoadStatus { import_run_id: i64 },
}

/// The Open Library operations.
pub enum OpenlibraryCommand {
    /// Load the authors, editions and works dumps given or configured.
    Ingest {
        authors: Option<String>,
        editions: Option<String>,
        works: Option<String>,
        dataset_id: Option<String>,
    },
}

/// A dump kind on the command line.
#[derive(Debug, Clone, Copy, PartialEq, Eq, Structural)]
pub enum LibgenDumpKindArg {
    Fiction,
    Compact,
}

impl From<LibgenDumpKindArg> for LibgenDumpKind {
    fn from(value: LibgenDumpKindArg) -> (r: LibgenDumpKind) {
        match value {
            LibgenDumpKindArg::Fiction => LibgenDumpKind::Fiction,
            LibgenDumpKindArg::Compact => LibgenDumpKind::Compact,
        }
    }
}

impl vstd::std_specs::convert::FromSpecImpl<LibgenDumpKindArg> for LibgenDumpKind {
    open spec fn obeys_from_spec() -> bool {
        true
    }

    open spec fn from_spec(value: LibgenDumpKindArg) -> LibgenDumpKind {
        match value {
            LibgenDumpKindArg::Fiction => LibgenDumpKind::Fiction,
            LibgenDumpKindArg::Compact => LibgenDumpKind::Compact,
        }
    }
}

/// The configuration file read: the one given, else `config/bulk-merge.toml`.
pub fn config_path(given: Option<String>) -> (r: String)
    ensures
        r@ == match given {
            Some(p) => p@,
            None => "config/bulk-merge.toml"@,
        },
{
    match given {
        Some(p) => p,
        None => "config/bulk-merge.toml".to_string(),
    }
}

/// The operation of an ingest or update command, as the run planning names it.
pub fn libgen_op(command: &LibgenCommand) -> (r: Option<&'static str>)
    ensures
        match command {
            LibgenCommand::Ingest { .. } => r matches Some(s) && s@ == "ingest"@,
            LibgenCommand::Update { .. } => r matches Some(s) && s@ == "update"@,
            _ => r is None,
        },
{
    match command {
        LibgenCommand::Ingest { .. } => Some("ingest"),
        LibgenCommand::Update { .. } => Some("update"),
        _ => None,
    }
}

} // verus!
