//! The configuration the CLI layer hands to the schema builder: an immutable
//! struct with the connection options and the selected subcommand. The CLI
//! layer parses the arguments and fills the documented defaults; this module
//! only carries the typed values.

use vstd::prelude::*;

verus! {

/// The global options of one invocation.
pub struct Opt {
    /// Database host; the CLI defaults to `127.0.0.1`.
    pub dbhost: String,
    /// Database port; the CLI defaults to 4000.
    pub dbport: u32,
    /// Database name; the CLI defaults to `tidb`.
    pub db: String,
    /// User name; the CLI defaults to `tidb`.
    pub user: String,
    /// Password; the CLI defaults to `tidb`.
    pub pwd: String,
    /// The selected subcommand.
    pub cmd: Cmd,
}

/// The subcommands of the tool.
pub enum Cmd {
    /// Prepare schema and data: `tables` tables (CLI default 1) with the
    /// given column descriptors (default a 10-column mix of int, varchar,
    /// datetime and text), primary-key positions (default `1,3,2`), row
    /// count (default 100000) and index descriptors (default
    /// `unique_2_3,5`).
    Prepare {
        tables: u32,
        columns: Vec<String>,
        primary: Vec<String>,
        rows: u32,
        indexes: Vec<String>,
    },
    /// Run the insert workload over `rows` rows (CLI default 100000).
    Insert { rows: u32 },
    /// Run the update workload over `rows` rows (CLI default 100000),
    /// through an index when `index` is set.
    Update { rows: u32, index: bool },
}

} // verus!
