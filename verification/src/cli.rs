//! The options of one run.

use crate::reporter::Mode;
use vstd::prelude::*;

verus! {

/// What a run is asked to do: where to look, which files are too small to
/// matter, and how duplicates are to be treated.
#[derive(Clone, Debug, PartialEq, Eq)]
pub struct Args {
    /// Directory to scan for duplicates.
    pub path: String,
    /// Minimum file size in bytes to consider.
    pub min_size: u64,
    /// Delete duplicates without asking.
    pub force: bool,
    /// Only show duplicates, never delete.
    pub dry_run: bool,
}

impl Args {
    /// How the run treats duplicates: dry-run wins over force, and without
    /// either it asks.
    pub fn mode(&self) -> (mode: Mode)
        ensures
            mode == Mode::of_flags(self.dry_run, self.force),
    {
        Mode::from_flags(self.dry_run, self.force)
    }
}

impl Default for Args {
    /// The current directory, every non-empty file, ask before deleting.
    fn default() -> (args: Args)
        ensures
            args.path@ == "."@,
            args.min_size == 1,
            !args.force,
            !args.dry_run,
    {
        Args { path: ".".to_owned(), min_size: 1, force: false, dry_run: false }
    }
}

} // verus!
