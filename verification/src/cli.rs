use vstd::prelude::*;

verus! {

/// The command-line arguments: the configuration file's path and whether
/// to only check the configuration.
pub struct Args {
    pub config: String,
    pub dry_run: bool,
}

} // verus!
