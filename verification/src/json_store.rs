//! Where a ledger is kept between runs.

use vstd::prelude::*;

verus! {

/// A store that keeps one ledger as JSON in one file. The library only
/// names the file; reading and writing it is left to the program around
/// the library.
pub struct JsonStore {
    pub file_path: String,
}

impl JsonStore {
    /// The store that keeps its ledger in the file at `path`.
    pub fn new(path: &str) -> (store: JsonStore)
        ensures
            store.file_path@ == path@,
    {
        JsonStore { file_path: path.to_owned() }
    }
}

} // verus!
