//! The data-sync collaborator's argument record. The retrieval itself —
//! cloning an external repository of vulnerability definitions onto disk —
//! is I/O and lives with the binary around this library; the core only
//! consumes its success or failure signal.

use vstd::prelude::*;

verus! {

/// The source URL and the destination path of one data-sync run.
#[allow(dead_code)]
pub struct Args {
    arg_url: String,
    arg_path: String,
}

} // verus!
