use vstd::prelude::*;

verus! {

/// One file of an uploaded file list.
pub struct FileSourceItem {
    pub file_path: String,
    pub upload_timestamp: u64,
    pub file_size: u64,
}

} // verus!
