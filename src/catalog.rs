use vstd::prelude::*;

verus! {

/// An extraction module that the workbench offers for a piece of evidence.
#[derive(Clone, Debug)]
pub struct ExtractionModule {
    pub id: String,
    pub name: String,
    pub description: String,
}

/// What an opened filesystem reports of itself.
#[derive(Clone, Debug)]
pub struct FsInfo {
    pub filesystem_type: String,
    pub block_size: u64,
}

} // verus!
