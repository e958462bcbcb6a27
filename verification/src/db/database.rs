use vstd::prelude::*;

verus! {

/// Options for indexing files.
#[derive(Debug, Clone, Copy)]
pub struct IndexOptions {
    /// Only update files marked as dirty.
    pub dirty_only: bool,
    /// Index file contents, not just metadata.
    pub index_contents: bool,
    /// Largest file to index, in bytes.
    pub max_size: Option<u64>,
}

impl Default for IndexOptions {
    fn default() -> (o: Self)
        ensures
            !o.dirty_only,
            o.index_contents,
            o.max_size == Some(1_000_000u64),
    {
        IndexOptions { dirty_only: false, index_contents: true, max_size: Some(1_000_000) }
    }
}

} // verus!
