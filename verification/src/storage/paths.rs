//! Names of the files that sit beside a collection's data file.
use vstd::prelude::*;
use vstd::string::*;

verus! {

/// The file holding a collection's persisted vector index.
pub fn get_index_file_path(collection_path: &str) -> (p: String)
    ensures
        p@ == collection_path@ + ".hnswindex.bin"@,
{
    String::from_str(collection_path).concat(".hnswindex.bin")
}

/// The file holding a collection's persisted metadata.
pub fn get_metadata_path(collection_path: &str) -> (p: String)
    ensures
        p@ == collection_path@ + ".metadata.db"@,
{
    String::from_str(collection_path).concat(".metadata.db")
}

} // verus!
