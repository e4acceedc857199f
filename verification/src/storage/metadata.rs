//! Collection metadata with a schema version: creation and update times,
//! vector dimensions and the number of stored vectors.
use vstd::prelude::*;
use crate::storage::clock::unix_time_secs;
use crate::storage::collection_metadata::dimensions_after;

verus! {

/// Version of the metadata layout that this library writes.
pub const SCHEMA_VERSION: u32 = 1;

/// The schema version assumed for metadata that does not record one.
pub fn default_schema_version() -> (v: u32)
    ensures
        v == SCHEMA_VERSION,
{
    SCHEMA_VERSION
}

/// Bookkeeping kept for each collection.
#[derive(Debug, Clone)]
pub struct CollectionMetadata {
    pub schema_version: u32,
    pub name: String,
    /// Unix time, in seconds, when the collection was created.
    pub created_at: u64,
    /// Unix time, in seconds, of the last change.
    pub updated_at: u64,
    /// Dimension that vectors must have, once known.
    pub dimensions: Option<usize>,
    pub vector_count: usize,
}

impl CollectionMetadata {
    /// Fresh metadata for collection `name`, created and updated at Unix
    /// time `now`, with no dimension fixed and no vector.
    pub fn new_at(name: String, now: u64) -> (m: Self)
        ensures
            m.schema_version == SCHEMA_VERSION,
            m.name@ == name@,
            m.created_at == now,
            m.updated_at == now,
            m.dimensions is None,
            m.vector_count == 0,
    {
        CollectionMetadata {
            schema_version: SCHEMA_VERSION,
            name,
            created_at: now,
            updated_at: now,
            dimensions: None,
            vector_count: 0,
        }
    }

    /// Fresh metadata for collection `name`, created and updated now (the
    /// clock's reading; a clock set before 1970 reads as 0), with no
    /// dimension fixed and no vector.
    pub fn new(name: String) -> (m: Self)
        ensures
            m.schema_version == SCHEMA_VERSION,
            m.name@ == name@,
            m.created_at == m.updated_at,
            m.dimensions is None,
            m.vector_count == 0,
    {
        match unix_time_secs() {
            Some(now) => Self::new_at(name, now),
            None => Self::new_at(name, 0),
        }
    }

    /// Fresh metadata for collection `name` whose vectors have `dimensions`
    /// components.
    pub fn with_dimensions(name: String, dimensions: usize) -> (m: Self)
        ensures
            m.schema_version == SCHEMA_VERSION,
            m.name@ == name@,
            m.created_at == m.updated_at,
            m.dimensions == Some(dimensions),
            m.vector_count == 0,
    {
        let mut meta = Self::new(name);
        meta.dimensions = Some(dimensions);
        meta
    }

    /// Records Unix time `now` as the time of the last change.
    pub fn touch_at(&mut self, now: u64)
        ensures
            final(self).updated_at == now,
            final(self).schema_version == old(self).schema_version,
            final(self).name == old(self).name,
            final(self).created_at == old(self).created_at,
            final(self).dimensions == old(self).dimensions,
            final(self).vector_count == old(self).vector_count,
    {
        self.updated_at = now;
    }

    /// Records the current time (the clock's reading) as the time of the
    /// last change; a clock set before 1970 leaves the time as it was.
    pub fn touch(&mut self)
        ensures
            final(self).schema_version == old(self).schema_version,
            final(self).name == old(self).name,
            final(self).created_at == old(self).created_at,
            final(self).dimensions == old(self).dimensions,
            final(self).vector_count == old(self).vector_count,
    {
        if let Some(now) = unix_time_secs() {
            self.touch_at(now);
        }
    }

    /// Fixes the vector dimension if none is fixed yet; a dimension once
    /// fixed stays.
    pub fn set_dimensions(&mut self, dimensions: usize)
        ensures
            final(self).dimensions == dimensions_after(old(self).dimensions, dimensions),
            final(self).schema_version == old(self).schema_version,
            final(self).name == old(self).name,
            final(self).created_at == old(self).created_at,
            final(self).updated_at == old(self).updated_at,
            final(self).vector_count == old(self).vector_count,
    {
        if self.dimensions.is_none() {
            self.dimensions = Some(dimensions);
        }
    }

    /// Records the number of stored vectors and the time of the change.
    pub fn update_vector_count(&mut self, count: usize)
        ensures
            final(self).vector_count == count,
            final(self).schema_version == old(self).schema_version,
            final(self).name == old(self).name,
            final(self).created_at == old(self).created_at,
            final(self).dimensions == old(self).dimensions,
    {
        self.vector_count = count;
        self.touch();
    }
}

} // verus!
