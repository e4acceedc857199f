//! Upkeep decisions: when a checkpoint is due, and when the in-memory
//! caches have drifted from the index and must be rebuilt.
use vstd::prelude::*;

verus! {

/// Whether the checkpoint interval has elapsed: a checkpoint was taken at
/// `last`, an interval is configured, and at least that many seconds have
/// passed by `now` (a clock behind the checkpoint counts as none passed).
pub open spec fn interval_elapsed(last: Option<u64>, interval: Option<u64>, now: u64) -> bool {
    match (last, interval) {
        (Some(ts), Some(iv)) => (if now >= ts { now - ts } else { 0 }) >= iv,
        _ => false,
    }
}

/// Whether a checkpoint is due after an operation: when the operation
/// counter says so, or when the checkpoint interval has elapsed.
pub fn checkpoint_due(counter_due: bool, last: Option<u64>, interval: Option<u64>, now: u64) -> (due: bool)
    ensures
        due == (counter_due || interval_elapsed(last, interval, now)),
{
    let elapsed = match (last, interval) {
        (Some(ts), Some(iv)) => {
            let passed = if now >= ts { now - ts } else { 0 };
            passed >= iv
        },
        _ => false,
    };
    counter_due || elapsed
}

/// Whether `ids` holds `id`.
fn holds(ids: &Vec<u128>, id: u128) -> (r: bool)
    ensures
        r == ids@.contains(id),
{
    let mut i: usize = 0;
    while i < ids.len()
        invariant
            i <= ids@.len(),
            forall|j: int| 0 <= j < i ==> ids@[j] != id,
        decreases ids@.len() - i,
    {
        if ids[i] == id {
            assert(ids@[i as int] == id);
            return true;
        }
        i = i + 1;
    }
    false
}

/// Whether the vector and metadata caches must be rebuilt: when the vector
/// cache holds another number of entries than the index, or some indexed id
/// is missing from either cache.
pub fn caches_need_rebuild(index_ids: &Vec<u128>, vector_ids: &Vec<u128>, metadata_ids: &Vec<u128>) -> (r: bool)
    ensures
        r == (vector_ids@.len() != index_ids@.len() || exists|i: int| 0 <= i < index_ids@.len()
            && (!vector_ids@.contains(#[trigger] index_ids@[i]) || !metadata_ids@.contains(index_ids@[i]))),
{
    if vector_ids.len() != index_ids.len() {
        return true;
    }
    let mut i: usize = 0;
    while i < index_ids.len()
        invariant
            i <= index_ids@.len(),
            vector_ids@.len() == index_ids@.len(),
            forall|j: int| 0 <= j < i ==> vector_ids@.contains(#[trigger] index_ids@[j]) && metadata_ids@.contains(index_ids@[j]),
        decreases index_ids@.len() - i,
    {
        let id = index_ids[i];
        if !holds(vector_ids, id) || !holds(metadata_ids, id) {
            return true;
        }
        i = i + 1;
    }
    false
}

} // verus!
