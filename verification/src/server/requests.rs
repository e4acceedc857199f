//! Which requests the API accepts, and in which form.
use vstd::prelude::*;
use vstd::string::*;
use crate::server::error::{ServerError, RequestError, is_invalid_request};
use crate::validation::{ValidationError, validate_text, validate_batch_size, text_check};

verus! {

/// Most items that one batch request may carry.
pub const MAX_BATCH_SIZE: usize = 10_000;

/// Whether a request carries one item or a batch.
#[derive(Debug, Clone, Copy, PartialEq, Eq)]
pub enum RequestShape {
    Single,
    Batch,
}

/// Refuses every request once the server is shutting down.
pub fn check_not_shutting_down(shutting_down: bool) -> (r: Result<(), ServerError>)
    ensures
        r is Ok <==> !shutting_down,
        r matches Err(e) ==> (e matches ServerError::ServiceUnavailable(m) && m@ == "Server is shutting down"@),
{
    if shutting_down {
        return Err(ServerError::ServiceUnavailable(String::from_str("Server is shutting down")));
    }
    Ok(())
}

/// The shape of an insert request from whether it carries a single vector
/// and whether it carries a batch of vectors: exactly one of the two.
pub fn insert_shape(has_vector: bool, has_vectors: bool) -> (r: Result<RequestShape, ServerError>)
    ensures
        has_vector && !has_vectors ==> r == Ok::<RequestShape, ServerError>(RequestShape::Single),
        !has_vector && has_vectors ==> r == Ok::<RequestShape, ServerError>(RequestShape::Batch),
        has_vector && has_vectors ==> (r matches Err(e)
            && is_invalid_request(e, "Provide either vector or vectors, not both"@)),
        !has_vector && !has_vectors ==> (r matches Err(e) && is_invalid_request(e, "No vectors provided"@)),
{
    if has_vector && !has_vectors {
        Ok(RequestShape::Single)
    } else if !has_vector && has_vectors {
        Ok(RequestShape::Batch)
    } else if has_vector {
        Err(ServerError::InvalidRequest(String::from_str("Provide either vector or vectors, not both")))
    } else {
        Err(ServerError::InvalidRequest(String::from_str("No vectors provided")))
    }
}

/// The shape of a search request from whether it carries a single query
/// vector and whether it carries a batch of them: exactly one of the two.
pub fn search_shape(has_vector: bool, has_vectors: bool) -> (r: Result<RequestShape, ServerError>)
    ensures
        has_vector && !has_vectors ==> r == Ok::<RequestShape, ServerError>(RequestShape::Single),
        !has_vector && has_vectors ==> r == Ok::<RequestShape, ServerError>(RequestShape::Batch),
        has_vector && has_vectors ==> (r matches Err(e)
            && is_invalid_request(e, "Provide either vector or vectors, not both"@)),
        !has_vector && !has_vectors ==> (r matches Err(e)
            && is_invalid_request(e, "No search vector(s) provided"@)),
{
    if has_vector && !has_vectors {
        Ok(RequestShape::Single)
    } else if !has_vector && has_vectors {
        Ok(RequestShape::Batch)
    } else if has_vector {
        Err(ServerError::InvalidRequest(String::from_str("Provide either vector or vectors, not both")))
    } else {
        Err(ServerError::InvalidRequest(String::from_str("No search vector(s) provided")))
    }
}

/// Checks a single insert before its vector is looked at: the text must be
/// given and valid, then the vector must be given.
pub fn check_single_insert(text: Option<&str>, has_vector: bool) -> (r: Result<(), RequestError>)
    ensures
        text is None ==> (r matches Err(RequestError::Server(e))
            && is_invalid_request(e, "text is required for single insert"@)),
        text matches Some(t) ==> match text_check(t@) {
            Err(v) => r == Err::<(), RequestError>(RequestError::Validation(v)),
            Ok(_) => if has_vector {
                r is Ok
            } else {
                r matches Err(RequestError::Server(e)) && is_invalid_request(e, "vector is required for single insert"@)
            },
        },
{
    match text {
        None => Err(RequestError::Server(
            ServerError::InvalidRequest(String::from_str("text is required for single insert")),
        )),
        Some(t) => {
            match validate_text(t) {
                Err(v) => Err(RequestError::Validation(v)),
                Ok(()) => {
                    if !has_vector {
                        return Err(RequestError::Server(
                            ServerError::InvalidRequest(String::from_str("vector is required for single insert")),
                        ));
                    }
                    Ok(())
                },
            }
        },
    }
}

/// Checks a batch insert before its vectors are looked at, from how many
/// vectors and texts it carries (`None` when absent): both must be given,
/// the batch must hold 1 to `MAX_BATCH_SIZE` vectors, and as many texts.
pub fn check_batch_insert(n_vectors: Option<usize>, n_texts: Option<usize>) -> (r: Result<(), RequestError>)
    ensures
        match (n_vectors, n_texts) {
            (None, _) => r matches Err(RequestError::Server(e))
                && is_invalid_request(e, "vectors are required for batch insert"@),
            (Some(_), None) => r matches Err(RequestError::Server(e))
                && is_invalid_request(e, "texts are required for batch insert"@),
            (Some(nv), Some(nt)) => if nv == 0 {
                r matches Err(RequestError::Validation(ValidationError::EmptyBatch { operation: o }))
                    && o@ == "Insert"@
            } else if nv > MAX_BATCH_SIZE {
                r matches Err(RequestError::Validation(ValidationError::BatchTooLarge { operation: o, size: s, max_size: m }))
                    && o@ == "Insert"@ && s == nv && m == MAX_BATCH_SIZE
            } else if nv == nt {
                r is Ok
            } else {
                r matches Err(RequestError::Server(e)) && is_invalid_request(e, "vectors and texts length mismatch"@)
            },
        },
{
    let nv = match n_vectors {
        None => {
            return Err(RequestError::Server(
                ServerError::InvalidRequest(String::from_str("vectors are required for batch insert")),
            ));
        },
        Some(n) => n,
    };
    let nt = match n_texts {
        None => {
            return Err(RequestError::Server(
                ServerError::InvalidRequest(String::from_str("texts are required for batch insert")),
            ));
        },
        Some(n) => n,
    };
    match validate_batch_size(nv, MAX_BATCH_SIZE, "Insert") {
        Err(v) => {
            proof {
                reveal_strlit("Insert");
            }
            return Err(RequestError::Validation(v));
        },
        Ok(()) => {},
    }
    if nv != nt {
        return Err(RequestError::Server(
            ServerError::InvalidRequest(String::from_str("vectors and texts length mismatch")),
        ));
    }
    Ok(())
}

/// Checks each text of a batch in order; the first invalid one decides.
pub fn check_texts(texts: &Vec<String>) -> (r: Result<(), ValidationError>)
    ensures
        r is Ok <==> forall|i: int| 0 <= i < texts@.len() ==> text_check((#[trigger] texts@[i])@) is Ok,
        r matches Err(e) ==> exists|i: int| 0 <= i < texts@.len()
            && text_check((#[trigger] texts@[i])@) == Err::<(), ValidationError>(e)
            && forall|j: int| 0 <= j < i ==> text_check((#[trigger] texts@[j])@) is Ok,
{
    let mut i: usize = 0;
    while i < texts.len()
        invariant
            i <= texts@.len(),
            forall|j: int| 0 <= j < i ==> text_check((#[trigger] texts@[j])@) is Ok,
        decreases texts@.len() - i,
    {
        match validate_text(texts[i].as_str()) {
            Err(e) => {
                return Err(e);
            },
            Ok(()) => {},
        }
        i = i + 1;
    }
    Ok(())
}

/// The slice of a listing of `total` items that a page shows: skip
/// `offset` items, then take up to `limit`.
pub open spec fn page_spec(total: int, offset: int, limit: int) -> (int, int) {
    let start = if offset < total { offset } else { total };
    let end = if start + limit < total { start + limit } else { total };
    (start, end)
}

/// Computes `page_spec`.
pub fn page_bounds(total: usize, offset: usize, limit: usize) -> (r: (usize, usize))
    ensures
        (r.0 as int, r.1 as int) == page_spec(total as int, offset as int, limit as int),
        r.0 <= r.1 <= total,
{
    let start = if offset < total { offset } else { total };
    let room = total - start;
    let end = if limit < room { start + limit } else { total };
    (start, end)
}

/// Pages tile a listing: the page after one of `limit` items starting at
/// `offset` starts where that one ends, so walking the pages shows every
/// item once.
pub proof fn law_pages_tile(total: int, offset: int, limit: int, next_limit: int)
    requires
        0 <= offset,
        0 <= limit,
        0 <= next_limit,
    ensures
        page_spec(total, offset, limit).1 == page_spec(total, offset + limit, next_limit).0,
{
}

} // verus!
