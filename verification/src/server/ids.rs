//! Ids in requests. A stored vector's id is a UUID, held as its 128-bit
//! value read big-endian (`Uuid::as_u128`), so ids order as the UUIDs do.
use vstd::prelude::*;
use vstd::string::*;
use crate::server::error::{ServerError, is_invalid_request};

verus! {

/// The id that `uuid::Uuid::parse_str` reads from `s`, if it reads one.
pub uninterp spec fn spec_parse_uuid(s: Seq<char>) -> Option<u128>;

/// Calls `uuid::Uuid::parse_str`, which accepts the simple, hyphenated, URN
/// and braced forms of 32 hexadecimal digits. What it accepts is named, not
/// stated; the id is the UUID's big-endian value.
#[verifier::external_body]
fn parse_uuid(s: &str) -> (r: Option<u128>)
    ensures
        r == spec_parse_uuid(s@),
{
    uuid::Uuid::parse_str(s).ok().map(|u| u.as_u128())
}

/// Calls `uuid::Uuid::new_v4`: random bits, except that the version field
/// reads 4 and the variant bits read `10`, as the crate's source sets them.
/// Which id comes out is left open.
#[verifier::external_body]
fn random_uuid() -> (id: u128)
    ensures
        (id >> 76u128) & 0xfu128 == 4u128,
        (id >> 62u128) & 0x3u128 == 2u128,
{
    uuid::Uuid::new_v4().as_u128()
}

/// Reads the id in a request path; refuses text that is not a UUID.
pub fn parse_id(s: &str) -> (r: Result<u128, ServerError>)
    ensures
        r is Ok <==> spec_parse_uuid(s@) is Some,
        r matches Ok(id) ==> spec_parse_uuid(s@) == Some(id),
        r matches Err(e) ==> is_invalid_request(e, "Invalid UUID"@),
{
    match parse_uuid(s) {
        Some(id) => Ok(id),
        None => Err(ServerError::InvalidRequest(String::from_str("Invalid UUID"))),
    }
}

/// Reads the ids of a batch request, in order; refuses the batch at the
/// first text that is not a UUID, naming it.
pub fn parse_ids(ids: &Vec<String>) -> (r: Result<Vec<u128>, ServerError>)
    ensures
        r is Ok <==> forall|i: int| 0 <= i < ids@.len() ==> spec_parse_uuid((#[trigger] ids@[i])@) is Some,
        r matches Ok(v) ==> v@.len() == ids@.len()
            && forall|i: int| 0 <= i < ids@.len() ==> spec_parse_uuid((#[trigger] ids@[i])@) == Some(v@[i]),
        r matches Err(e) ==> exists|i: int| 0 <= i < ids@.len()
            && spec_parse_uuid((#[trigger] ids@[i])@) is None
            && (forall|j: int| 0 <= j < i ==> spec_parse_uuid((#[trigger] ids@[j])@) is Some)
            && is_invalid_request(e, "Invalid UUID: "@ + ids@[i]@),
{
    let mut out: Vec<u128> = Vec::new();
    let mut i: usize = 0;
    while i < ids.len()
        invariant
            i <= ids@.len(),
            out@.len() == i,
            forall|j: int| 0 <= j < i ==> spec_parse_uuid((#[trigger] ids@[j])@) == Some(out@[j]),
        decreases ids@.len() - i,
    {
        match parse_uuid(ids[i].as_str()) {
            Some(id) => out.push(id),
            None => {
                let msg = String::from_str("Invalid UUID: ").concat(ids[i].as_str());
                proof {
                    reveal_strlit("Invalid UUID: ");
                    assert forall|j: int| 0 <= j < i implies spec_parse_uuid((#[trigger] ids@[j])@) is Some by {
                        assert(spec_parse_uuid(ids@[j]@) == Some(out@[j]));
                    }
                }
                return Err(ServerError::InvalidRequest(msg));
            },
        }
        i = i + 1;
    }
    Ok(out)
}

/// The id of an upserted vector: the one the request names, read as
/// `parse_id` reads it, or else a fresh random (version 4) UUID.
pub fn upsert_id(id: Option<String>) -> (r: Result<u128, ServerError>)
    ensures
        id matches Some(s) ==> {
            &&& r is Ok <==> spec_parse_uuid(s@) is Some
            &&& r matches Ok(x) ==> spec_parse_uuid(s@) == Some(x)
            &&& r matches Err(e) ==> is_invalid_request(e, "Invalid UUID"@)
        },
        id is None ==> (r matches Ok(x) && (x >> 76u128) & 0xfu128 == 4u128 && (x >> 62u128) & 0x3u128 == 2u128),
{
    match id {
        Some(s) => parse_id(s.as_str()),
        None => Ok(random_uuid()),
    }
}

} // verus!
