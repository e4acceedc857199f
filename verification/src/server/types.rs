//! The API's request and response bodies that the library builds or reads.
use vstd::prelude::*;

verus! {

/// The answer to a liveness check.
#[derive(Debug)]
pub struct HealthResponse {
    pub status: &'static str,
    pub version: &'static str,
}

impl HealthResponse {
    /// The server is alive and runs `version`.
    pub fn ok(version: &'static str) -> (r: HealthResponse)
        ensures
            r.status@ == "ok"@,
            r.version == version,
    {
        proof {
            reveal_strlit("ok");
        }
        HealthResponse { status: "ok", version }
    }
}

/// A request to create a collection.
#[derive(Debug)]
pub struct CreateCollectionRequest {
    pub name: String,
}

/// How many vectors a listing shows when the request does not say.
pub fn default_limit() -> (n: usize)
    ensures
        n == 100,
{
    100
}

/// How many results a search returns when the request does not say.
pub fn default_k() -> (n: usize)
    ensures
        n == 10,
{
    10
}

/// One page of a vector listing.
#[derive(Debug)]
pub struct ListVectorsQuery {
    /// How many vectors to show.
    pub limit: usize,
    /// How many vectors to skip.
    pub offset: usize,
}

/// A request to delete several vectors, named by their UUID texts.
#[derive(Debug)]
pub struct DeleteVectorsRequest {
    pub ids: Vec<String>,
}

/// The number of vectors in a collection.
#[derive(Debug)]
pub struct CountResponse {
    pub count: usize,
}

/// A search by text: the text is embedded, then searched for.
#[derive(Debug)]
pub struct TextSearchRequest {
    pub query: String,
    /// How many results to return.
    pub k: usize,
    /// The similarity metric's name; cosine when absent.
    pub metric: Option<String>,
    pub ef: Option<usize>,
    pub nprobe: Option<usize>,
    pub overfetch: Option<usize>,
    /// `"fast"`, `"balanced"` or `"high"`.
    pub preset: Option<String>,
}

/// The id given to a request, echoed in the response.
#[derive(Debug, Clone)]
pub struct RequestId(pub String);

/// The effective configuration, and when it was last reloaded.
#[derive(Debug)]
pub struct ConfigStatusResponse<C> {
    pub app_config: C,
    /// Unix time, in seconds, of the last reload.
    pub reloaded_at: Option<u64>,
}

/// The outcome of a configuration reload.
#[derive(Debug)]
pub struct ConfigReloadResponse<C> {
    pub success: bool,
    /// Unix time, in seconds, of the reload.
    pub reloaded_at: Option<u64>,
    pub app_config: C,
}

} // verus!
