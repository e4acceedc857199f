//! The HTTP API's decisions: which requests are accepted and how, how ids
//! in requests are read, and the status reports the API serves. The HTTP
//! plumbing itself lives outside the library.
pub mod error;
pub mod ids;
pub mod requests;
pub mod status;
pub mod rebuild;
pub mod types;




