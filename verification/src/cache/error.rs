//! What can go wrong in the cache.
use vstd::prelude::*;

verus! {

/// An I/O failure.
#[verifier::external_type_specification]
#[verifier::external_body]
pub struct ExIoError(std::io::Error);

#[derive(Debug)]
pub enum CacheError {
    Io { path: std::path::PathBuf, source: std::io::Error },
    PathEscapesRoot { root: std::path::PathBuf, target: std::path::PathBuf },
    TooManyCollisions(std::path::PathBuf),
}

} // verus!
