//! Error types of other crates that the library's own errors carry.
use async_fetcher::Error as AsyncFetcherError;
use failure::Error as FailureError;
use reqwest::Error as ReqwestError;
use vstd::prelude::*;

verus! {

/// `std::io::Error`, carried as it came.
#[verifier::external_type_specification]
#[verifier::external_body]
pub struct ExIoError(std::io::Error);

/// `failure::Error`, carried as it came.
#[verifier::external_type_specification]
#[verifier::external_body]
pub struct ExFailure(FailureError);

/// `async_fetcher::Error`, carried as it came.
#[verifier::external_type_specification]
#[verifier::external_body]
pub struct ExFetchError(AsyncFetcherError);

/// `reqwest::Error`, carried as it came.
#[verifier::external_type_specification]
#[verifier::external_body]
pub struct ExRequestError(ReqwestError);

} // verus!
