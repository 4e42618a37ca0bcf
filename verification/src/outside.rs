//! The types of other crates that the library carries through without
//! looking inside them.
use reqwest::Error as HttpFailure;
use serde_json::Error as JsonFailure;
use vstd::prelude::*;

verus! {

/// `reqwest::Error`, carried through as it is.
#[verifier::external_type_specification]
#[verifier::external_body]
pub struct ExHttpFailure(HttpFailure);

/// `serde_json::Error`, carried through as it is.
#[verifier::external_type_specification]
#[verifier::external_body]
pub struct ExJsonFailure(JsonFailure);

/// The `InvalidLength` error of the digest traits, carried through as it is.
#[verifier::external_type_specification]
#[verifier::external_body]
pub struct ExInvalidLength(hmac::digest::InvalidLength);

/// `reqwest::Client`, carried through as it is.
#[verifier::external_type_specification]
#[verifier::external_body]
pub struct ExHttpClient(reqwest::Client);

/// `serde_json::Value`, carried through as it is.
#[verifier::external_type_specification]
#[verifier::external_body]
pub struct ExJsonValue(serde_json::Value);

/// `reqwest::Url`, carried through as it is.
#[verifier::external_type_specification]
#[verifier::external_body]
pub struct ExUrl(reqwest::Url);

} // verus!
