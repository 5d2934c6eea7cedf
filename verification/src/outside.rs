//! The types of outside crates that pass through this library unopened.

use vstd::prelude::*;

verus! {

/// A JSON value as `serde_json` holds it.
#[verifier::external_type_specification]
#[verifier::external_body]
pub struct ExJsonValue(serde_json::Value);

/// The error of `serde_json`.
#[verifier::external_type_specification]
#[verifier::external_body]
pub struct ExJsonError(serde_json::Error);

/// The error of `sqids`.
#[verifier::external_type_specification]
#[verifier::external_body]
pub struct ExSqidsError(sqids::Error);

/// A source file as `syn` parses it.
#[verifier::external_type_specification]
#[verifier::external_body]
pub struct ExSynFile(syn::File);

/// The error of `syn`.
#[verifier::external_type_specification]
#[verifier::external_body]
pub struct ExSynError(syn::Error);

} // verus!
