//! Identifiers of persisted games and rounds.
//!
//! An identifier is a `uuid::Uuid`. The library stores identifiers and hands
//! them back; it never looks inside one.

use vstd::prelude::*;

verus! {

/// `uuid::Uuid`, declared so that it can stand in fields and signatures.
/// Nothing is assumed of its contents.
#[verifier::external_type_specification]
#[verifier::external_body]
pub struct ExUuid(uuid::Uuid);

} // verus!
