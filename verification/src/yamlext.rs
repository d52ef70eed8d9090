use vstd::prelude::*;

verus! {

/// Relies on serde_yaml::Value being declarable as an opaque outside
/// type, so that the parsing wrappers can mention it.
#[verifier::external_type_specification]
#[verifier::external_body]
pub struct ExYamlValue(serde_yaml::Value);

} // verus!
