//! Reading a bound path parameter out of a request's parameter mapping.

use vstd::prelude::*;

use crate::params::Params;

verus! {

/// Why a parameter could not be handed out: it was never bound, or its text
/// did not read as the value a caller asked for.
#[derive(Debug, PartialEq, Eq)]
pub enum ExtractParamError {
    MissingParamName { name: String },
    InvalidParamValue { name: String, source: String },
}

/// The value bound under `name`, or the failure naming it: `Ok` exactly when
/// a binding exists.
pub fn param(params: &Params, name: &str) -> (r: Result<String, ExtractParamError>)
    requires
        params.wf(),
    ensures
        match r {
            Ok(v) => params@.contains_key(name@) && v@ == params@[name@],
            Err(e) => !params@.contains_key(name@) && (e matches ExtractParamError::MissingParamName {
                name: n,
            } && n@ == name@),
        },
{
    match params.get(name) {
        Some(v) => Ok(v.clone()),
        None => Err(ExtractParamError::MissingParamName { name: name.to_owned() }),
    }
}

} // verus!
