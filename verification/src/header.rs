//! The typed failure of reading a request header.
//!
//! Header decoding itself belongs to the transport layer; the routing core
//! only defines the failure a caller receives, telling a header that was
//! never sent apart from one whose bytes did not read as the asked-for
//! value.

use vstd::prelude::*;

verus! {

/// Why a request header could not be handed out.
#[derive(Debug, PartialEq, Eq)]
pub enum ExtractHeaderError {
    MissingHeader { name: String },
    InvalidHeader { name: String, source: String },
}

impl ExtractHeaderError {
    /// The name of the header the failure is about.
    pub fn name(&self) -> (r: &String)
        ensures
            match self {
                ExtractHeaderError::MissingHeader { name } => r@ == name@,
                ExtractHeaderError::InvalidHeader { name, .. } => r@ == name@,
            },
    {
        match self {
            ExtractHeaderError::MissingHeader { name } => name,
            ExtractHeaderError::InvalidHeader { name, .. } => name,
        }
    }
}

} // verus!
