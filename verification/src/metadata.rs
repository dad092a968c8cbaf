//! What the metadata of an application says of the runtime it needs.

use crate::keyfile::{parse, parsed, DecodeError, Groups};
use vstd::prelude::*;
use vstd::slice::slice_to_vec;
use vstd::string::StringExecFns;
use vstd::string::StringSliceAdditionalSpecFns;

verus! {

/// Why no runtime could be read from the metadata.
#[derive(Debug, Clone, Copy, PartialEq, Eq)]
pub enum MetadataError {
    /// The metadata is no key file.
    Decode(DecodeError),
    ApplicationGroupMissing,
    RuntimePropertyMissing,
}

impl MetadataError {
    /// The error in words.
    pub fn to_string(&self) -> (text: String)
        ensures
            match *self {
                MetadataError::Decode(e) => e.spec_to_string(text@),
                MetadataError::ApplicationGroupMissing => text@ == "Application group missing"@,
                MetadataError::RuntimePropertyMissing => text@ == "runtime property missing"@,
            },
    {
        match self {
            MetadataError::Decode(e) => e.to_string(),
            MetadataError::ApplicationGroupMissing => String::from_str("Application group missing"),
            MetadataError::RuntimePropertyMissing => String::from_str("runtime property missing"),
        }
    }
}

/// The runtime that groups of metadata name: the value of `runtime` in the
/// group `Application`.
pub open spec fn runtime_of(groups: Groups) -> Result<Seq<u8>, MetadataError> {
    let group = "Application".spec_bytes();
    let key = "runtime".spec_bytes();
    if !groups.contains_key(group) {
        Err(MetadataError::ApplicationGroupMissing)
    } else if !groups[group].contains_key(key) {
        Err(MetadataError::RuntimePropertyMissing)
    } else {
        Ok(groups[group][key])
    }
}

/// The runtime named in the text of an application's metadata.
pub fn extract_runtime(metadata: &str) -> (r: Result<Vec<u8>, MetadataError>)
    ensures
        match parsed(metadata.spec_bytes()) {
            Err(e) => r matches Err(f) && f == MetadataError::Decode(e),
            Ok(groups) => match runtime_of(groups) {
                Err(e) => r matches Err(f) && f == e,
                Ok(runtime) => r matches Ok(found) && found@ == runtime,
            },
        },
{
    let file = match parse(metadata) {
        Ok(file) => file,
        Err(e) => {
            return Err(MetadataError::Decode(e));
        },
    };
    let group = "Application".as_bytes();
    let key = "runtime".as_bytes();
    if !file.contains_group(group) {
        return Err(MetadataError::ApplicationGroupMissing);
    }
    match file.get(group, key) {
        Some(runtime) => Ok(slice_to_vec(runtime)),
        None => Err(MetadataError::RuntimePropertyMissing),
    }
}

} // verus!
