//! The two generations of the message format.

use vstd::prelude::*;

verus! {

/// Which generation of the format a descriptor is written in. The tag is the
/// first byte of every versioned descriptor.
#[derive(Clone, Copy, Debug, PartialEq, Eq, Structural)]
pub enum Version {
    /// The legacy format.
    V0,
    /// The current format.
    V1,
}

impl Version {
    /// The byte that announces this version on the wire.
    pub open spec fn spec_tag(self) -> u8 {
        match self {
            Version::V0 => 0,
            Version::V1 => 1,
        }
    }

    /// The byte that announces this version on the wire.
    pub fn tag(&self) -> (t: u8)
        ensures
            t == self.spec_tag(),
    {
        match self {
            Version::V0 => 0,
            Version::V1 => 1,
        }
    }

    /// The version that a tag byte announces, if any.
    pub fn from_tag(tag: u8) -> (r: Option<Version>)
        ensures
            r == version_of_tag(tag),
    {
        if tag == 0 {
            Some(Version::V0)
        } else if tag == 1 {
            Some(Version::V1)
        } else {
            None
        }
    }
}

/// The version that a tag byte announces, if any.
pub open spec fn version_of_tag(tag: u8) -> Option<Version> {
    if tag == 0 {
        Some(Version::V0)
    } else if tag == 1 {
        Some(Version::V1)
    } else {
        None
    }
}

} // verus!
