//! Semantic version of the stream format, and the compatibility check run
//! when a stream is opened.
//!
//! A stream header carries four version bytes. Streams written before
//! explicit versioning existed encode all four bytes as zero; such streams
//! are read as the documented legacy version `0.2.0` rather than as a
//! literal zero version.
//!
//! The compatibility rule is the semantic-versioning caret rule: two
//! versions are compatible when they share the same major version and,
//! while the major version is `0`, the same minor version as well.
//! Incompatibility is a diagnostic only; it never blocks decoding.

use vstd::prelude::*;

verus! {

/// A `major.minor.patch` semantic version, as embedded in a stream header.
#[derive(Clone, Copy, Debug, PartialEq, Eq, Structural)]
pub struct CrateVersion {
    pub major: u8,
    pub minor: u8,
    pub patch: u8,
}

impl CrateVersion {
    pub fn new(major: u8, minor: u8, patch: u8) -> (r: CrateVersion)
        ensures
            r == (CrateVersion { major, minor, patch }),
    {
        CrateVersion { major, minor, patch }
    }

    /// The version of this reader/writer, written into every encoded stream.
    pub open spec fn spec_local() -> CrateVersion {
        CrateVersion { major: 0, minor: 1, patch: 0 }
    }

    pub fn local() -> (r: CrateVersion)
        ensures
            r == Self::spec_local(),
    {
        CrateVersion { major: 0, minor: 1, patch: 0 }
    }

    /// The version that all-zero version bytes stand for.
    pub open spec fn spec_legacy() -> CrateVersion {
        CrateVersion { major: 0, minor: 2, patch: 0 }
    }

    pub open spec fn spec_from_bytes(b: Seq<u8>) -> CrateVersion
        recommends
            b.len() == 4,
    {
        CrateVersion { major: b[0], minor: b[1], patch: b[2] }
    }

    pub fn from_bytes(b: &[u8; 4]) -> (r: CrateVersion)
        ensures
            r == Self::spec_from_bytes(b@),
    {
        CrateVersion { major: b[0], minor: b[1], patch: b[2] }
    }

    /// The four header bytes of this version: `[major, minor, patch, 0]`.
    pub open spec fn spec_to_bytes(self) -> Seq<u8> {
        seq![self.major, self.minor, self.patch, 0u8]
    }

    pub fn to_bytes(self) -> (r: [u8; 4])
        ensures
            r@ == self.spec_to_bytes(),
    {
        let r = [self.major, self.minor, self.patch, 0u8];
        proof {
            assert(r@ =~= self.spec_to_bytes());
        }
        r
    }

    /// Whether the four version bytes are the all-zero legacy sentinel.
    pub open spec fn spec_is_legacy_sentinel(b: Seq<u8>) -> bool
        recommends
            b.len() == 4,
    {
        b[0] == 0 && b[1] == 0 && b[2] == 0 && b[3] == 0
    }

    /// The version that four header bytes stand for: the legacy default for
    /// the all-zero sentinel, a plain byte-wise read otherwise.
    pub open spec fn spec_effective(b: Seq<u8>) -> CrateVersion
        recommends
            b.len() == 4,
    {
        if Self::spec_is_legacy_sentinel(b) {
            Self::spec_legacy()
        } else {
            Self::spec_from_bytes(b)
        }
    }

    pub fn effective_from_bytes(b: &[u8; 4]) -> (r: CrateVersion)
        ensures
            r == Self::spec_effective(b@),
    {
        if b[0] == 0 && b[1] == 0 && b[2] == 0 && b[3] == 0 {
            CrateVersion { major: 0, minor: 2, patch: 0 }
        } else {
            Self::from_bytes(b)
        }
    }

    /// The caret compatibility rule: same major version, and while the major
    /// version is `0`, the same minor version as well.
    pub open spec fn spec_compatible(self, other: CrateVersion) -> bool {
        self.major == other.major && (self.major == 0 ==> self.minor == other.minor)
    }

    pub fn is_compatible_with(self, other: CrateVersion) -> (r: bool)
        ensures
            r == self.spec_compatible(other),
    {
        self.major == other.major && (self.major != 0 || self.minor == other.minor)
    }
}

/// Checks a stream's version bytes against the local version.
///
/// Returns `None` when the stream is compatible, and `Some((stream, local))`
/// when it is not, so that the caller can report both versions. The result is
/// a diagnostic only: decoding proceeds either way.
pub fn warn_on_version_mismatch(encoded: &[u8; 4]) -> (r: Option<(CrateVersion, CrateVersion)>)
    ensures
        (r is None) == CrateVersion::spec_effective(encoded@).spec_compatible(
            CrateVersion::spec_local(),
        ),
        r matches Some(p) ==> p.0 == CrateVersion::spec_effective(encoded@) && p.1
            == CrateVersion::spec_local(),
{
    let stream = CrateVersion::effective_from_bytes(encoded);
    let local = CrateVersion::local();
    if stream.is_compatible_with(local) {
        None
    } else {
        Some((stream, local))
    }
}

} // verus!
