//! Versions of the state sync protocol.
use vstd::prelude::*;

verus! {

/// A version of the state sync protocol; it decides the hash layout and which
/// hash is trusted.
#[derive(Clone, Copy, Debug, PartialEq, Eq, Structural, Hash, PartialOrd, Ord)]
pub enum StateSyncVersion {
    /// Initial version.
    V0,
    /// Also include version and chunk hashes into manifest hash.
    V1,
    /// Compute the manifest hash based on the encoded manifest.
    V2,
    /// File index no longer included in the file hash.
    V3,
}

/// The version used for all newly created manifests.
pub const CURRENT_STATE_SYNC_VERSION: StateSyncVersion = StateSyncVersion::V2;

/// The highest version that may be decoded.
pub const MAX_SUPPORTED_STATE_SYNC_VERSION: StateSyncVersion = StateSyncVersion::V3;

impl StateSyncVersion {
    /// The number of the version on the wire.
    pub open spec fn number(self) -> u32 {
        match self {
            StateSyncVersion::V0 => 0,
            StateSyncVersion::V1 => 1,
            StateSyncVersion::V2 => 2,
            StateSyncVersion::V3 => 3,
        }
    }

    /// The number of the version on the wire.
    pub fn as_u32(self) -> (r: u32)
        ensures
            r == self.number(),
    {
        match self {
            StateSyncVersion::V0 => 0,
            StateSyncVersion::V1 => 1,
            StateSyncVersion::V2 => 2,
            StateSyncVersion::V3 => 3,
        }
    }

    /// The version whose number is `n`; an unknown number is handed back as the error.
    pub fn try_from(n: u32) -> (r: Result<StateSyncVersion, u32>)
        ensures
            n <= MAX_SUPPORTED_STATE_SYNC_VERSION.number() <==> r is Ok,
            r matches Ok(v) ==> v.number() == n,
            r matches Err(e) ==> e == n,
    {
        match n {
            0 => Ok(StateSyncVersion::V0),
            1 => Ok(StateSyncVersion::V1),
            2 => Ok(StateSyncVersion::V2),
            3 => Ok(StateSyncVersion::V3),
            _ => Err(n),
        }
    }

    /// Whether file hashes still include the file index of every chunk (before V3).
    pub open spec fn hashes_file_index(self) -> bool {
        self.number() < 3
    }

    /// The name of the version, as it is shown to people.
    pub fn name(self) -> (r: String)
        ensures
            r@ == seq!['V', (self.number() + 48) as char],
    {
        let r = match self {
            StateSyncVersion::V0 => "V0".to_string(),
            StateSyncVersion::V1 => "V1".to_string(),
            StateSyncVersion::V2 => "V2".to_string(),
            StateSyncVersion::V3 => "V3".to_string(),
        };
        proof {
            reveal_strlit("V0");
            reveal_strlit("V1");
            reveal_strlit("V2");
            reveal_strlit("V3");
        }
        r
    }
}

} // verus!
