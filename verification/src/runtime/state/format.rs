//! The format version of a store.
use vstd::bytes::*;
use vstd::prelude::*;
use vstd::string::*;

use crate::common::{same_bytes, ActantError};
use crate::text;
use crate::text::push_decimal;

verus! {

/// Where the format version is stored.
pub const STORE_FMT_VERSION_KEY: &'static str = "meta:fmt_version";

/// The format version that is written and read here.
pub const STORE_FMT_VERSION: u64 = 1;

/// The version that stored bytes stand for; zero where they are no version.
pub open spec fn version_of(bytes: Seq<u8>) -> u64 {
    if bytes.len() == 8 {
        spec_u64_from_le_bytes(bytes)
    } else {
        0
    }
}

/// The message for a store of another version.
pub open spec fn version_mismatch(found: u64) -> Seq<char> {
    "store format version mismatch: data was written by format v"@ + text::decimal(found as nat)
        + ", but this build requires v"@ + text::decimal(STORE_FMT_VERSION as nat)
        + "; refusing to open a store written by an incompatible version"@
}

/// Checks the version entry of a store. Returns the entry that a store without one is to
/// be given.
pub fn ensure_fmt_version(current: Option<&Vec<u8>>) -> (r: Result<Option<Vec<u8>>, ActantError>)
    ensures
        match current {
            None => r matches Ok(Some(entry)) && entry@ == spec_u64_to_le_bytes(STORE_FMT_VERSION),
            Some(bytes) => if bytes@ == spec_u64_to_le_bytes(STORE_FMT_VERSION) {
                r matches Ok(None)
            } else {
                &&& r matches Err(ActantError::Storage(m))
                &&& m@ == version_mismatch(version_of(bytes@))
            },
        },
{
    let expected = u64_to_le_bytes(STORE_FMT_VERSION);
    match current {
        None => Ok(Some(expected)),
        Some(bytes) => {
            if same_bytes(bytes, &expected) {
                return Ok(None);
            }
            let found: u64 = if bytes.len() == 8 {
                u64_from_le_bytes(bytes.as_slice())
            } else {
                0
            };
            let mut m = "store format version mismatch: data was written by format v".to_owned();
            push_decimal(&mut m, found);
            m.append(", but this build requires v");
            push_decimal(&mut m, STORE_FMT_VERSION);
            m.append("; refusing to open a store written by an incompatible version");
            Err(ActantError::Storage(m))
        },
    }
}

/// A store that was given its version entry is accepted from then on.
pub proof fn law_written_version_matches(entry: Seq<u8>)
    requires
        entry == spec_u64_to_le_bytes(STORE_FMT_VERSION),
    ensures
        version_of(entry) == STORE_FMT_VERSION,
{
    lemma_auto_spec_u64_to_from_le_bytes();
}

} // verus!
