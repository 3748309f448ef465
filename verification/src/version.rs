//! Version information about the crate.

use vstd::prelude::*;

verus! {

/// The crate's semantic version.
pub const VERSION: &'static str = "0.1.0";

/// The source-control revision this build came from, when known.
pub const GIT_HASH: Option<&'static str> = None;

/// The date of that revision, when known.
pub const GIT_DATE: Option<&'static str> = None;

/// The full version text: the semantic version, followed by the
/// source-control revision and its date when they are known.
pub open spec fn spec_version_string() -> Seq<char> {
    match (GIT_HASH, GIT_DATE) {
        (Some(hash), Some(date)) => VERSION@ + " (git: "@ + hash@ + " - "@ + date@ + ")"@,
        (Some(hash), None) => VERSION@ + " (git: "@ + hash@ + ")"@,
        _ => VERSION@,
    }
}

/// Returns a string with the full version information.
pub fn version_string() -> (r: String)
    ensures
        r@ == spec_version_string(),
{
    match (GIT_HASH, GIT_DATE) {
        (Some(hash), Some(date)) => {
            let mut s = VERSION.to_owned();
            s.append(" (git: ");
            s.append(hash);
            s.append(" - ");
            s.append(date);
            s.append(")");
            s
        },
        (Some(hash), None) => {
            let mut s = VERSION.to_owned();
            s.append(" (git: ");
            s.append(hash);
            s.append(")");
            s
        },
        _ => VERSION.to_owned(),
    }
}

/// Returns the semantic version (without source-control information).
pub fn semantic_version() -> (r: &'static str)
    ensures
        r@ == VERSION@,
{
    VERSION
}

} // verus!
