//! The version oracle: is the installed version the one that ships with the
//! program?

use vstd::prelude::*;

verus! {

/// How the installed version marker relates to the embedded version.
#[derive(Clone, Copy, Debug, PartialEq, Eq, Structural)]
pub enum VersionStatus {
    /// The marker holds the embedded version, byte for byte.
    Match,
    /// The marker holds anything else.
    Mismatch,
    /// There is no marker.
    NotInstalled,
}

/// Whether two byte strings are the same, byte for byte.
pub fn same_bytes(a: &[u8], b: &[u8]) -> (r: bool)
    ensures
        r == (a@ == b@),
{
    if a.len() != b.len() {
        return false;
    }
    let mut i: usize = 0;
    while i < a.len()
        invariant
            i <= a.len(),
            a.len() == b.len(),
            a@.take(i as int) == b@.take(i as int),
        decreases a.len() - i,
    {
        if a[i] != b[i] {
            return false;
        }
        i = i + 1;
        assert(a@.take(i as int) =~= a@.take(i - 1).push(a@[i - 1]));
        assert(b@.take(i as int) =~= b@.take(i - 1).push(b@[i - 1]));
    }
    assert(a@.take(i as int) =~= a@);
    assert(b@.take(i as int) =~= b@);
    true
}

/// The status of an installation whose marker holds `installed`, or has no
/// marker, against the version `embedded`.
pub open spec fn status_of(embedded: Seq<u8>, installed: Option<Seq<u8>>) -> VersionStatus {
    match installed {
        None => VersionStatus::NotInstalled,
        Some(content) => if content == embedded {
            VersionStatus::Match
        } else {
            VersionStatus::Mismatch
        },
    }
}

/// The bytes of a marker that was read, if there was one.
pub open spec fn marker_view(installed: Option<&[u8]>) -> Option<Seq<u8>> {
    match installed {
        Some(content) => Some(content@),
        None => None,
    }
}

/// Compares the embedded version with the content of the installed marker,
/// where `None` stands for a marker that does not exist.
///
/// The comparison is of bytes: case, white space and a trailing newline all
/// count, and no version is newer or older than another.
pub fn compare(embedded: &[u8], installed: Option<&[u8]>) -> (r: VersionStatus)
    ensures
        r == status_of(embedded@, marker_view(installed)),
        r == VersionStatus::NotInstalled <==> installed is None,
        r == VersionStatus::Match <==> marker_view(installed) == Some(embedded@),
{
    match installed {
        None => VersionStatus::NotInstalled,
        Some(content) => {
            if same_bytes(content, embedded) {
                VersionStatus::Match
            } else {
                VersionStatus::Mismatch
            }
        },
    }
}

} // verus!
