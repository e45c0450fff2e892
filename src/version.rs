//! Version strings: validity and ordering, as the `version_compare` crate
//! defines them (dotted segments, numeric where both sides are numbers).

use vstd::prelude::*;

use core::cmp::Ordering;

verus! {

/// Whether `version_compare` accepts `v` as a version number.
pub uninterp spec fn version_parses(v: Seq<char>) -> bool;

/// How `version_compare` orders `a` against `b`; `None` when it cannot compare them.
pub uninterp spec fn version_order(a: Seq<char>, b: Seq<char>) -> Option<Ordering>;

/// Relies on version_compare::Version::from: it returns a version exactly when the
/// string splits into version parts.
#[verifier::external_body]
pub(crate) fn version_is_valid(v: &str) -> (r: bool)
    ensures
        r == version_parses(v@),
{
    version_compare::Version::from(v).is_some()
}

/// Relies on version_compare::compare: it answers less, equal or greater, and fails
/// exactly when one of the two strings is not a valid version.
#[verifier::external_body]
pub(crate) fn compare_versions(a: &str, b: &str) -> (r: Option<Ordering>)
    ensures
        r == version_order(a@, b@),
        r is None <==> !(version_parses(a@) && version_parses(b@)),
{
    match version_compare::compare(a, b) {
        Ok(version_compare::Cmp::Lt) => Some(Ordering::Less),
        Ok(version_compare::Cmp::Eq) => Some(Ordering::Equal),
        Ok(version_compare::Cmp::Gt) => Some(Ordering::Greater),
        _ => None,
    }
}

} // verus!
