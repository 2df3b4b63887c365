//! Classification of a resource reference by strict prefix match:
//! already inlined, remote, or local, in that priority order.
use vstd::prelude::*;
use crate::text::starts_with_str;

verus! {

/// The three kinds of resource reference.
#[derive(Clone, Copy, PartialEq, Eq, Structural, Debug)]
pub enum RefClass {
    /// The reference already carries inline image data (`data:image/`).
    AlreadyInlined,
    /// The reference is fetched over HTTP (`http://` or `https://`).
    Remote,
    /// Anything else: a path read from the local filesystem.
    Local,
}

/// Reference classification: `data:image/` wins over `http://` and
/// `https://`; everything else is a local path.
pub open spec fn spec_classify(r: Seq<char>) -> RefClass {
    if "data:image/"@.is_prefix_of(r) {
        RefClass::AlreadyInlined
    } else if "http://"@.is_prefix_of(r) || "https://"@.is_prefix_of(r) {
        RefClass::Remote
    } else {
        RefClass::Local
    }
}

pub fn classify(r: &str) -> (c: RefClass)
    ensures
        c == spec_classify(r@),
{
    if starts_with_str(r, "data:image/") {
        RefClass::AlreadyInlined
    } else if starts_with_str(r, "http://") || starts_with_str(r, "https://") {
        RefClass::Remote
    } else {
        RefClass::Local
    }
}

} // verus!
