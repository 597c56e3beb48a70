//! Reading a registry image reference.
//!
//! The registry client itself — authentication, manifest and blob requests —
//! lives in the surrounding binary; what an image reference means is decided
//! here.

use vstd::prelude::*;
use crate::text::{after_char, has_char, split_first, up_to_char};

verus! {

/// The repository a bare image name lies under.
pub open spec fn default_namespace() -> Seq<char> {
    "library"@
}

/// The tag used when the reference names none.
pub open spec fn default_tag() -> Seq<char> {
    "latest"@
}

/// The part of the reference that names image and tag: the segment after the
/// first separator when a namespace is given, the whole reference otherwise.
pub open spec fn reference_rest(s: Seq<char>) -> Seq<char> {
    if has_char(s, '/') {
        up_to_char(after_char(s, '/'), '/')
    } else {
        s
    }
}

/// Reads `[namespace/]name[:tag]`: the namespace defaults to `library`, the
/// tag to `latest`; segments past a second separator are dropped.
pub fn parse_image_reference(image: &str) -> (r: (String, String, String))
    ensures
        ({
            let s = image@;
            let rest = reference_rest(s);
            &&& r.0@ == if has_char(s, '/') {
                up_to_char(s, '/')
            } else {
                default_namespace()
            }
            &&& r.1@ == up_to_char(rest, ':')
            &&& r.2@ == if has_char(rest, ':') {
                up_to_char(after_char(rest, ':'), ':')
            } else {
                default_tag()
            }
        }),
{
    let (head, slash_rest) = split_first(image, '/');
    let (namespace, rest) = match slash_rest {
        Some(after) => {
            let (segment, _ignored) = split_first(after.as_str(), '/');
            (head, segment)
        },
        None => (String::from_str("library"), head),
    };
    let (name, colon_rest) = split_first(rest.as_str(), ':');
    let tag = match colon_rest {
        Some(after) => {
            let (segment, _ignored) = split_first(after.as_str(), ':');
            segment
        },
        None => String::from_str("latest"),
    };
    (namespace, name, tag)
}

} // verus!
