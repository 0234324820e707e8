//! Canonical object paths.
use crate::text::split;
use vstd::prelude::*;

verus! {

/// An ASCII control character.
pub open spec fn is_control(c: char) -> bool {
    (c as int) < 32 || c as int == 127
}

/// A path segment that may stand in a canonical path.
pub open spec fn good_segment(segment: Seq<char>) -> bool {
    &&& segment.len() > 0
    &&& segment != seq!['.']
    &&& segment != seq!['.', '.']
    &&& forall|i: int| 0 <= i < segment.len() ==> !is_control(#[trigger] segment[i])
}

/// The path without one leading slash.
pub open spec fn without_leading_slash(path: Seq<char>) -> Seq<char> {
    if path.len() > 0 && path[0] == '/' {
        path.skip(1)
    } else {
        path
    }
}

/// The path without one trailing slash.
pub open spec fn without_trailing_slash(path: Seq<char>) -> Seq<char> {
    if path.len() > 0 && path.last() == '/' {
        path.drop_last()
    } else {
        path
    }
}

/// The canonical form of a path: one slash dropped at either end, and every
/// segment between slashes a good one. The empty path is canonical.
pub open spec fn canonical(path: Seq<char>) -> Option<Seq<char>> {
    let rest = without_leading_slash(path);
    let inner = without_trailing_slash(rest);
    if rest.len() == 0 {
        Some(rest)
    } else if forall|i: int|
        0 <= i < split(inner, '/').len() ==> good_segment(#[trigger] split(inner, '/')[i]) {
        Some(inner)
    } else {
        None
    }
}

/// The words with which a path that is not canonical is refused.
pub uninterp spec fn path_fault(path: Seq<char>) -> Seq<char>;

/// `object_store::path::Path::parse`: strips one leading and one trailing
/// slash, accepts the empty path, and refuses empty, relative and control
/// character segments. Which words go with a refusal is left to the name of the
/// result.
#[verifier::external_body]
pub(crate) fn parse_path(path: &str) -> (parsed: Result<String, String>)
    ensures
        parsed is Ok <==> canonical(path@) is Some,
        parsed matches Ok(text) ==> canonical(path@) == Some(text@),
        parsed matches Err(words) ==> words@ == path_fault(path@),
{
    object_store::path::Path::parse(path).map(String::from).map_err(|error| error.to_string())
}

} // verus!
