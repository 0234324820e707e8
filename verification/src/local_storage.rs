//! The specification of a standalone, single-node store.
use crate::text::{code_point, slice_text, to_chars};
use vstd::prelude::*;

verus! {

/// Why a local specification is refused.
#[derive(Clone, Copy, Debug, PartialEq, Eq, Structural)]
pub enum SpecError {
    /// The scheme has no authority marker.
    NoAuthorityMarker,
    /// The path is not one plain absolute file name.
    NoPlainPath,
}

impl SpecError {
    /// The words that go with a refusal.
    pub open spec fn words(self) -> Seq<char> {
        match self {
            SpecError::NoAuthorityMarker =>
                "local storage requires sqlite:///absolute/path/objects.sqlite3"@,
            SpecError::NoPlainPath =>
                "local storage requires sqlite:///absolute/path/objects.sqlite3 without an authority, URI escapes, query or fragment"@,
        }
    }

    /// The message that goes with a refusal.
    pub fn message(&self) -> (text: String)
        ensures
            text@ == self.words(),
    {
        match self {
            SpecError::NoAuthorityMarker =>
                "local storage requires sqlite:///absolute/path/objects.sqlite3".to_owned(),
            SpecError::NoPlainPath =>
                "local storage requires sqlite:///absolute/path/objects.sqlite3 without an authority, URI escapes, query or fragment".to_owned(),
        }
    }
}

/// A letter in lower case, where it is an ASCII one.
pub open spec fn lower(c: char) -> char {
    if 65 <= c as int <= 90 {
        (c as int + 32) as char
    } else {
        c
    }
}

/// The text begins with `scheme`, in upper or lower case.
pub open spec fn has_scheme(text: Seq<char>, scheme: Seq<char>) -> bool {
    text.len() >= scheme.len() && forall|i: int|
        0 <= i < scheme.len() ==> lower(#[trigger] text[i]) == scheme[i]
}

/// The last part of a path after its last slash.
pub open spec fn last_part(path: Seq<char>) -> Seq<char>
    decreases path.len(),
{
    if path.len() == 0 || path.last() == '/' {
        Seq::empty()
    } else {
        last_part(path.drop_last()).push(path.last())
    }
}

/// The path up to and with its last slash.
pub open spec fn up_to_last_part(path: Seq<char>) -> Seq<char> {
    path.take(path.len() - last_part(path).len())
}

/// The path names a file: behind trailing slashes and lone dots, which are no
/// components, its last component is a plain name.
pub open spec fn names_file(path: Seq<char>) -> bool
    decreases path.len(),
    via names_file_decreases
{
    let part = last_part(path);
    let rest = up_to_last_part(path);
    if part == seq!['.', '.'] {
        false
    } else if part.len() == 0 || part == seq!['.'] {
        // A trailing slash, or a dot behind one, is skipped.
        if rest.len() == 0 {
            false
        } else {
            names_file(rest.drop_last())
        }
    } else {
        true
    }
}

#[via_fn]
proof fn names_file_decreases(path: Seq<char>) {
    last_part_fits(path);
}

proof fn last_part_fits(path: Seq<char>)
    ensures
        last_part(path).len() <= path.len(),
        path.skip(path.len() - last_part(path).len()) == last_part(path),
        last_part(path).len() < path.len() ==> path[path.len() - last_part(path).len() - 1] == '/',
        forall|i: int|
            path.len() - last_part(path).len() <= i < path.len() ==> #[trigger] path[i] != '/',
    decreases path.len(),
{
    if path.len() == 0 || path.last() == '/' {
        assert(path.skip(path.len() as int) =~= Seq::<char>::empty());
    } else {
        last_part_fits(path.drop_last());
        let n = last_part(path).len();
        assert(path.skip(path.len() - n) =~= path.drop_last().skip(path.len() - n).push(
            path.last(),
        ));
        assert forall|i: int| path.len() - n <= i < path.len() implies #[trigger] path[i] != '/' by {
            if i < path.len() - 1 {
                assert(path.drop_last()[i] == path[i]);
            }
        }
    }
}

/// The path may name a local database: absolute, without an authority, a
/// trailing slash, a query, a fragment, an escape or a zero, and naming a file.
pub open spec fn plain_path(path: Seq<char>) -> bool {
    &&& path.len() > 0
    &&& path[0] == '/'
    &&& path.len() > 1 ==> path[1] != '/'
    &&& path.last() != '/'
    &&& forall|i: int|
        0 <= i < path.len() ==> #[trigger] path[i] != '?' && path[i] != '#' && path[i] != '%'
            && path[i] != '\0'
    &&& names_file(path)
}

/// The letters of `scheme` begin the text, in upper or lower case.
fn begins_with_scheme(chars: &Vec<char>, scheme: &str) -> (yes: bool)
    ensures
        yes == has_scheme(chars@, scheme@),
{
    let wanted = to_chars(scheme);
    if chars.len() < wanted.len() {
        return false;
    }
    let mut i: usize = 0;
    while i < wanted.len()
        invariant
            0 <= i <= wanted@.len() <= chars@.len(),
            forall|j: int| 0 <= j < i ==> lower(#[trigger] chars@[j]) == wanted@[j],
        decreases wanted@.len() - i,
    {
        if lower_char(chars[i]) != wanted[i] {
            assert(lower(chars@[i as int]) != wanted@[i as int]);
            return false;
        }
        i = i + 1;
    }
    true
}

/// A letter in lower case, where it is an ASCII one.
fn lower_char(c: char) -> (l: char)
    ensures
        l == lower(c),
{
    let code: u32 = code_point(c);
    if 65 <= code && code <= 90 {
        (code as u8 + 32) as char
    } else {
        c
    }
}

/// The first `to` characters name a file.
fn prefix_names_file(chars: &Vec<char>, to: usize) -> (yes: bool)
    requires
        to <= chars@.len(),
    ensures
        yes == names_file(chars@.take(to as int)),
    decreases to,
{
    let ghost path = chars@.take(to as int);
    let mut start: usize = to;
    proof {
        last_part_fits(path);
    }
    while start > 0 && chars[start - 1] != '/'
        invariant
            to - last_part(path).len() <= start <= to,
            path == chars@.take(to as int),
        decreases start,
    {
        assert(path[start - 1] == chars@[start - 1]);
        start = start - 1;
    }
    proof {
        let n = last_part(path).len();
        if start > to - n {
            assert(path[start - 1] != '/');
        }
        assert(start == to - n);
        assert forall|i: int| 0 <= i < n implies last_part(path)[i] == chars@[start + i] by {
            assert(path.skip(to - n)[i] == path[start + i]);
        }
    }
    let length: usize = to - start;
    if length == 2 && chars[start] == '.' && chars[start + 1] == '.' {
        assert(last_part(path) =~= seq!['.', '.']);
        return false;
    }
    assert(last_part(path) != seq!['.', '.']) by {
        if last_part(path) == seq!['.', '.'] {
            assert(last_part(path)[0] == '.' && last_part(path)[1] == '.');
        }
    }
    if length == 0 || (length == 1 && chars[start] == '.') {
        assert(length == 1 ==> last_part(path) =~= seq!['.']);
        if start == 0 {
            return false;
        }
        assert(up_to_last_part(path).drop_last() =~= chars@.take(start - 1));
        return prefix_names_file(chars, start - 1);
    }
    assert(last_part(path) != seq!['.']) by {
        if last_part(path) == seq!['.'] {
            assert(last_part(path)[0] == '.');
        }
    }
    true
}

/// Parse the local storage specification. The path is literal, absolute, and
/// names one database; URI authorities, escapes, queries and prefixes are not
/// supported. Cloud specifications return `None`.
pub fn path_from_spec(spec: &str) -> (path: Result<Option<String>, SpecError>)
    ensures
        match path {
            Ok(Some(path)) => has_scheme(spec@, "sqlite://"@) && path@ == spec@.skip(9)
                && plain_path(path@),
            Ok(None) => !has_scheme(spec@, "sqlite:"@),
            Err(SpecError::NoAuthorityMarker) => has_scheme(spec@, "sqlite:"@) && !has_scheme(
                spec@,
                "sqlite://"@,
            ),
            Err(SpecError::NoPlainPath) => has_scheme(spec@, "sqlite://"@) && !plain_path(
                spec@.skip(9),
            ),
        },
{
    proof {
        reveal_strlit("sqlite://");
        reveal_strlit("sqlite:");
        if has_scheme(spec@, "sqlite://"@) {
            assert forall|i: int| 0 <= i < 7 implies lower(#[trigger] spec@[i]) == "sqlite:"@[i] by {
                assert(lower(spec@[i]) == "sqlite://"@[i]);
            }
        }
    }
    let chars = to_chars(spec);
    if !begins_with_scheme(&chars, "sqlite://") {
        if begins_with_scheme(&chars, "sqlite:") {
            return Err(SpecError::NoAuthorityMarker);
        }
        return Ok(None);
    }
    let path = slice_text(&chars, 9, chars.len());
    assert(path@ =~= spec@.skip(9));
    let inner = to_chars(path.as_str());
    if inner.len() == 0 || inner[0] != '/' || (inner.len() > 1 && inner[1] == '/') || inner[inner.len()
        - 1] == '/' {
        return Err(SpecError::NoPlainPath);
    }
    let mut i: usize = 0;
    while i < inner.len()
        invariant
            0 <= i <= inner@.len(),
            forall|j: int|
                0 <= j < i ==> #[trigger] inner@[j] != '?' && inner@[j] != '#' && inner@[j] != '%'
                    && inner@[j] != '\0',
        decreases inner@.len() - i,
    {
        let c: char = inner[i];
        if c == '?' || c == '#' || c == '%' || c == '\0' {
            assert(inner@[i as int] == c);
            return Err(SpecError::NoPlainPath);
        }
        i = i + 1;
    }
    assert(inner@.take(inner@.len() as int) =~= inner@);
    if !prefix_names_file(&inner, inner.len()) {
        return Err(SpecError::NoPlainPath);
    }
    Ok(Some(path))
}

} // verus!
