//! Key ranges of the ordered object index.
use crate::text::{
    before, before_is_asymmetric, before_is_transitive, code_point, slice_text, starts_with,
    text_before, to_chars,
};
use vstd::prelude::*;

verus! {

/// `char::from_u32` gives the character with a code point, where it is a
/// scalar value, and nothing for any other number.
pub assume_specification[ char::from_u32 ](code: u32) -> (c: Option<char>)
    ensures
        c is Some <==> (code < 0xd800 || 0xdfff < code <= 0x10ffff),
        c matches Some(c) ==> c as int == code,
;

/// The listing prefix of a directory: the path and a slash, or nothing for the
/// root.
pub open spec fn directory_text(path: Option<Seq<char>>) -> Seq<char> {
    match path {
        None => Seq::empty(),
        Some(path) => if path.len() == 0 {
            Seq::empty()
        } else {
            path.push('/')
        },
    }
}

/// The listing prefix of a directory.
pub fn directory_prefix(prefix: Option<&str>) -> (text: String)
    ensures
        prefix matches Some(path) ==> text@ == directory_text(Some(path@)),
        prefix is None ==> text@ == directory_text(None),
{
    match prefix {
        None => String::new(),
        Some(path) => {
            if path.is_empty() {
                String::new()
            } else {
                let mut text = path.to_owned();
                text.push('/');
                text
            }
        },
    }
}

/// The next character in scalar order.
pub open spec fn next_char(c: char) -> Option<char> {
    if c as int == 0x10ffff {
        None
    } else if c as int == 0xd7ff {
        Some(0xe000 as char)
    } else {
        Some((c as int + 1) as char)
    }
}

/// Characters are told apart by their code points, which are scalar values.
proof fn chars_are_scalars(c: char, d: char)
    ensures
        c != d ==> c as int != d as int,
        0 <= c as int <= 0x10ffff,
        0 <= d as int <= 0x10ffff,
        (c as int) < 0xd800 || (c as int) > 0xdfff,
        (d as int) < 0xd800 || (d as int) > 0xdfff,
{
}

/// The next character lies above, and none lies between.
proof fn next_char_follows(c: char)
    ensures
        next_char(c) is None <==> c as int == 0x10ffff,
        next_char(c) matches Some(n) ==> n as int == if c as int == 0xd7ff {
            0xe000
        } else {
            c as int + 1
        },
{
    vstd::utf8::char_is_scalar(c);
}

/// The first text after every text that begins with `prefix`.
pub open spec fn end_of_prefix(prefix: Seq<char>) -> Option<Seq<char>>
    decreases prefix.len(),
{
    if prefix.len() == 0 {
        None
    } else {
        match next_char(prefix.last()) {
            Some(c) => Some(prefix.drop_last().push(c)),
            None => end_of_prefix(prefix.drop_last()),
        }
    }
}

/// `end_of_prefix`, told from the first character on.
proof fn end_of_prefix_by_first(prefix: Seq<char>)
    requires
        prefix.len() > 0,
    ensures
        end_of_prefix(prefix) == match end_of_prefix(prefix.skip(1)) {
            Some(end) => Some(seq![prefix[0]] + end),
            None => match next_char(prefix[0]) {
                Some(c) => Some(seq![c]),
                None => None,
            },
        },
    decreases prefix.len(),
{
    let rest = prefix.skip(1);
    if prefix.len() == 1 {
        assert(rest =~= Seq::<char>::empty());
        assert(prefix.last() == prefix[0]);
        assert(prefix.drop_last() =~= Seq::<char>::empty());
        assert(end_of_prefix(prefix.drop_last()) is None);
        match next_char(prefix[0]) {
            Some(c) => {
                assert(prefix.drop_last().push(c) =~= seq![c]);
            },
            None => {},
        }
    } else {
        assert(rest.last() == prefix.last());
        assert(rest.drop_last() =~= prefix.drop_last().skip(1));
        match next_char(prefix.last()) {
            Some(c) => {
                assert(prefix.drop_last().push(c) =~= seq![prefix[0]] + rest.drop_last().push(c));
            },
            None => {
                end_of_prefix_by_first(prefix.drop_last());
            },
        }
    }
}

/// The texts that begin with a prefix are those from the prefix up to the end
/// of the prefix: one range of an ordered index.
pub proof fn prefix_is_a_range(prefix: Seq<char>, key: Seq<char>)
    ensures
        starts_with(key, prefix) <==> !before(key, prefix) && match end_of_prefix(prefix) {
            Some(end) => before(key, end),
            None => true,
        },
    decreases prefix.len(),
{
    if prefix.len() == 0 {
        assert(key.take(0) =~= prefix);
    } else if key.len() > 0 {
        end_of_prefix_by_first(prefix);
        let c = prefix[0];
        let d = key[0];
        let p = prefix.skip(1);
        let k = key.skip(1);
        next_char_follows(c);
        chars_are_scalars(c, d);
        prefix_is_a_range(p, k);
        if c == d {
            assert(starts_with(key, prefix) <==> starts_with(k, p)) by {
                if starts_with(key, prefix) {
                    assert(k.take(p.len() as int) =~= key.take(prefix.len() as int).skip(1));
                }
                if starts_with(k, p) {
                    assert(key.take(prefix.len() as int) =~= seq![d] + k.take(p.len() as int));
                    assert(prefix =~= seq![c] + p);
                }
            }
            match end_of_prefix(p) {
                Some(end) => {
                    assert((seq![c] + end).skip(1) =~= end);
                    assert((seq![c] + end)[0] == c);
                    assert(before(key, seq![c] + end) == before(k, end));
                },
                None => match next_char(c) {
                    Some(n) => {
                        assert(before(key, seq![n]));
                    },
                    None => {},
                },
            }
        } else {
            if starts_with(key, prefix) {
                assert(key.take(prefix.len() as int)[0] == d);
            }
            match end_of_prefix(p) {
                Some(end) => {
                    assert((seq![c] + end)[0] == c);
                },
                None => match next_char(c) {
                    Some(n) => {
                        assert(seq![n][0] == n);
                        assert(!before(k, seq![n].skip(1)));
                    },
                    None => {},
                },
            }
        }
    }
}

/// The first text after every text that begins with `prefix`, if there is one.
pub fn prefix_end(prefix: &str) -> (end: Option<String>)
    ensures
        end is Some <==> end_of_prefix(prefix@) is Some,
        end matches Some(text) ==> end_of_prefix(prefix@) == Some(text@),
{
    let mut chars = to_chars(prefix);
    while chars.len() > 0
        invariant
            end_of_prefix(prefix@) == end_of_prefix(chars@),
        decreases chars@.len(),
    {
        let ghost whole = chars@;
        let last: char = chars.pop().unwrap();
        assert(chars@ =~= whole.drop_last());
        let next: u32 = code_point(last) + 1;
        if next <= 0x10ffff {
            let code: u32 = if next == 0xd800 {
                0xe000
            } else {
                next
            };
            let c: char = char::from_u32(code).unwrap();
            assert(next_char(last) == Some(c));
            chars.push(c);
            return Some(slice_text(&chars, 0, chars.len()));
        }
    }
    None
}

/// The key lies after the cursor, where there is one.
pub open spec fn past(after: Option<Seq<char>>, key: Seq<char>) -> bool {
    match after {
        None => true,
        Some(after) => before(after, key),
    }
}

/// The characters of an optional text.
pub open spec fn text_of(text: Option<String>) -> Option<Seq<char>> {
    match text {
        None => None,
        Some(text) => Some(text@),
    }
}

/// One ordered read of the key index: from `lower`, below `upper`, past `after`.
#[derive(Debug)]
pub struct KeyQuery {
    pub lower: String,
    pub upper: Option<String>,
    pub after: Option<String>,
    pub limit: usize,
}

impl KeyQuery {
    /// The query selects the key.
    pub open spec fn selects(self, key: Seq<char>) -> bool {
        &&& !before(key, self.lower@)
        &&& match self.upper {
            Some(upper) => before(key, upper@),
            None => true,
        }
        &&& past(text_of(self.after), key)
    }
}

/// The read that gives the next `limit` rows whose keys begin with `prefix` and
/// come after `after`.
pub fn metadata_page(prefix: &str, after: Option<&str>, limit: usize) -> (query: KeyQuery)
    ensures
        query.limit == limit,
        after is None ==> query.after is None && query.lower@ == prefix@,
        after matches Some(cursor) ==> text_of(query.after) == Some(cursor@) && query.lower@ == (
        if before(prefix@, cursor@) {
            cursor@
        } else {
            prefix@
        }),
        text_of(query.upper) == end_of_prefix(prefix@),
        forall|key: Seq<char>| #[trigger]
            query.selects(key) <==> starts_with(key, prefix@) && past(text_of(query.after), key),
{
    let upper = prefix_end(prefix);
    let query = match after {
        None => KeyQuery { lower: prefix.to_owned(), upper, after: None, limit },
        Some(cursor) => {
            let lower = if text_before(prefix, cursor) {
                cursor.to_owned()
            } else {
                prefix.to_owned()
            };
            KeyQuery { lower, upper, after: Some(cursor.to_owned()), limit }
        },
    };
    proof {
        assert forall|key: Seq<char>| #[trigger] query.selects(key) <==> starts_with(key, prefix@)
            && past(text_of(query.after), key) by {
            prefix_is_a_range(prefix@, key);
            match after {
                None => {},
                Some(cursor) => {
                    if before(cursor@, key) {
                        before_is_asymmetric(cursor@, key);
                        if before(prefix@, cursor@) {
                            before_is_transitive(prefix@, cursor@, key);
                            before_is_asymmetric(prefix@, key);
                        }
                    }
                },
            }
        }
    }
    query
}

} // verus!
