//! Which paths are canonical, told by their segments.
use crate::path::{canonical, good_segment};
use crate::text::{index_from, index_from_is_first, split};
use crate::text_laws::joined_with;
use vstd::prelude::*;

verus! {

/// A segment that a path may have: not empty, neither one dot nor two, and without an
/// ASCII control character.
pub open spec fn is_plain_segment(segment: Seq<char>) -> bool {
    &&& segment.len() > 0
    &&& segment != seq!['.']
    &&& segment != seq!['.', '.']
    &&& forall|i: int|
        0 <= i < segment.len() ==> 32 <= (#[trigger] segment[i]) as int && segment[i] as int != 127
}

/// The segments of joined segments are these again.
pub proof fn segments_come_back(segments: Seq<Seq<char>>)
    requires
        segments.len() > 0,
        forall|i: int| 0 <= i < segments.len() ==> !(#[trigger] segments[i]).contains('/'),
    ensures
        split(joined_with(segments, '/'), '/') == segments,
    decreases segments.len(),
{
    let text = joined_with(segments, '/');
    let first = segments[0];
    index_from_is_first(text, '/', 0);
    let at = index_from(text, '/', 0);
    if segments.len() == 1 {
        if at < text.len() {
            assert(first[at] == '/');
            assert(first.contains('/'));
        }
        assert(split(text, '/') =~= segments);
    } else {
        let rest = segments.skip(1);
        assert forall|i: int| 0 <= i < rest.len() implies !(#[trigger] rest[i]).contains('/') by {
            assert(rest[i] == segments[i + 1]);
        }
        segments_come_back(rest);
        let n = first.len() as int;
        assert(text[n] == '/');
        if at < n {
            assert(first[at] == '/');
            assert(first.contains('/'));
        }
        assert(at == n);
        assert(text.take(n) =~= first);
        assert(text.skip(n + 1) =~= joined_with(rest, '/'));
        assert(split(text, '/') =~= segments);
    }
}

proof fn segments_are_good_or_not(segment: Seq<char>)
    ensures
        good_segment(segment) <==> is_plain_segment(segment),
{
    if good_segment(segment) {
        assert forall|i: int| 0 <= i < segment.len() implies 32 <= (#[trigger] segment[i]) as int
            && segment[i] as int != 127 by {
            assert(!crate::path::is_control(segment[i]));
        }
    }
}

/// Where plain segments stand at both ends, so do other characters than slashes.
proof fn ends_are_no_slashes(segments: Seq<Seq<char>>)
    requires
        segments.len() > 0,
        forall|i: int| 0 <= i < segments.len() ==> !(#[trigger] segments[i]).contains('/'),
        segments[0].len() > 0,
        segments.last().len() > 0,
    ensures
        joined_with(segments, '/').len() > 0,
        joined_with(segments, '/')[0] != '/',
        joined_with(segments, '/').last() != '/',
    decreases segments.len(),
{
    let text = joined_with(segments, '/');
    let first = segments[0];
    assert(first.contains(first[0]));
    assert(text[0] == first[0]);
    if segments.len() == 1 {
        assert(first.contains(first.last()));
    } else {
        let rest = segments.skip(1);
        assert(rest.last() == segments.last());
        last_is_no_slash(rest);
        assert(text.last() == joined_with(rest, '/').last());
    }
}

proof fn last_is_no_slash(segments: Seq<Seq<char>>)
    requires
        segments.len() > 0,
        !segments.last().contains('/'),
        segments.last().len() > 0,
    ensures
        joined_with(segments, '/').len() > 0,
        joined_with(segments, '/').last() != '/',
    decreases segments.len(),
{
    if segments.len() == 1 {
        assert(segments[0].contains(segments[0].last()));
    } else {
        let rest = segments.skip(1);
        assert(rest.last() == segments.last());
        last_is_no_slash(rest);
        assert(joined_with(segments, '/').last() == joined_with(rest, '/').last());
    }
}

/// Segments with slashes between them are a path exactly where each is plain, however
/// many there are; the path is the same with one slash before it, behind it, or both.
pub proof fn paths_are_of_plain_segments(segments: Seq<Seq<char>>)
    requires
        segments.len() > 0,
        forall|i: int| 0 <= i < segments.len() ==> !(#[trigger] segments[i]).contains('/'),
        segments[0].len() > 0,
        segments.last().len() > 0,
    ensures
        ({
            let path = joined_with(segments, '/');
            let plain = forall|i: int|
                0 <= i < segments.len() ==> is_plain_segment(#[trigger] segments[i]);
            &&& canonical(path) is Some <==> plain
            &&& plain ==> canonical(path) == Some(path)
            &&& canonical(seq!['/'] + path) == canonical(path)
            &&& canonical(path.push('/')) == canonical(path)
            &&& canonical((seq!['/'] + path).push('/')) == canonical(path)
        }),
{
    let path = joined_with(segments, '/');
    segments_come_back(segments);
    ends_are_no_slashes(segments);
    assert forall|i: int| 0 <= i < segments.len() implies good_segment(#[trigger] segments[i])
        == is_plain_segment(segments[i]) by {
        segments_are_good_or_not(segments[i]);
    }
    let before = seq!['/'] + path;
    assert(before.skip(1) =~= path);
    assert(path.push('/').drop_last() =~= path);
    assert(path.push('/')[0] == path[0]);
    let both = before.push('/');
    assert(both.skip(1) =~= path.push('/'));
    assert(before[0] == '/');
    assert(both[0] == '/');
}

/// Nothing and one slash are the path of the root; two slashes are none.
pub proof fn root_is_a_path(slash: Seq<char>)
    requires
        slash == seq!['/'],
    ensures
        canonical(Seq::<char>::empty()) == Some(Seq::<char>::empty()),
        canonical(slash) == Some(Seq::<char>::empty()),
        canonical(slash + slash) is None,
{
    let nothing = Seq::<char>::empty();
    assert(slash.skip(1) =~= nothing);
    assert((slash + slash).skip(1) =~= slash);
    assert(slash.drop_last() =~= nothing);
    index_from_is_first(nothing, '/', 0);
    assert(split(nothing, '/') =~= seq![nothing]);
    assert(!good_segment(split(nothing, '/')[0]));
}

} // verus!
