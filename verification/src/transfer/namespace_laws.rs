//! What the specification of a namespace means, and when two namespaces meet.
use crate::text::starts_with;
use crate::transfer::namespace::{
    cloud_prefix, is_inserted, names_container, overlap, without_slashes, BucketFacts, ListedView,
};
use vstd::prelude::*;

verus! {

/// Of two beginnings of one text, one begins with the other.
proof fn beginnings_nest(text: Seq<char>, a: Seq<char>, b: Seq<char>)
    requires
        starts_with(text, a),
        starts_with(text, b),
    ensures
        starts_with(a, b) || starts_with(b, a),
{
    if a.len() <= b.len() {
        assert(b.take(a.len() as int) =~= text.take(a.len() as int)) by {
            assert(b == text.take(b.len() as int));
        }
    } else {
        assert(a.take(b.len() as int) =~= text.take(b.len() as int)) by {
            assert(a == text.take(a.len() as int));
        }
    }
}

/// Two namespaces overlap exactly where they are in one bucket and some path lies in
/// both.
pub proof fn overlapping_namespaces_share_a_path(a: BucketFacts, b: BucketFacts)
    ensures
        overlap(a, b) <==> a.backend@ == b.backend@ && a.name@ == b.name@ && exists|path: Seq<char>|
            #[trigger] starts_with(path, a.prefix@) && starts_with(path, b.prefix@),
        overlap(a, b) == overlap(b, a),
{
    let p = a.prefix@;
    let q = b.prefix@;
    assert(p.take(p.len() as int) =~= p);
    assert(q.take(q.len() as int) =~= q);
    if overlap(a, b) {
        if starts_with(p, q) {
            assert(starts_with(p, p));
        } else {
            assert(starts_with(q, p) && starts_with(q, q));
        }
    }
    if exists|path: Seq<char>| #[trigger] starts_with(path, p) && starts_with(path, q) {
        let path = choose|path: Seq<char>| #[trigger] starts_with(path, p) && starts_with(path, q);
        beginnings_nest(path, p, q);
    }
}

/// The path of a logical key lies in its namespace, and the key is what stands behind
/// the prefix.
pub proof fn logical_key_comes_back(prefix: Seq<char>, logical: Seq<char>)
    ensures
        starts_with(prefix + logical, prefix),
        (prefix + logical).skip(prefix.len() as int) == logical,
{
    assert((prefix + logical).take(prefix.len() as int) =~= prefix);
    assert((prefix + logical).skip(prefix.len() as int) =~= logical);
}

/// What trimming drops are the slashes at the end, all of them and nothing else.
pub proof fn only_last_slashes_are_dropped(text: Seq<char>)
    ensures
        exists|slashes: Seq<char>|
            {
                &&& text == #[trigger] (without_slashes(text) + slashes)
                &&& forall|i: int| 0 <= i < slashes.len() ==> #[trigger] slashes[i] == '/'
            },
        without_slashes(text).len() > 0 ==> without_slashes(text).last() != '/',
    decreases text.len(),
{
    if text.len() > 0 && text.last() == '/' {
        let inner = text.drop_last();
        only_last_slashes_are_dropped(inner);
        let slashes = choose|slashes: Seq<char>|
            {
                &&& inner == #[trigger] (without_slashes(inner) + slashes)
                &&& forall|i: int| 0 <= i < slashes.len() ==> #[trigger] slashes[i] == '/'
            };
        assert(text =~= inner.push('/'));
        assert(text =~= without_slashes(text) + slashes.push('/'));
    } else {
        assert(text =~= without_slashes(text) + Seq::<char>::empty());
    }
}

/// A container is named by what stands between the scheme and the next slash, and a
/// specification names only one.
pub proof fn one_container_is_named(scheme: Seq<char>, name: Seq<char>, other: Seq<char>)
    requires
        scheme.len() == 5,
        !name.contains('/'),
    ensures
        names_container(scheme + name, name),
        names_container(scheme + name + seq!['/'] + other, name),
        names_container(scheme + name, other) ==> other == name,
        forall|rest: Seq<char>|
            names_container(#[trigger] (scheme + name + seq!['/'] + rest), other) ==> other == name,
{
    let bare = scheme + name;
    assert(bare.subrange(5, 5 + name.len() as int) =~= name);
    assert(bare.skip(5 + name.len() as int).len() == 0);
    let whole = bare + seq!['/'] + other;
    assert(whole.subrange(5, 5 + name.len() as int) =~= name);
    assert(whole.skip(5 + name.len() as int)[0] == '/');
    if names_container(bare, other) {
        container_is_unique(bare, name, other);
    }
    assert forall|rest: Seq<char>|
        names_container(#[trigger] (scheme + name + seq!['/'] + rest), other) implies other
        == name by {
        let spec = scheme + name + seq!['/'] + rest;
        assert(spec.subrange(5, 5 + name.len() as int) =~= name);
        assert(spec.skip(5 + name.len() as int)[0] == '/');
        container_is_unique(spec, name, other);
    }
}

proof fn container_is_unique(spec: Seq<char>, a: Seq<char>, b: Seq<char>)
    requires
        names_container(spec, a),
        names_container(spec, b),
    ensures
        a == b,
{
    container_is_not_longer(spec, a, b);
    container_is_not_longer(spec, b, a);
}

proof fn container_is_not_longer(spec: Seq<char>, a: Seq<char>, b: Seq<char>)
    requires
        names_container(spec, a),
        names_container(spec, b),
    ensures
        b.len() <= a.len(),
{
    let n = a.len() as int;
    if n < b.len() {
        assert(spec.skip(5 + n)[0] == spec[5 + n]);
        assert(spec.subrange(5, 5 + b.len() as int)[n] == spec[5 + n]);
        assert(b[n] == '/');
    }
}

/// The prefix of a container's namespace is the directory behind its name: nothing for
/// the container alone or with a slash, and else what is written with one slash at its
/// end.
pub proof fn prefix_is_the_directory_behind(scheme: Seq<char>, name: Seq<char>, inner: Seq<char>)
    requires
        scheme.len() == 5,
    ensures
        cloud_prefix(scheme + name, name.len()) == Seq::<char>::empty(),
        cloud_prefix(scheme + name + seq!['/'], name.len()) == Seq::<char>::empty(),
        inner.len() > 0 && inner.last() != '/' ==> cloud_prefix(
            scheme + name + seq!['/'] + inner,
            name.len(),
        ) == inner + seq!['/'],
        inner.len() > 0 && inner.last() != '/' ==> cloud_prefix(
            scheme + name + seq!['/'] + inner + seq!['/'],
            name.len(),
        ) == inner + seq!['/'],
{
    let n = (5 + name.len()) as int;
    let nothing = Seq::<char>::empty();
    assert((scheme + name).skip(n) =~= nothing);
    assert((scheme + name + seq!['/']).skip(n) =~= seq!['/']);
    assert(seq!['/'].skip(1) =~= nothing);
    let whole = scheme + name + seq!['/'] + inner;
    assert(whole.skip(n) =~= seq!['/'] + inner);
    assert((seq!['/'] + inner).skip(1) =~= inner);
    assert(inner.push('/') =~= inner + seq!['/']);
    let closed = whole + seq!['/'];
    assert(closed.skip(n) =~= seq!['/'] + inner.push('/'));
    assert((seq!['/'] + inner.push('/')).skip(1) =~= inner.push('/'));
    assert(inner.push('/').drop_last() =~= inner);
    assert(without_slashes(inner.push('/')) == without_slashes(inner));
}

/// An entry that is taken into a listing is there, and so is every other one.
pub proof fn taken_entries_stay(
    earlier: Seq<ListedView>,
    later: Seq<ListedView>,
    entry: ListedView,
    other: ListedView,
)
    requires
        is_inserted(earlier, later, entry),
    ensures
        later.len() == earlier.len() + 1,
        later.contains(other) <==> other == entry || earlier.contains(other),
{
    let at = choose|at: int| 0 <= at <= earlier.len() && later == #[trigger] earlier.insert(at, entry);
    assert(later[at] == entry);
    if earlier.contains(other) {
        let i = choose|i: int| 0 <= i < earlier.len() && earlier[i] == other;
        if i < at {
            assert(later[i] == other);
        } else {
            assert(later[i + 1] == other);
        }
    }
    if later.contains(other) {
        let i = choose|i: int| 0 <= i < later.len() && later[i] == other;
        if i < at {
            assert(earlier[i] == other);
        } else if i > at {
            assert(earlier[i - 1] == other);
        }
    }
}

} // verus!
