//! Which specifications name a local database.
use crate::local_storage::{
    has_scheme, last_part, lower, names_file, plain_path, up_to_last_part,
};
use vstd::prelude::*;

verus! {

/// The capital letters of ASCII have their small ones, and every other character is
/// its own.
pub proof fn letters_have_small_forms(c: char)
    ensures
        'A' as int <= c as int <= 'Z' as int ==> lower(c) as int == c as int + 32,
        !('A' as int <= c as int <= 'Z' as int) ==> lower(c) == c,
{
}

/// A text has a scheme exactly where it begins with as many characters that are those
/// of the scheme, capitals aside; what stands behind does not matter.
pub proof fn scheme_is_how_it_begins(head: Seq<char>, rest: Seq<char>, scheme: Seq<char>)
    requires
        head.len() == scheme.len(),
    ensures
        has_scheme(head + rest, scheme) <==> forall|i: int|
            0 <= i < scheme.len() ==> #[trigger] lower(head[i]) == scheme[i],
{
    let text = head + rest;
    assert forall|i: int| 0 <= i < scheme.len() implies text[i] == head[i] by {}
    if has_scheme(text, scheme) {
        assert forall|i: int| 0 <= i < scheme.len() implies #[trigger] lower(head[i])
            == scheme[i] by {
            assert(lower(text[i]) == scheme[i]);
        }
    }
}

proof fn last_part_is_behind_the_slash(head: Seq<char>, name: Seq<char>)
    requires
        !name.contains('/'),
    ensures
        last_part(head.push('/') + name) == name,
    decreases name.len(),
{
    let path = head.push('/') + name;
    if name.len() == 0 {
        assert(path.last() == '/');
        assert(last_part(path) =~= name);
    } else {
        let shorter = name.drop_last();
        assert(name[name.len() - 1] != '/') by {
            assert(name.contains(name[name.len() - 1]));
        }
        assert(!shorter.contains('/')) by {
            if shorter.contains('/') {
                let i = choose|i: int| 0 <= i < shorter.len() && shorter[i] == '/';
                assert(name[i] == '/');
            }
        }
        last_part_is_behind_the_slash(head, shorter);
        assert(path.drop_last() =~= head.push('/') + shorter);
        assert(path.last() == name.last());
        assert(last_part(path) =~= name);
    }
}

/// A path names a file where what stands behind its last slash is a name: neither one
/// dot nor two, however deep it lies. With two dots it names none.
pub proof fn last_name_names_a_file(head: Seq<char>, name: Seq<char>)
    requires
        name.len() > 0,
        !name.contains('/'),
    ensures
        name != seq!['.'] && name != seq!['.', '.'] ==> names_file(head.push('/') + name),
        name == seq!['.', '.'] ==> !names_file(head.push('/') + name),
{
    last_part_is_behind_the_slash(head, name);
}

/// A character that a local path may not have.
pub open spec fn is_special(c: char) -> bool {
    c == '?' || c == '#' || c == '%' || c == '\0'
}

/// Every absolute path to a file is a plain one, unless a special character is in it
/// or it begins with two slashes, whatever its length.
pub proof fn absolute_paths_are_plain(head: Seq<char>, name: Seq<char>)
    requires
        head.len() > 0 ==> head[0] == '/',
        head.len() > 1 ==> head[1] != '/',
        head.len() != 1,
        name.len() > 0,
        !name.contains('/'),
        name != seq!['.'],
        name != seq!['.', '.'],
        forall|i: int| 0 <= i < head.len() ==> !is_special(#[trigger] head[i]),
        forall|i: int| 0 <= i < name.len() ==> !is_special(#[trigger] name[i]),
    ensures
        plain_path(head.push('/') + name),
{
    let path = head.push('/') + name;
    last_name_names_a_file(head, name);
    assert(name.contains(name[0]));
    assert(name.contains(name[name.len() - 1]));
    assert(path.last() == name.last());
    assert(path[0] == '/');
    if head.len() == 0 {
        assert(path[1] == name[0]);
    } else {
        assert(path[1] == head[1]);
    }
    assert forall|i: int| 0 <= i < path.len() implies #[trigger] path[i] != '?' && path[i] != '#'
        && path[i] != '%' && path[i] != '\0' by {
        if i < head.len() {
            assert(!is_special(head[i]));
        } else if i > head.len() {
            assert(!is_special(name[i - head.len() - 1]));
        }
    }
}

/// A plain path is absolute and has no authority, no slash at its end and no special
/// character.
pub proof fn plain_paths_are_literal(path: Seq<char>, i: int)
    requires
        plain_path(path),
        0 <= i < path.len(),
    ensures
        path[0] == '/',
        path.len() > 1,
        path[1] != '/',
        path.last() != '/',
        path[i] != '?',
        path[i] != '#',
        path[i] != '%',
        path[i] != '\0',
        names_file(path),
{
    if path.len() == 1 {
        assert(path.last() == path[0]);
    }
}

proof fn last_part_without_slash(name: Seq<char>)
    requires
        !name.contains('/'),
    ensures
        last_part(name) == name,
    decreases name.len(),
{
    if name.len() == 0 {
        assert(last_part(name) =~= name);
    } else {
        let shorter = name.drop_last();
        assert(name[name.len() - 1] != '/') by {
            assert(name.contains(name[name.len() - 1]));
        }
        assert(!shorter.contains('/')) by {
            if shorter.contains('/') {
                let i = choose|i: int| 0 <= i < shorter.len() && shorter[i] == '/';
                assert(name[i] == '/');
            }
        }
        last_part_without_slash(shorter);
        assert(last_part(name) =~= name);
    }
}

/// Slashes and lone dots at the end of a path do not count: it names a file exactly
/// where it does so without them.
pub proof fn trailing_dots_are_skipped(path: Seq<char>)
    ensures
        names_file(path.push('/')) == names_file(path),
        names_file(path.push('/').push('.')) == names_file(path),
{
    let nothing = Seq::<char>::empty();
    let dot = seq!['.'];
    let slashed = path.push('/');
    let dotted = path.push('/').push('.');
    last_part_is_behind_the_slash(path, nothing);
    assert(slashed + nothing =~= slashed);
    assert(up_to_last_part(slashed).drop_last() =~= path);
    assert(!dot.contains('/'));
    last_part_is_behind_the_slash(path, dot);
    assert(slashed + dot =~= dotted);
    assert(up_to_last_part(dotted).drop_last() =~= path);
    assert(dot.len() != seq!['.', '.'].len());
    assert(nothing.len() != seq!['.', '.'].len());
}

/// A path of one name names a file unless the name is empty, one dot or two.
pub proof fn lone_names_are_files(name: Seq<char>)
    requires
        !name.contains('/'),
    ensures
        names_file(name) <==> name.len() > 0 && name != seq!['.'] && name != seq!['.', '.'],
{
    last_part_without_slash(name);
    assert(up_to_last_part(name).len() == 0);
}

} // verus!
