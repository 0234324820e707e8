//! What a listing holds, and that its pages add up to it.
use crate::listing::{end_of_prefix, past, prefix_is_a_range};
use crate::object::{meta_of, ObjectMetaView, StoredObjectView};
use crate::page::{accepted, group_of, PageView, StepView};
use crate::path::canonical;
use crate::text::{
    before, before_is_irreflexive, before_is_total, before_is_transitive, find_from, find_is_first,
    occurs_at, prefix_is_not_after, starts_with,
};
use vstd::prelude::*;

verus! {

/// One line of a listing: an object, or a group of keys under a delimiter.
pub enum Entry {
    Object(StoredObjectView),
    Group(Seq<char>),
}

/// The rows of a snapshot in key order, no key twice.
pub open spec fn sorted(rows: Seq<StoredObjectView>) -> bool {
    forall|i: int, j: int|
        0 <= i < j < rows.len() ==> #[trigger] before(rows[i].key, #[trigger] rows[j].key)
}

/// The first row at `from` or later whose key begins with `prefix`, or the end.
pub open spec fn next_match(rows: Seq<StoredObjectView>, from: int, prefix: Seq<char>) -> int
    decreases rows.len() - from,
{
    if from >= rows.len() {
        rows.len() as int
    } else if starts_with(rows[from].key, prefix) {
        from
    } else {
        next_match(rows, from + 1, prefix)
    }
}

/// The first row at `from` or later whose key does not begin with `group`, or
/// the end.
pub open spec fn group_end(rows: Seq<StoredObjectView>, from: int, group: Seq<char>) -> int
    decreases rows.len() - from,
{
    if from >= rows.len() {
        rows.len() as int
    } else if !starts_with(rows[from].key, group) {
        from
    } else {
        group_end(rows, from + 1, group)
    }
}

/// The first row past a cursor, or the end.
pub open spec fn cursor_from(
    rows: Seq<StoredObjectView>,
    from: int,
    after: Option<Seq<char>>,
) -> int
    decreases rows.len() - from,
{
    if from >= rows.len() {
        rows.len() as int
    } else if past(after, rows[from].key) {
        from
    } else {
        cursor_from(rows, from + 1, after)
    }
}

/// Where a listing past `after` begins.
pub open spec fn cursor(rows: Seq<StoredObjectView>, after: Option<Seq<char>>) -> int {
    cursor_from(rows, 0, after)
}

/// The entry that a row opens.
pub open spec fn entry_of(
    row: StoredObjectView,
    prefix: Seq<char>,
    delimiter: Option<Seq<char>>,
) -> Entry {
    match group_of(row.key, prefix, delimiter) {
        Some(group) => Entry::Group(group),
        None => Entry::Object(row),
    }
}

/// The row after the last one that the entry opened at `at` stands for.
pub open spec fn entry_end(
    rows: Seq<StoredObjectView>,
    at: int,
    prefix: Seq<char>,
    delimiter: Option<Seq<char>>,
) -> int {
    match group_of(rows[at].key, prefix, delimiter) {
        Some(group) => group_end(rows, at + 1, group),
        None => at + 1,
    }
}

/// The listing of the rows at `from` and later: each key that begins with
/// `prefix`, alone or under the group that it shares.
pub open spec fn entries(
    rows: Seq<StoredObjectView>,
    from: int,
    prefix: Seq<char>,
    delimiter: Option<Seq<char>>,
) -> Seq<Entry>
    decreases rows.len() - from,
    via entries_decreases
{
    let at = next_match(rows, from, prefix);
    if at >= rows.len() {
        Seq::empty()
    } else {
        seq![entry_of(rows[at], prefix, delimiter)] + entries(
            rows,
            entry_end(rows, at, prefix, delimiter),
            prefix,
            delimiter,
        )
    }
}

#[via_fn]
proof fn entries_decreases(
    rows: Seq<StoredObjectView>,
    from: int,
    prefix: Seq<char>,
    delimiter: Option<Seq<char>>,
) {
    let at = next_match(rows, from, prefix);
    next_match_bounds(rows, from, prefix);
    if at < rows.len() {
        entry_end_bounds(rows, at, prefix, delimiter);
    }
}

/// The row after the first `n` entries of a listing.
pub open spec fn covered(
    rows: Seq<StoredObjectView>,
    from: int,
    prefix: Seq<char>,
    delimiter: Option<Seq<char>>,
    n: nat,
) -> int
    decreases n,
{
    if n == 0 {
        from
    } else {
        covered(
            rows,
            entry_end(rows, next_match(rows, from, prefix), prefix, delimiter),
            prefix,
            delimiter,
            (n - 1) as nat,
        )
    }
}

/// The metadata of the objects among the entries, in order.
pub open spec fn listed_objects(entries: Seq<Entry>) -> Seq<ObjectMetaView>
    decreases entries.len(),
{
    if entries.len() == 0 {
        Seq::empty()
    } else {
        match entries.last() {
            Entry::Object(row) => listed_objects(entries.drop_last()).push(meta_of(row).unwrap()),
            Entry::Group(_) => listed_objects(entries.drop_last()),
        }
    }
}

/// The paths of the groups among the entries, in order.
pub open spec fn listed_groups(entries: Seq<Entry>) -> Seq<Seq<char>>
    decreases entries.len(),
{
    if entries.len() == 0 {
        Seq::empty()
    } else {
        match entries.last() {
            Entry::Object(_) => listed_groups(entries.drop_last()),
            Entry::Group(group) => listed_groups(entries.drop_last()).push(
                canonical(group).unwrap(),
            ),
        }
    }
}

pub proof fn next_match_bounds(rows: Seq<StoredObjectView>, from: int, prefix: Seq<char>)
    ensures
        from <= rows.len() ==> from <= next_match(rows, from, prefix) <= rows.len(),
        from > rows.len() ==> next_match(rows, from, prefix) == rows.len(),
        next_match(rows, from, prefix) < rows.len() ==> starts_with(
            rows[next_match(rows, from, prefix)].key,
            prefix,
        ),
        forall|i: int|
            from <= i < next_match(rows, from, prefix) ==> !starts_with(
                #[trigger] rows[i].key,
                prefix,
            ),
    decreases rows.len() - from,
{
    if from < rows.len() && !starts_with(rows[from].key, prefix) {
        next_match_bounds(rows, from + 1, prefix);
    }
}

proof fn group_end_bounds(rows: Seq<StoredObjectView>, from: int, group: Seq<char>)
    ensures
        from <= rows.len() ==> from <= group_end(rows, from, group) <= rows.len(),
        group_end(rows, from, group) < rows.len() ==> !starts_with(
            rows[group_end(rows, from, group)].key,
            group,
        ),
        forall|i: int|
            from <= i < group_end(rows, from, group) ==> starts_with(#[trigger] rows[i].key, group),
    decreases rows.len() - from,
{
    if from < rows.len() && starts_with(rows[from].key, group) {
        group_end_bounds(rows, from + 1, group);
    }
}

proof fn entry_end_bounds(
    rows: Seq<StoredObjectView>,
    at: int,
    prefix: Seq<char>,
    delimiter: Option<Seq<char>>,
)
    requires
        at < rows.len(),
    ensures
        at < entry_end(rows, at, prefix, delimiter) <= rows.len(),
{
    match group_of(rows[at].key, prefix, delimiter) {
        Some(group) => group_end_bounds(rows, at + 1, group),
        None => {},
    }
}

pub proof fn cursor_bounds(rows: Seq<StoredObjectView>, from: int, after: Option<Seq<char>>)
    requires
        sorted(rows),
        0 <= from <= rows.len(),
    ensures
        from <= cursor_from(rows, from, after) <= rows.len(),
        forall|i: int|
            from <= i < rows.len() ==> (past(after, #[trigger] rows[i].key) <==> i >= cursor_from(
                rows,
                from,
                after,
            )),
    decreases rows.len() - from,
{
    if from < rows.len() {
        if past(after, rows[from].key) {
            assert forall|i: int| from <= i < rows.len() implies past(after, #[trigger] rows[i].key) by {
                match after {
                    None => {},
                    Some(after) => {
                        if i > from {
                            before_is_transitive(after, rows[from].key, rows[i].key);
                        }
                    },
                }
            }
        } else {
            cursor_bounds(rows, from + 1, after);
        }
    }
}

/// A cursor at a row's key begins with the row behind it.
pub proof fn cursor_at_row(rows: Seq<StoredObjectView>, at: int)
    requires
        sorted(rows),
        0 <= at < rows.len(),
    ensures
        cursor(rows, Some(rows[at].key)) == at + 1,
{
    let after = Some(rows[at].key);
    cursor_bounds(rows, 0, after);
    before_is_irreflexive(rows[at].key);
    if at + 1 < rows.len() {
        assert(before(rows[at].key, rows[at + 1].key));
        assert(past(after, rows[at + 1].key));
    }
    assert(!past(after, rows[at].key));
}

/// The rows under one group lie side by side.
proof fn group_is_contiguous(rows: Seq<StoredObjectView>, at: int, group: Seq<char>, i: int)
    requires
        sorted(rows),
        0 <= at < rows.len(),
        starts_with(rows[at].key, group),
        at <= i < rows.len(),
    ensures
        starts_with(rows[i].key, group) <==> i < group_end(rows, at + 1, group),
{
    group_end_bounds(rows, at + 1, group);
    let end = group_end(rows, at + 1, group);
    if i >= end {
        prefix_is_a_range(group, rows[at].key);
        prefix_is_a_range(group, rows[end].key);
        prefix_is_a_range(group, rows[i].key);
        assert(before(rows[at].key, rows[end].key));
        before_is_total(rows[at].key, group);
        if before(rows[end].key, group) {
            before_is_transitive(rows[at].key, rows[end].key, group);
        }
        if i > end && starts_with(rows[i].key, group) {
            match end_of_prefix(group) {
                Some(upper) => {
                    assert(before(rows[end].key, rows[i].key));
                    before_is_transitive(rows[end].key, rows[i].key, upper);
                },
                None => {},
            }
        }
    }
}

/// A key begins with its group, which begins with the prefix.
proof fn key_begins_with_group(key: Seq<char>, prefix: Seq<char>, delimiter: Option<Seq<char>>)
    requires
        starts_with(key, prefix),
        group_of(key, prefix, delimiter) is Some,
    ensures
        starts_with(key, group_of(key, prefix, delimiter).unwrap()),
        starts_with(group_of(key, prefix, delimiter).unwrap(), prefix),
{
    let group = group_of(key, prefix, delimiter).unwrap();
    find_is_first(key, delimiter.unwrap(), prefix.len() as int);
    assert(key.take(group.len() as int) =~= group);
    assert(group.take(prefix.len() as int) =~= key.take(prefix.len() as int));
}

/// Skipping `n` entries leaves the listing of the rows behind them.
pub proof fn covered_splits(
    rows: Seq<StoredObjectView>,
    from: int,
    prefix: Seq<char>,
    delimiter: Option<Seq<char>>,
    n: nat,
)
    requires
        0 <= from <= rows.len(),
        n <= entries(rows, from, prefix, delimiter).len(),
    ensures
        from <= covered(rows, from, prefix, delimiter, n) <= rows.len(),
        n > 0 ==> from < covered(rows, from, prefix, delimiter, n),
        entries(rows, from, prefix, delimiter).skip(n as int) == entries(
            rows,
            covered(rows, from, prefix, delimiter, n),
            prefix,
            delimiter,
        ),
    decreases n,
{
    let all = entries(rows, from, prefix, delimiter);
    if n == 0 {
        assert(all.skip(0) =~= all);
    } else {
        let at = next_match(rows, from, prefix);
        next_match_bounds(rows, from, prefix);
        entry_end_bounds(rows, at, prefix, delimiter);
        let next = entry_end(rows, at, prefix, delimiter);
        covered_splits(rows, next, prefix, delimiter, (n - 1) as nat);
        assert(all.skip(n as int) =~= entries(rows, next, prefix, delimiter).skip(n - 1));
    }
}

/// The row behind `n + 1` entries, counted from the row behind `n` of them.
proof fn covered_one_more(
    rows: Seq<StoredObjectView>,
    from: int,
    prefix: Seq<char>,
    delimiter: Option<Seq<char>>,
    n: nat,
)
    ensures
        covered(rows, from, prefix, delimiter, n + 1) == entry_end(
            rows,
            next_match(rows, covered(rows, from, prefix, delimiter, n), prefix),
            prefix,
            delimiter,
        ),
    decreases n,
{
    let next = entry_end(rows, next_match(rows, from, prefix), prefix, delimiter);
    if n > 0 {
        covered_one_more(rows, next, prefix, delimiter, (n - 1) as nat);
        assert(covered(rows, from, prefix, delimiter, n + 1) == covered(
            rows,
            next,
            prefix,
            delimiter,
            n,
        ));
    } else {
        assert(covered(rows, next, prefix, delimiter, 0) == next);
    }
}

/// The reply to a page's query: the first row in order with the prefix and past
/// the cursor.
pub open spec fn is_next(
    rows: Seq<StoredObjectView>,
    prefix: Seq<char>,
    after: Option<Seq<char>>,
    reply: Option<StoredObjectView>,
) -> bool {
    match reply {
        Some(row) => exists|i: int|
            {
                &&& 0 <= i < rows.len()
                &&& #[trigger] rows[i] == row
                &&& starts_with(row.key, prefix)
                &&& past(after, row.key)
                &&& forall|j: int|
                    0 <= j < i ==> !(starts_with(#[trigger] rows[j].key, prefix) && past(
                        after,
                        rows[j].key,
                    ))
            },
        None => forall|j: int|
            0 <= j < rows.len() ==> !(starts_with(#[trigger] rows[j].key, prefix) && past(
                after,
                rows[j].key,
            )),
    }
}

/// The key lies from `from` up to `upper`.
pub open spec fn in_range(key: Seq<char>, from: Seq<char>, upper: Option<Seq<char>>) -> bool {
    !before(key, from) && match upper {
        Some(upper) => before(key, upper),
        None => true,
    }
}

/// The reply to a page's seek: the last key in order from `from` up to `upper`.
pub open spec fn is_last(
    rows: Seq<StoredObjectView>,
    from: Seq<char>,
    upper: Option<Seq<char>>,
    key: Seq<char>,
) -> bool {
    exists|i: int|
        {
            &&& 0 <= i < rows.len()
            &&& #[trigger] rows[i].key == key
            &&& in_range(key, from, upper)
            &&& forall|j: int|
                i < j < rows.len() ==> !in_range(#[trigger] rows[j].key, from, upper)
        }
}

/// The page holds the first entries of the listing from `start`, and its cursor
/// stands behind them.
pub open spec fn on_course(page: PageView, rows: Seq<StoredObjectView>, start: int) -> bool {
    let all = entries(rows, start, page.prefix, page.delimiter);
    &&& page.count() <= all.len()
    &&& page.objects == listed_objects(all.take(page.count() as int))
    &&& page.common_prefixes == listed_groups(all.take(page.count() as int))
    &&& cursor(rows, page.after) == covered(
        rows,
        start,
        page.prefix,
        page.delimiter,
        page.count(),
    )
}

proof fn next_is_match(
    rows: Seq<StoredObjectView>,
    prefix: Seq<char>,
    after: Option<Seq<char>>,
    reply: Option<StoredObjectView>,
)
    requires
        sorted(rows),
        is_next(rows, prefix, after, reply),
    ensures
        ({
            let at = next_match(rows, cursor(rows, after), prefix);
            &&& 0 <= cursor(rows, after) <= at <= rows.len()
            &&& reply == if at < rows.len() {
                Some(rows[at])
            } else {
                None
            }
        }),
{
    cursor_bounds(rows, 0, after);
    let start = cursor(rows, after);
    next_match_bounds(rows, start, prefix);
    let at = next_match(rows, start, prefix);
    if at < rows.len() {
        assert(past(after, rows[at].key));
        match reply {
            Some(row) => {
                let i = choose|i: int|
                    {
                        &&& 0 <= i < rows.len()
                        &&& #[trigger] rows[i] == row
                        &&& starts_with(row.key, prefix)
                        &&& past(after, row.key)
                        &&& forall|j: int|
                            0 <= j < i ==> !(starts_with(#[trigger] rows[j].key, prefix) && past(
                                after,
                                rows[j].key,
                            ))
                    };
                assert(past(after, rows[i].key));
                assert(starts_with(rows[i].key, prefix));
                assert(i == at);
            },
            None => {},
        }
    } else {
        match reply {
            Some(row) => {
                let i = choose|i: int|
                    0 <= i < rows.len() && #[trigger] rows[i] == row && starts_with(row.key, prefix)
                        && past(after, row.key);
                assert(past(after, rows[i].key));
                assert(starts_with(rows[i].key, prefix));
            },
            None => {},
        }
    }
}

proof fn last_is_group_end(
    rows: Seq<StoredObjectView>,
    at: int,
    group: Seq<char>,
    key: Seq<char>,
)
    requires
        sorted(rows),
        0 <= at < rows.len(),
        starts_with(rows[at].key, group),
        is_last(rows, group, end_of_prefix(group), key),
    ensures
        at < group_end(rows, at + 1, group) <= rows.len(),
        key == rows[group_end(rows, at + 1, group) - 1].key,
{
    group_end_bounds(rows, at + 1, group);
    let end = group_end(rows, at + 1, group);
    let upper = end_of_prefix(group);
    let i = choose|i: int|
        {
            &&& 0 <= i < rows.len()
            &&& #[trigger] rows[i].key == key
            &&& in_range(key, group, upper)
            &&& forall|j: int|
                i < j < rows.len() ==> !in_range(#[trigger] rows[j].key, group, upper)
        };
    prefix_is_a_range(group, rows[i].key);
    prefix_is_a_range(group, rows[at].key);
    assert(in_range(rows[at].key, group, upper));
    assert(i >= at);
    group_is_contiguous(rows, at, group, i);
    group_is_contiguous(rows, at, group, end - 1);
    prefix_is_a_range(group, rows[end - 1].key);
    assert(in_range(rows[end - 1].key, group, upper));
}

/// A page built from a snapshot holds the first entries of its listing, in
/// order. When it ends without a token it holds them all; when it ends with one
/// it is full, and a listing past the token is exactly the rest. It fails only
/// on an entry whose path is not canonical.
pub proof fn page_stays_on_course(
    page: PageView,
    rows: Seq<StoredObjectView>,
    start: int,
    reply: Option<StoredObjectView>,
)
    requires
        sorted(rows),
        0 <= start <= rows.len(),
        page.wf(),
        page.limit > 0,
        on_course(page, rows, start),
        is_next(rows, page.prefix, page.after, reply),
    ensures
        ({
            let all = entries(rows, start, page.prefix, page.delimiter);
            let (next, step) = accepted(page, reply);
            match step {
                StepView::Continue => next.count() == page.count() + 1 && on_course(
                    next,
                    rows,
                    start,
                ),
                StepView::Seek { from, upper } => next.count() == page.count() + 1 && forall|
                    last: Seq<char>,
                |
                    #[trigger] is_last(rows, from, upper, last) ==> on_course(
                        PageView { after: Some(last), ..next },
                        rows,
                        start,
                    ),
                StepView::Done { page_token: None } => next == page && page.count() == all.len(),
                StepView::Done { page_token: Some(token) } => {
                    &&& next == page
                    &&& page.count() == page.limit < all.len()
                    &&& entries(
                        rows,
                        cursor(rows, Some(token)),
                        page.prefix,
                        page.delimiter,
                    ) == all.skip(page.limit as int)
                },
                StepView::Fail { path, words: _ } => {
                    &&& next == page
                    &&& page.count() < all.len()
                    &&& canonical(path) is None
                    &&& path == match all[page.count() as int] {
                        Entry::Object(row) => row.key,
                        Entry::Group(group) => group,
                    }
                },
            }
        }),
{
    let prefix = page.prefix;
    let delimiter = page.delimiter;
    let n = page.count();
    let all = entries(rows, start, prefix, delimiter);
    next_is_match(rows, prefix, page.after, reply);
    covered_splits(rows, start, prefix, delimiter, n);
    covered_one_more(rows, start, prefix, delimiter, n);
    let from = cursor(rows, page.after);
    let at = next_match(rows, from, prefix);
    let rest = entries(rows, from, prefix, delimiter);
    assert(rest == all.skip(n as int));
    next_match_bounds(rows, from, prefix);
    if at < rows.len() {
        let row = rows[at];
        assert(reply == Some(row));
        assert(rest.len() > 0);
        assert(all[n as int] == rest[0]);
        assert(rest[0] == entry_of(row, prefix, delimiter));
        assert(all.take(n as int + 1).drop_last() =~= all.take(n as int));
        assert(all.take(n as int + 1).last() == all[n as int]);
        if n == page.limit {
            match page.after {
                Some(token) => {},
                None => {
                    assert(cursor(rows, None) == 0) by {
                        cursor_bounds(rows, 0, None::<Seq<char>>);
                        assert(past(None, rows[0].key));
                    }
                },
            }
        } else {
            match group_of(row.key, prefix, delimiter) {
                Some(group) => {
                    key_begins_with_group(row.key, prefix, delimiter);
                    let next = accepted(page, reply).0;
                    assert forall|last: Seq<char>| #[trigger]
                        is_last(rows, group, end_of_prefix(group), last) && canonical(
                            group,
                        ) is Some implies on_course(
                        PageView { after: Some(last), ..next },
                        rows,
                        start,
                    ) by {
                        last_is_group_end(rows, at, group, last);
                        cursor_at_row(rows, group_end(rows, at + 1, group) - 1);
                        assert(PageView { after: Some(last), ..next }.count() == n + 1);
                    }
                },
                None => {
                    cursor_at_row(rows, at);
                },
            }
        }
    } else {
        assert(rest.len() == 0);
    }
}

/// A page that has seen no row is on course from its cursor.
pub proof fn page_begins_on_course(page: PageView, rows: Seq<StoredObjectView>)
    requires
        page.common_prefixes == Seq::<Seq<char>>::empty(),
        page.objects == Seq::<ObjectMetaView>::empty(),
    ensures
        on_course(page, rows, cursor(rows, page.after)),
{
    let all = entries(rows, cursor(rows, page.after), page.prefix, page.delimiter);
    assert(all.take(0) =~= Seq::<Entry>::empty());
}

/// The entries of one page past a cursor.
pub open spec fn page_entries(
    rows: Seq<StoredObjectView>,
    prefix: Seq<char>,
    delimiter: Option<Seq<char>>,
    limit: nat,
    after: Option<Seq<char>>,
) -> Seq<Entry> {
    let all = entries(rows, cursor(rows, after), prefix, delimiter);
    if all.len() <= limit {
        all
    } else {
        all.take(limit as int)
    }
}

/// The token of one page past a cursor: the last key that the page covers, where
/// entries remain.
pub open spec fn token_of(
    rows: Seq<StoredObjectView>,
    prefix: Seq<char>,
    delimiter: Option<Seq<char>>,
    limit: nat,
    after: Option<Seq<char>>,
) -> Option<Seq<char>> {
    let start = cursor(rows, after);
    if entries(rows, start, prefix, delimiter).len() <= limit {
        None
    } else {
        Some(rows[covered(rows, start, prefix, delimiter, limit) - 1].key)
    }
}

/// The entries of all pages past a cursor, each page read past the token of the
/// one before, for at most `pages` pages.
pub open spec fn walk(
    rows: Seq<StoredObjectView>,
    prefix: Seq<char>,
    delimiter: Option<Seq<char>>,
    limit: nat,
    after: Option<Seq<char>>,
    pages: nat,
) -> Seq<Entry>
    decreases pages,
{
    let page = page_entries(rows, prefix, delimiter, limit, after);
    match token_of(rows, prefix, delimiter, limit, after) {
        None => page,
        Some(token) => if pages == 0 {
            page
        } else {
            page + walk(rows, prefix, delimiter, limit, Some(token), (pages - 1) as nat)
        },
    }
}

/// The token of a page in the course of a listing is the one that the walk uses.
pub proof fn page_ends_at_its_token(
    page: PageView,
    rows: Seq<StoredObjectView>,
    after: Option<Seq<char>>,
    reply: Option<StoredObjectView>,
)
    requires
        sorted(rows),
        page.wf(),
        page.limit > 0,
        on_course(page, rows, cursor(rows, after)),
        page.count() > 0 ==> exists|i: int|
            0 <= i < rows.len() && page.after == Some(#[trigger] rows[i].key),
        is_next(rows, page.prefix, page.after, reply),
        accepted(page, reply).1 is Done,
    ensures
        accepted(page, reply).1->page_token == token_of(
            rows,
            page.prefix,
            page.delimiter,
            page.limit,
            after,
        ),
        page.objects == listed_objects(
            page_entries(rows, page.prefix, page.delimiter, page.limit, after),
        ),
        page.common_prefixes == listed_groups(
            page_entries(rows, page.prefix, page.delimiter, page.limit, after),
        ),
{
    cursor_bounds(rows, 0, after);
    let start = cursor(rows, after);
    page_stays_on_course(page, rows, start, reply);
    let all = entries(rows, start, page.prefix, page.delimiter);
    assert(all.take(all.len() as int) =~= all);
    match accepted(page, reply).1->page_token {
        Some(token) => {
            let i = choose|i: int| 0 <= i < rows.len() && page.after == Some(#[trigger] rows[i].key);
            cursor_at_row(rows, i);
        },
        None => {},
    }
}

/// Pages of any size above nothing, each read past the token of the one before,
/// add up to the whole listing: nothing is left out and nothing comes twice.
pub proof fn pages_add_up(
    rows: Seq<StoredObjectView>,
    prefix: Seq<char>,
    delimiter: Option<Seq<char>>,
    limit: nat,
    after: Option<Seq<char>>,
    pages: nat,
)
    requires
        sorted(rows),
        limit > 0,
        pages >= rows.len() - cursor(rows, after),
    ensures
        walk(rows, prefix, delimiter, limit, after, pages) == entries(
            rows,
            cursor(rows, after),
            prefix,
            delimiter,
        ),
    decreases pages,
{
    cursor_bounds(rows, 0, after);
    let start = cursor(rows, after);
    let all = entries(rows, start, prefix, delimiter);
    if all.len() > limit {
        covered_splits(rows, start, prefix, delimiter, limit);
        let end = covered(rows, start, prefix, delimiter, limit);
        cursor_at_row(rows, end - 1);
        pages_add_up(rows, prefix, delimiter, limit, Some(rows[end - 1].key), (pages - 1) as nat);
        assert(all.take(limit as int) + all.skip(limit as int) =~= all);
    }
}

/// The objects and groups of two runs of entries are those of the first and behind
/// them those of the second.
pub proof fn listed_runs_add_up(first: Seq<Entry>, second: Seq<Entry>)
    ensures
        listed_objects(first + second) == listed_objects(first) + listed_objects(second),
        listed_groups(first + second) == listed_groups(first) + listed_groups(second),
    decreases second.len(),
{
    if second.len() == 0 {
        assert(first + second =~= first);
    } else {
        listed_runs_add_up(first, second.drop_last());
        assert((first + second).drop_last() =~= first + second.drop_last());
    }
}

/// The row that opens an entry of a listing.
pub open spec fn opener(
    rows: Seq<StoredObjectView>,
    from: int,
    prefix: Seq<char>,
    delimiter: Option<Seq<char>>,
    n: nat,
) -> int {
    next_match(rows, covered(rows, from, prefix, delimiter, n), prefix)
}

/// Every entry of a listing stands for rows of the snapshot: the row that opens
/// it has the prefix, and is the object listed or the first one of the group.
pub proof fn listing_is_sound(
    rows: Seq<StoredObjectView>,
    from: int,
    prefix: Seq<char>,
    delimiter: Option<Seq<char>>,
    n: nat,
)
    requires
        0 <= from <= rows.len(),
        n < entries(rows, from, prefix, delimiter).len(),
    ensures
        from <= opener(rows, from, prefix, delimiter, n) < rows.len(),
        starts_with(rows[opener(rows, from, prefix, delimiter, n)].key, prefix),
        entries(rows, from, prefix, delimiter)[n as int] == entry_of(
            rows[opener(rows, from, prefix, delimiter, n)],
            prefix,
            delimiter,
        ),
{
    let all = entries(rows, from, prefix, delimiter);
    covered_splits(rows, from, prefix, delimiter, n);
    let start = covered(rows, from, prefix, delimiter, n);
    next_match_bounds(rows, start, prefix);
    assert(all.skip(n as int)[0] == all[n as int]);
}

/// The text by which an entry is ordered.
pub open spec fn entry_text(entry: Entry) -> Seq<char> {
    match entry {
        Entry::Object(row) => row.key,
        Entry::Group(group) => group,
    }
}

/// A text that leaves another behind at some character, or ends inside it.
proof fn prefix_of_later(group: Seq<char>, earlier: Seq<char>, later: Seq<char>, p: Seq<char>)
    requires
        starts_with(earlier, group),
        before(earlier, later),
        !starts_with(later, group),
        starts_with(later, p),
    ensures
        before(group, p) || starts_with(group, p),
    decreases group.len(),
{
    if p.len() == 0 {
        assert(group.take(0) =~= p);
    } else if group.len() == 0 {
        assert(later.take(0) =~= group);
    } else {
        assert(earlier.take(group.len() as int)[0] == group[0]);
        assert(later.take(p.len() as int)[0] == p[0]);
        if earlier.len() > 0 && later.len() > 0 && earlier[0] == later[0] {
            let g = group.skip(1);
            let e = earlier.skip(1);
            let l = later.skip(1);
            let q = p.skip(1);
            assert(e.take(g.len() as int) =~= earlier.take(group.len() as int).skip(1));
            assert(l.take(q.len() as int) =~= later.take(p.len() as int).skip(1));
            if starts_with(l, g) {
                assert(later.take(group.len() as int) =~= seq![later[0]] + l.take(g.len() as int));
                assert(group =~= seq![group[0]] + g);
            }
            prefix_of_later(g, e, l, q);
            if starts_with(g, q) {
                assert(group.take(p.len() as int) =~= seq![group[0]] + g.take(q.len() as int));
                assert(p =~= seq![p[0]] + q);
            }
        }
    }
}

/// Of two beginnings of one text, the shorter comes first.
proof fn shorter_prefix_first(text: Seq<char>, a: Seq<char>, b: Seq<char>)
    requires
        starts_with(text, a),
        starts_with(text, b),
        !starts_with(a, b),
    ensures
        before(a, b),
    decreases a.len(),
{
    if b.len() == 0 {
        assert(a.take(0) =~= b);
    } else if a.len() > 0 {
        assert(text.take(a.len() as int)[0] == a[0]);
        assert(text.take(b.len() as int)[0] == b[0]);
        let t = text.skip(1);
        assert(t.take(a.len() - 1) =~= text.take(a.len() as int).skip(1));
        assert(t.take(b.len() - 1) =~= text.take(b.len() as int).skip(1));
        if starts_with(a.skip(1), b.skip(1)) {
            assert(a.take(b.len() as int) =~= seq![a[0]] + a.skip(1).take(b.len() - 1));
            assert(b =~= seq![b[0]] + b.skip(1));
        }
        shorter_prefix_first(t, a.skip(1), b.skip(1));
    }
}

/// A key under another key's group has that group too.
proof fn group_is_shared(
    key: Seq<char>,
    other: Seq<char>,
    prefix: Seq<char>,
    delimiter: Option<Seq<char>>,
)
    requires
        starts_with(key, prefix),
        starts_with(other, prefix),
        group_of(key, prefix, delimiter) is Some,
        starts_with(other, group_of(key, prefix, delimiter).unwrap()),
    ensures
        group_of(other, prefix, delimiter) == group_of(key, prefix, delimiter),
{
    let d = delimiter.unwrap();
    let group = group_of(key, prefix, delimiter).unwrap();
    let from = prefix.len() as int;
    find_is_first(key, d, from);
    find_is_first(other, d, from);
    let at = find_from(key, d, from).unwrap();
    let end = at + d.len();
    assert(other.take(end) == key.take(end));
    assert forall|i: int| 0 <= i < end implies other[i] == #[trigger] key[i] by {
        assert(other.take(end)[i] == key.take(end)[i]);
    }
    assert(occurs_at(other, d, at)) by {
        assert(other.subrange(at, end) =~= key.subrange(at, end));
    }
    let first = find_from(other, d, from).unwrap();
    if first < at {
        assert(key.subrange(first, first + d.len()) =~= other.subrange(first, first + d.len()));
        assert(occurs_at(key, d, first));
    }
}

/// An entry comes before every entry opened behind it.
proof fn entry_before_later(
    rows: Seq<StoredObjectView>,
    at: int,
    later: int,
    prefix: Seq<char>,
    delimiter: Option<Seq<char>>,
)
    requires
        sorted(rows),
        0 <= at < rows.len(),
        entry_end(rows, at, prefix, delimiter) <= later < rows.len(),
        starts_with(rows[at].key, prefix),
        starts_with(rows[later].key, prefix),
    ensures
        before(
            entry_text(entry_of(rows[at], prefix, delimiter)),
            entry_text(entry_of(rows[later], prefix, delimiter)),
        ),
{
    let a = rows[at].key;
    let b = rows[later].key;
    entry_end_bounds(rows, at, prefix, delimiter);
    assert(before(a, b));
    assert(a.take(a.len() as int) =~= a);
    assert(b.take(b.len() as int) =~= b);
    if group_of(b, prefix, delimiter) is Some {
        key_begins_with_group(b, prefix, delimiter);
    }
    match group_of(a, prefix, delimiter) {
        Some(group) => {
            key_begins_with_group(a, prefix, delimiter);
            group_is_contiguous(rows, at, group, later);
            match group_of(b, prefix, delimiter) {
                Some(other) => {
                    prefix_of_later(group, a, b, other);
                    if starts_with(group, other) {
                        assert(a.take(other.len() as int) =~= group.take(other.len() as int)) by {
                            assert(a.take(group.len() as int) == group);
                        }
                        group_is_shared(b, a, prefix, delimiter);
                    }
                },
                None => {
                    prefix_of_later(group, a, b, b);
                    if starts_with(group, b) {
                        assert(a.take(b.len() as int) =~= group.take(b.len() as int)) by {
                            assert(a.take(group.len() as int) == group);
                        }
                        prefix_is_not_after(a, b);
                    }
                },
            }
        },
        None => match group_of(b, prefix, delimiter) {
            Some(other) => {
                if starts_with(a, other) {
                    group_is_shared(b, a, prefix, delimiter);
                }
                if starts_with(b, a) {
                    shorter_prefix_first(b, a, other);
                } else {
                    prefix_of_later(a, a, b, other);
                }
            },
            None => {},
        },
    }
}

/// A listing is in strict order: no entry comes twice.
pub proof fn listing_is_ordered(
    rows: Seq<StoredObjectView>,
    from: int,
    prefix: Seq<char>,
    delimiter: Option<Seq<char>>,
    m: nat,
    n: nat,
)
    requires
        sorted(rows),
        0 <= from <= rows.len(),
        m < n < entries(rows, from, prefix, delimiter).len(),
    ensures
        before(
            entry_text(entries(rows, from, prefix, delimiter)[m as int]),
            entry_text(entries(rows, from, prefix, delimiter)[n as int]),
        ),
{
    let all = entries(rows, from, prefix, delimiter);
    listing_is_sound(rows, from, prefix, delimiter, m);
    covered_splits(rows, from, prefix, delimiter, m + 1);
    covered_one_more(rows, from, prefix, delimiter, m);
    let start = covered(rows, from, prefix, delimiter, m + 1);
    assert(all.skip(m as int + 1)[n - (m + 1)] == all[n as int]);
    listing_is_sound(rows, start, prefix, delimiter, (n - (m + 1)) as nat);
    entry_before_later(
        rows,
        opener(rows, from, prefix, delimiter, m),
        opener(rows, start, prefix, delimiter, (n - (m + 1)) as nat),
        prefix,
        delimiter,
    );
}

/// The entry stands for the row.
pub open spec fn covers(
    entry: Entry,
    row: StoredObjectView,
    prefix: Seq<char>,
    delimiter: Option<Seq<char>>,
) -> bool {
    entry == entry_of(row, prefix, delimiter)
}

/// Every row with the prefix is in the listing: as an object, or under the group
/// that its key has.
pub proof fn listing_is_complete(
    rows: Seq<StoredObjectView>,
    from: int,
    prefix: Seq<char>,
    delimiter: Option<Seq<char>>,
    i: int,
)
    requires
        sorted(rows),
        0 <= from <= i < rows.len(),
        starts_with(rows[i].key, prefix),
    ensures
        exists|n: int|
            0 <= n < entries(rows, from, prefix, delimiter).len() && covers(
                #[trigger] entries(rows, from, prefix, delimiter)[n],
                rows[i],
                prefix,
                delimiter,
            ),
    decreases rows.len() - from,
{
    let all = entries(rows, from, prefix, delimiter);
    next_match_bounds(rows, from, prefix);
    let at = next_match(rows, from, prefix);
    entry_end_bounds(rows, at, prefix, delimiter);
    let next = entry_end(rows, at, prefix, delimiter);
    if i == at {
        assert(covers(all[0], rows[i], prefix, delimiter));
    } else if i < next {
        let group = group_of(rows[at].key, prefix, delimiter).unwrap();
        key_begins_with_group(rows[at].key, prefix, delimiter);
        group_is_contiguous(rows, at, group, i);
        group_is_shared(rows[at].key, rows[i].key, prefix, delimiter);
        assert(covers(all[0], rows[i], prefix, delimiter));
    } else {
        listing_is_complete(rows, next, prefix, delimiter, i);
        let rest = entries(rows, next, prefix, delimiter);
        let n = choose|n: int|
            0 <= n < rest.len() && covers(#[trigger] rest[n], rows[i], prefix, delimiter);
        assert(all[n + 1] == rest[n]);
        assert(covers(all[n + 1], rows[i], prefix, delimiter));
    }
}

/// A row that the cursor has not passed is in the next page, as an object or
/// under its group, or the page has a token that the row lies past: a key that
/// stays is listed, whatever else comes and goes.
pub proof fn stable_key_is_paged_or_ahead(
    rows: Seq<StoredObjectView>,
    prefix: Seq<char>,
    delimiter: Option<Seq<char>>,
    limit: nat,
    after: Option<Seq<char>>,
    i: int,
)
    requires
        sorted(rows),
        limit > 0,
        0 <= i < rows.len(),
        starts_with(rows[i].key, prefix),
        past(after, rows[i].key),
    ensures
        page_entries(rows, prefix, delimiter, limit, after).contains(
            entry_of(rows[i], prefix, delimiter),
        ) || (token_of(rows, prefix, delimiter, limit, after) is Some && past(
            token_of(rows, prefix, delimiter, limit, after),
            rows[i].key,
        )),
{
    cursor_bounds(rows, 0, after);
    let start = cursor(rows, after);
    let all = entries(rows, start, prefix, delimiter);
    if all.len() <= limit {
        listing_is_complete(rows, start, prefix, delimiter, i);
    } else {
        covered_splits(rows, start, prefix, delimiter, limit);
        let end = covered(rows, start, prefix, delimiter, limit);
        let token = Some(rows[end - 1].key);
        cursor_at_row(rows, end - 1);
        cursor_bounds(rows, 0, token);
        if i < end {
            let n = covered_holds(rows, start, prefix, delimiter, limit, i);
            assert(page_entries(rows, prefix, delimiter, limit, after)[n as int] == all[n as int]);
        } else {
            assert(past(token, rows[i].key));
        }
    }
}

/// A row before the end of the first `n` entries is under one of them.
proof fn covered_holds(
    rows: Seq<StoredObjectView>,
    from: int,
    prefix: Seq<char>,
    delimiter: Option<Seq<char>>,
    n: nat,
    i: int,
) -> (m: nat)
    requires
        sorted(rows),
        0 <= from <= i < rows.len(),
        starts_with(rows[i].key, prefix),
        n <= entries(rows, from, prefix, delimiter).len(),
        i < covered(rows, from, prefix, delimiter, n),
    ensures
        m < n,
        entries(rows, from, prefix, delimiter)[m as int] == entry_of(rows[i], prefix, delimiter),
    decreases n,
{
    let all = entries(rows, from, prefix, delimiter);
    next_match_bounds(rows, from, prefix);
    let at = next_match(rows, from, prefix);
    entry_end_bounds(rows, at, prefix, delimiter);
    let next = entry_end(rows, at, prefix, delimiter);
    if i < next {
        if i > at {
            let group = group_of(rows[at].key, prefix, delimiter).unwrap();
            key_begins_with_group(rows[at].key, prefix, delimiter);
            group_is_contiguous(rows, at, group, i);
            group_is_shared(rows[at].key, rows[i].key, prefix, delimiter);
        }
        0
    } else {
        let m = covered_holds(rows, next, prefix, delimiter, (n - 1) as nat, i);
        assert(all[m as int + 1] == entries(rows, next, prefix, delimiter)[m as int]);
        m + 1
    }
}

} // verus!
