//! Whole listings: a stream of batches, and a directory gathered from pages.
use crate::error::StoreError;
use crate::listing::{directory_prefix, directory_text, metadata_page, past, text_of, KeyQuery};
use crate::object::{
    meta_of, object_meta, refuses_path, ObjectMeta, ObjectMetaView, StoredObject, StoredObjectView,
};
use crate::page::{meta_views, PageOptions};
use crate::page_laws::{
    covered, covered_splits, cursor, cursor_at_row, cursor_bounds, entries, listed_groups,
    listed_objects, listed_runs_add_up, next_match, next_match_bounds, page_entries, sorted,
    token_of, Entry,
};
use crate::text::{before, starts_with, views};
use vstd::prelude::*;

verus! {

/// How many rows a listing asks for at once.
pub const LIST_BATCH: usize = 128;

/// Stored objects, as views.
pub open spec fn object_views(objects: Seq<StoredObject>) -> Seq<StoredObjectView> {
    objects.map_values(|o: StoredObject| o@)
}

/// A listing that is read batch by batch.
#[derive(Debug)]
pub struct ListStream {
    pub prefix: String,
    pub after: Option<String>,
    pub done: bool,
}

/// Every object of the batch has a canonical path.
pub open spec fn all_listable(batch: Seq<StoredObjectView>) -> bool {
    forall|i: int| 0 <= i < batch.len() ==> meta_of(#[trigger] batch[i]) is Some
}

/// What readers are told of a batch.
pub open spec fn batch_metas(batch: Seq<StoredObjectView>) -> Seq<ObjectMetaView> {
    batch.map_values(|o: StoredObjectView| meta_of(o).unwrap())
}

impl ListStream {
    /// The objects under a directory whose keys come after `after`.
    pub fn new(prefix: Option<&str>, after: Option<String>) -> (stream: ListStream)
        ensures
            prefix is None ==> stream.prefix@ == directory_text(None),
            prefix matches Some(path) ==> stream.prefix@ == directory_text(Some(path@)),
            stream.after == after,
            !stream.done,
    {
        ListStream { prefix: directory_prefix(prefix), after, done: false }
    }

    /// The read that gives the next batch; none at the end of the stream.
    pub fn query(&self) -> (query: Option<KeyQuery>)
        ensures
            query is None <==> self.done,
            query matches Some(query) ==> query.limit == LIST_BATCH && forall|key: Seq<char>|
                #[trigger]
                query.selects(key) <==> starts_with(key, self.prefix@) && past(
                    text_of(self.after),
                    key,
                ),
    {
        if self.done {
            return None;
        }
        let after = match &self.after {
            Some(after) => Some(after.as_str()),
            None => None,
        };
        Some(metadata_page(self.prefix.as_str(), after, LIST_BATCH))
    }

    /// Takes a batch and hands out its objects. A batch that is not full is the
    /// last one, and so is one with a path that cannot be told.
    pub fn accept(&mut self, batch: Vec<StoredObject>) -> (metas: Result<Vec<ObjectMeta>, StoreError>)
        ensures
            final(self).prefix == old(self).prefix,
            metas is Ok <==> all_listable(object_views(batch@)),
            metas matches Ok(metas) ==> {
                &&& meta_views(metas@) == batch_metas(object_views(batch@))
                &&& final(self).done == (batch@.len() < LIST_BATCH)
                &&& text_of(final(self).after) == if batch@.len() > 0 {
                    Some(batch@.last()@.key)
                } else {
                    None
                }
            },
            metas matches Err(error) ==> final(self).done && exists|i: int|
                {
                    &&& 0 <= i < batch@.len()
                    &&& all_listable(object_views(batch@).take(i))
                    &&& meta_of((#[trigger] batch@[i])@) is None
                    &&& refuses_path(error, batch@[i]@.key)
                },
    {
        let mut metas: Vec<ObjectMeta> = Vec::new();
        let mut i: usize = 0;
        while i < batch.len()
            invariant
                0 <= i <= batch@.len(),
                metas@.len() == i,
                self.prefix == old(self).prefix,
                forall|j: int|
                    0 <= j < i ==> meta_of((#[trigger] batch@[j])@) == Some(metas@[j]@),
            decreases batch@.len() - i,
        {
            match object_meta(&batch[i]) {
                Ok(meta) => metas.push(meta),
                Err(error) => {
                    self.done = true;
                    proof {
                        let seen = object_views(batch@).take(i as int);
                        assert forall|j: int| 0 <= j < seen.len() implies meta_of(
                            #[trigger] seen[j],
                        ) is Some by {
                            assert(meta_of(batch@[j]@) == Some(metas@[j]@));
                        }
                        assert(meta_of(object_views(batch@)[i as int]) is None);
                        assert(meta_of(batch@[i as int]@) is None);
                    }
                    return Err(error);
                },
            }
            i = i + 1;
        }
        self.done = batch.len() < LIST_BATCH;
        self.after = if batch.len() > 0 {
            Some(batch[batch.len() - 1].key.clone())
        } else {
            None
        };
        proof {
            let all = object_views(batch@);
            assert forall|j: int| 0 <= j < all.len() implies meta_of(#[trigger] all[j]) is Some by {
                assert(meta_of(batch@[j]@) == Some(metas@[j]@));
            }
            assert(meta_views(metas@) =~= batch_metas(all)) by {
                assert forall|j: int| 0 <= j < all.len() implies meta_views(metas@)[j]
                    == batch_metas(all)[j] by {
                    assert(meta_of(batch@[j]@) == Some(metas@[j]@));
                }
            }
        }
        Ok(metas)
    }
}

/// A directory gathered page by page.
#[derive(Debug)]
pub struct DirectoryListing {
    pub prefix: String,
    pub page_token: Option<String>,
    pub done: bool,
    pub common_prefixes: Vec<String>,
    pub objects: Vec<ObjectMeta>,
}

/// A directory as far as it has been gathered, as plain values.
#[verifier::ext_equal]
pub struct DirectoryView {
    pub prefix: Seq<char>,
    pub page_token: Option<Seq<char>>,
    pub done: bool,
    pub common_prefixes: Seq<Seq<char>>,
    pub objects: Seq<ObjectMetaView>,
}

impl View for DirectoryListing {
    type V = DirectoryView;

    open spec fn view(&self) -> DirectoryView {
        DirectoryView {
            prefix: self.prefix@,
            page_token: text_of(self.page_token),
            done: self.done,
            common_prefixes: views(self.common_prefixes@),
            objects: meta_views(self.objects@),
        }
    }
}

/// A directory of which nothing has been read.
pub open spec fn unread(prefix: Seq<char>) -> DirectoryView {
    DirectoryView {
        prefix,
        page_token: None,
        done: false,
        common_prefixes: Seq::empty(),
        objects: Seq::empty(),
    }
}

/// A directory with one more page, which is the last one where it has no token.
pub open spec fn with_page(
    directory: DirectoryView,
    common_prefixes: Seq<Seq<char>>,
    objects: Seq<ObjectMetaView>,
    page_token: Option<Seq<char>>,
) -> DirectoryView {
    DirectoryView {
        page_token,
        done: page_token is None,
        common_prefixes: directory.common_prefixes + common_prefixes,
        objects: directory.objects + objects,
        ..directory
    }
}

impl DirectoryListing {
    /// A directory of which nothing has been read.
    pub fn new(prefix: Option<&str>) -> (listing: DirectoryListing)
        ensures
            prefix is None ==> listing@ == unread(directory_text(None)),
            prefix matches Some(path) ==> listing@ == unread(directory_text(Some(path@))),
    {
        let listing = DirectoryListing {
            prefix: directory_prefix(prefix),
            page_token: None,
            done: false,
            common_prefixes: Vec::new(),
            objects: Vec::new(),
        };
        assert(listing@ =~= unread(listing.prefix@));
        listing
    }

    /// What to ask of the next page; nothing once the directory is complete.
    pub fn next_page(&self) -> (options: Option<PageOptions>)
        ensures
            options is None <==> self.done,
            options matches Some(options) ==> {
                &&& options.offset is None
                &&& text_of(options.delimiter) == slash()
                &&& options.max_keys == Some(LIST_BATCH)
                &&& text_of(options.page_token) == text_of(self.page_token)
            },
    {
        if self.done {
            return None;
        }
        let page_token = match &self.page_token {
            Some(token) => Some(token.clone()),
            None => None,
        };
        Some(
            PageOptions {
                offset: None,
                delimiter: Some("/".to_owned()),
                max_keys: Some(LIST_BATCH),
                page_token,
            },
        )
    }

    /// Takes a page. The directory is complete with the first page that has no
    /// token.
    pub fn accept(
        &mut self,
        common_prefixes: Vec<String>,
        objects: Vec<ObjectMeta>,
        page_token: Option<String>,
    )
        ensures
            final(self)@ == with_page(
                old(self)@,
                views(common_prefixes@),
                meta_views(objects@),
                text_of(page_token),
            ),
            final(self).common_prefixes@ == old(self).common_prefixes@ + common_prefixes@,
            final(self).objects@ == old(self).objects@ + objects@,
    {
        let ghost groups = common_prefixes@;
        let ghost listed = objects@;
        let mut common_prefixes = common_prefixes;
        let mut objects = objects;
        self.common_prefixes.append(&mut common_prefixes);
        self.objects.append(&mut objects);
        self.done = page_token.is_none();
        self.page_token = page_token;
        assert(views(self.common_prefixes@) =~= views(old(self).common_prefixes@) + views(groups));
        assert(meta_views(self.objects@) =~= meta_views(old(self).objects@) + meta_views(listed));
    }
}

/// The delimiter of directories.
pub open spec fn slash() -> Option<Seq<char>> {
    Some("/"@)
}

/// A directory after at most so many pages of a snapshot, each asked for as
/// `next_page` says and taken as `accept` does.
pub open spec fn directory_after(
    rows: Seq<StoredObjectView>,
    prefix: Seq<char>,
    pages: nat,
) -> DirectoryView
    decreases pages,
{
    if pages == 0 {
        unread(prefix)
    } else {
        let directory = directory_after(rows, prefix, (pages - 1) as nat);
        if directory.done {
            directory
        } else {
            let after = directory.page_token;
            let page = page_entries(rows, prefix, slash(), LIST_BATCH as nat, after);
            with_page(
                directory,
                listed_groups(page),
                listed_objects(page),
                token_of(rows, prefix, slash(), LIST_BATCH as nat, after),
            )
        }
    }
}

/// What a directory holds after some pages is what its first `n` entries are; the
/// other entries lie past its token.
proof fn directory_on_course(rows: Seq<StoredObjectView>, prefix: Seq<char>, pages: nat) -> (n: int)
    requires
        sorted(rows),
    ensures
        ({
            let directory = directory_after(rows, prefix, pages);
            let all = entries(rows, 0, prefix, slash());
            &&& 0 <= n <= all.len()
            &&& directory.prefix == prefix
            &&& directory.objects == listed_objects(all.take(n))
            &&& directory.common_prefixes == listed_groups(all.take(n))
            &&& directory.done ==> n == all.len()
            &&& !directory.done ==> {
                &&& pages <= cursor(rows, directory.page_token)
                &&& entries(rows, cursor(rows, directory.page_token), prefix, slash()) == all.skip(n)
            }
        }),
    decreases pages,
{
    let all = entries(rows, 0, prefix, slash());
    if pages == 0 {
        assert(all.take(0) =~= Seq::<Entry>::empty());
        assert(all.skip(0) =~= all);
        0
    } else {
        let directory = directory_after(rows, prefix, (pages - 1) as nat);
        let n = directory_on_course(rows, prefix, (pages - 1) as nat);
        if directory.done {
            n
        } else {
            let limit = LIST_BATCH as nat;
            let after = directory.page_token;
            let start = cursor(rows, after);
            let rest = entries(rows, start, prefix, slash());
            let page = page_entries(rows, prefix, slash(), limit, after);
            cursor_bounds(rows, 0, after);
            listed_runs_add_up(all.take(n), page);
            assert(all.take(n) + page =~= all.take(n + page.len()));
            if rest.len() > limit {
                covered_splits(rows, start, prefix, slash(), limit);
                let end = covered(rows, start, prefix, slash(), limit);
                cursor_at_row(rows, end - 1);
                assert(rest.skip(limit as int) =~= all.skip(n + limit));
            }
            n + page.len()
        }
    }
}

/// A directory gathered from the pages of a snapshot comes to its end, and then holds
/// exactly the objects and the groups of the whole listing, in order: none is left
/// out, and none comes twice. A path that is not canonical fails its page, so that no
/// directory is told then.
pub proof fn directory_is_complete(rows: Seq<StoredObjectView>, prefix: Seq<char>, pages: nat)
    requires
        sorted(rows),
        pages > rows.len(),
    ensures
        directory_after(rows, prefix, pages).done,
        directory_after(rows, prefix, pages).objects == listed_objects(
            entries(rows, 0, prefix, slash()),
        ),
        directory_after(rows, prefix, pages).common_prefixes == listed_groups(
            entries(rows, 0, prefix, slash()),
        ),
{
    let directory = directory_after(rows, prefix, pages);
    let all = entries(rows, 0, prefix, slash());
    directory_on_course(rows, prefix, pages);
    cursor_bounds(rows, 0, directory.page_token);
    assert(all.take(all.len() as int) =~= all);
}

/// The rows at `from` and later whose keys begin with `prefix`, in order.
pub open spec fn matching(
    rows: Seq<StoredObjectView>,
    from: int,
    prefix: Seq<char>,
) -> Seq<StoredObjectView>
    decreases rows.len() - from,
{
    if from >= rows.len() {
        Seq::empty()
    } else if starts_with(rows[from].key, prefix) {
        seq![rows[from]] + matching(rows, from + 1, prefix)
    } else {
        matching(rows, from + 1, prefix)
    }
}

/// The first `limit` rows that a stream's query selects from a snapshot.
pub open spec fn batch_of(
    rows: Seq<StoredObjectView>,
    prefix: Seq<char>,
    after: Option<Seq<char>>,
    limit: nat,
) -> Seq<StoredObjectView> {
    let all = matching(rows, cursor(rows, after), prefix);
    if all.len() <= limit {
        all
    } else {
        all.take(limit as int)
    }
}

/// All batches past a cursor, each read past the last key of the one before,
/// for at most `batches` batches.
pub open spec fn streamed(
    rows: Seq<StoredObjectView>,
    prefix: Seq<char>,
    after: Option<Seq<char>>,
    limit: nat,
    batches: nat,
) -> Seq<StoredObjectView>
    decreases batches,
{
    let batch = batch_of(rows, prefix, after, limit);
    if batch.len() < limit || batches == 0 {
        batch
    } else {
        batch + streamed(rows, prefix, Some(batch.last().key), limit, (batches - 1) as nat)
    }
}

/// Where a matching row stands in the snapshot, and what follows it.
proof fn matching_at(rows: Seq<StoredObjectView>, from: int, prefix: Seq<char>, n: int) -> (at: int)
    requires
        0 <= from <= rows.len(),
        0 <= n < matching(rows, from, prefix).len(),
    ensures
        from <= at < rows.len(),
        matching(rows, from, prefix)[n] == rows[at],
        starts_with(rows[at].key, prefix),
        matching(rows, from, prefix).skip(n + 1) == matching(rows, at + 1, prefix),
    decreases rows.len() - from,
{
    let all = matching(rows, from, prefix);
    if starts_with(rows[from].key, prefix) {
        let rest = matching(rows, from + 1, prefix);
        if n == 0 {
            assert(all.skip(1) =~= rest);
            from
        } else {
            let at = matching_at(rows, from + 1, prefix, n - 1);
            assert(all.skip(n + 1) =~= rest.skip(n));
            at
        }
    } else {
        matching_at(rows, from + 1, prefix, n)
    }
}

/// Batches of any size above nothing, each read past the last key of the one
/// before, add up to every matching row past the cursor, in order.
pub proof fn batches_add_up(
    rows: Seq<StoredObjectView>,
    prefix: Seq<char>,
    after: Option<Seq<char>>,
    limit: nat,
    batches: nat,
)
    requires
        sorted(rows),
        limit > 0,
        batches >= rows.len() - cursor(rows, after),
    ensures
        streamed(rows, prefix, after, limit, batches) == matching(
            rows,
            cursor(rows, after),
            prefix,
        ),
    decreases batches,
{
    cursor_bounds(rows, 0, after);
    let from = cursor(rows, after);
    let all = matching(rows, from, prefix);
    let batch = batch_of(rows, prefix, after, limit);
    if batch.len() == limit {
        let at = matching_at(rows, from, prefix, limit - 1);
        assert(batch.last() == all[limit - 1]);
        cursor_at_row(rows, at);
        batches_add_up(rows, prefix, Some(batch.last().key), limit, (batches - 1) as nat);
        assert(batch + all.skip(limit as int) =~= all);
    }
}

/// Whatever happens between batches, a stream never goes back: a batch is in
/// strict order and lies past its cursor, so no key comes twice.
pub proof fn batch_moves_on(
    rows: Seq<StoredObjectView>,
    prefix: Seq<char>,
    after: Option<Seq<char>>,
    limit: nat,
    m: int,
    n: int,
)
    requires
        sorted(rows),
        0 <= m <= n < batch_of(rows, prefix, after, limit).len(),
    ensures
        starts_with(batch_of(rows, prefix, after, limit)[n].key, prefix),
        past(after, batch_of(rows, prefix, after, limit)[n].key),
        m < n ==> before(
            batch_of(rows, prefix, after, limit)[m].key,
            batch_of(rows, prefix, after, limit)[n].key,
        ),
{
    cursor_bounds(rows, 0, after);
    let from = cursor(rows, after);
    let at = matching_at(rows, from, prefix, m);
    let all = matching(rows, from, prefix);
    assert(past(after, rows[at].key));
    if m < n {
        assert(all.skip(m + 1)[n - (m + 1)] == all[n]);
        let later = matching_at(rows, at + 1, prefix, n - (m + 1));
        assert(past(after, rows[later].key));
        assert(before(rows[at].key, rows[later].key));
    }
}

/// A row that the cursor has not passed is in the next batch, or the batch is
/// full and the row lies past its last key: a key that stays is listed, whatever
/// else comes and goes.
pub proof fn stable_key_is_listed_or_ahead(
    rows: Seq<StoredObjectView>,
    prefix: Seq<char>,
    after: Option<Seq<char>>,
    limit: nat,
    i: int,
)
    requires
        sorted(rows),
        limit > 0,
        0 <= i < rows.len(),
        starts_with(rows[i].key, prefix),
        past(after, rows[i].key),
    ensures
        ({
            let batch = batch_of(rows, prefix, after, limit);
            batch.contains(rows[i]) || (batch.len() == limit && past(
                Some(batch.last().key),
                rows[i].key,
            ))
        }),
{
    cursor_bounds(rows, 0, after);
    let from = cursor(rows, after);
    let all = matching(rows, from, prefix);
    let batch = batch_of(rows, prefix, after, limit);
    let n = matching_holds(rows, from, prefix, i);
    if n < batch.len() {
        assert(batch[n] == rows[i]);
    } else {
        let last = matching_at(rows, from, prefix, limit - 1);
        assert(all.skip(limit as int)[n - limit] == all[n]);
        let at = matching_at(rows, last + 1, prefix, n - limit);
        assert(before(rows[last].key, rows[at].key));
    }
}

/// A row with the prefix is among the matching ones.
proof fn matching_holds(
    rows: Seq<StoredObjectView>,
    from: int,
    prefix: Seq<char>,
    i: int,
) -> (n: int)
    requires
        0 <= from <= i < rows.len(),
        starts_with(rows[i].key, prefix),
    ensures
        0 <= n < matching(rows, from, prefix).len(),
        matching(rows, from, prefix)[n] == rows[i],
    decreases i - from,
{
    if from == i {
        0
    } else {
        let n = matching_holds(rows, from + 1, prefix, i);
        if starts_with(rows[from].key, prefix) {
            n + 1
        } else {
            n
        }
    }
}

/// Without a delimiter a listing is every matching row, each by itself.
pub proof fn plain_listing_is_every_row(rows: Seq<StoredObjectView>, from: int, prefix: Seq<char>)
    requires
        0 <= from <= rows.len(),
    ensures
        entries(rows, from, prefix, None) == matching(rows, from, prefix).map_values(
            |row: StoredObjectView| Entry::Object(row),
        ),
    decreases rows.len() - from,
{
    let object = |row: StoredObjectView| Entry::Object(row);
    next_match_bounds(rows, from, prefix);
    if from < rows.len() {
        plain_listing_is_every_row(rows, from + 1, prefix);
        let rest = matching(rows, from + 1, prefix);
        if starts_with(rows[from].key, prefix) {
            assert(matching(rows, from, prefix).map_values(object) =~= seq![
                Entry::Object(rows[from]),
            ] + rest.map_values(object));
        } else {
            assert(next_match(rows, from, prefix) == next_match(rows, from + 1, prefix));
        }
    } else {
        assert(matching(rows, from, prefix).map_values(object) =~= Seq::<Entry>::empty());
    }
}

} // verus!
