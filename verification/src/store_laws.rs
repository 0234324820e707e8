//! What each operation of the store is for, told by the rows it reads and leaves.
use crate::attributes::{attribute_of, kind_of, name_of, AttributeView};
use crate::error::StoreError;
use crate::listing::{directory_text, past};
use crate::model::{
    content, has_parts, new_store, referenced, sizes_before, ObjectRow, Tables, ACTIVE, CHUNK_SIZE,
    FIRST_ETAG, PUBLISHED, RETIRED,
};
use crate::object::{clamped_ms, meta_of, StoredObjectView};
use crate::page::{first_page, group_of, grouping, PageOptions, DEFAULT_PAGE};
use crate::path::canonical;
use crate::read::{
    names_etag, read_range, resolved, time_at, unmet, ByteRange, CalendarTime, ReadOptions, Unmet,
    MAX_TIME_MS,
};
use crate::storage::{
    collected, copied, cutoff_at, deleted, etag_of, inline_row, is_refusal, lacks_size, reclaimable,
    refuses, stored, stored_object, PutMode, UploadFacts, FORMAT_VERSION,
};
use crate::stream::LIST_BATCH;
use crate::text::{
    before, decimal, find_from, find_is_first, index_from, is_digit, occurs_at, signed_decimal,
    space_from, split, starts_with, trimmed, views,
};
use crate::text_laws::{decimal_is_exact, signed_decimal_is_exact};
use crate::upload::{
    aborted, all_parts, begun, chunk_written, is_active, part_recorded, parts_are, published,
    size_sum, step_after, too_large, PutEvent, PutStep, MAX_PARTS,
};
use vstd::prelude::*;

verus! {

/// The time of an object is exactly its milliseconds, and none of them is lost.
pub proof fn time_is_its_milliseconds(ms: u64)
    requires
        ms <= 8_210_266_876_799_999,
    ensures
        time_at(ms).seconds * 1000 + time_at(ms).nanos / 1_000_000 == ms,
        time_at(ms).nanos % 1_000_000 == 0,
        time_at(ms).nanos < 1_000_000_000,
        time_at(ms).is_valid(),
{
}

/// What was modified later has the later time.
pub proof fn later_is_after(a: u64, b: u64)
    requires
        a <= 8_210_266_876_799_999,
        b <= 8_210_266_876_799_999,
    ensures
        a < b <==> time_at(b).is_after(time_at(a)),
{
}

/// One time is after another exactly where more nanoseconds have gone by.
pub proof fn after_counts_nanoseconds(a: CalendarTime, b: CalendarTime)
    requires
        a.nanos < 1_000_000_000,
        b.nanos < 1_000_000_000,
    ensures
        a.is_after(b) <==> a.seconds * 1_000_000_000 + a.nanos > b.seconds * 1_000_000_000 + b.nanos,
{
}

/// What a reader is told of an object is what its row holds: its size, its ETag in
/// decimal, and its time, which is never told before the epoch.
pub proof fn told_is_what_is_stored(object: StoredObjectView)
    ensures
        meta_of(object) is Some <==> canonical(object.key) is Some,
        meta_of(object) matches Some(meta) ==> {
            &&& canonical(object.key) == Some(meta.location)
            &&& meta.size == object.size
            &&& meta.e_tag == signed_decimal(object.etag as int)
            &&& object.modified_ms >= 0 ==> meta.last_modified_ms as int == object.modified_ms as int
            &&& object.modified_ms < 0 ==> meta.last_modified_ms == 0
        },
        object.modified_ms >= 0 ==> clamped_ms(object.modified_ms) as int
            == object.modified_ms as int,
        object.modified_ms < 0 ==> clamped_ms(object.modified_ms) == 0,
{
}

/// What a row tells is what it holds, its size included: the stated one, or that of
/// the body of a row without one.
pub proof fn row_is_told_whole(t: Tables, key: Seq<char>)
    ensures
        stored_object(t, key) is Some <==> t.objects.contains_key(key),
        stored_object(t, key) matches Some(object) ==> {
            let row = t.objects[key];
            &&& object.key == key
            &&& object.etag == row.etag
            &&& object.modified_ms == row.modified_ms
            &&& object.attributes == row.attributes
            &&& object.content_id == row.content_id
            &&& row.size matches Some(size) ==> size >= 0 ==> object.size as int == size as int
            &&& row.size is None && row.body.len() <= u64::MAX ==> object.size as int
                == row.body.len() as int
        },
        etag_of(t, key) is Some <==> t.objects.contains_key(key),
        t.objects.contains_key(key) ==> etag_of(t, key) == Some(t.objects[key].etag),
{
}

/// A read with times for its conditions and no ETags is refused by the milliseconds
/// of the object: it is too new where it was modified after the one time, and not
/// modified where it was not modified after the other.
pub proof fn times_decide_by_milliseconds(options: ReadOptions, etag: Seq<char>, ms: u64)
    requires
        ms <= 8_210_266_876_799_999,
        options.if_match is None,
        options.if_none_match is None,
        options.if_unmodified_since matches Some(time) ==> time.nanos < 1_000_000_000,
        options.if_modified_since matches Some(time) ==> time.nanos < 1_000_000_000,
    ensures
        ({
            let modified = ms * 1_000_000;
            let too_new = options.if_unmodified_since matches Some(time) && modified > time.seconds
                * 1_000_000_000 + time.nanos;
            let known = options.if_modified_since matches Some(time) && modified <= time.seconds
                * 1_000_000_000 + time.nanos;
            &&& unmet(options, etag, time_at(ms)) == Some(Unmet::Precondition) <==> too_new
            &&& unmet(options, etag, time_at(ms)) == Some(Unmet::NotModified) <==> !too_new && known
            &&& unmet(options, etag, time_at(ms)) is None <==> !too_new && !known
        }),
{
    time_is_its_milliseconds(ms);
    match options.if_unmodified_since {
        Some(time) => after_counts_nanoseconds(time_at(ms), time),
        None => {},
    }
    match options.if_modified_since {
        Some(time) => after_counts_nanoseconds(time_at(ms), time),
        None => {},
    }
}

proof fn digits_have_no_separator(text: Seq<char>, at: int)
    requires
        text.len() > 0,
        forall|i: int| 0 <= i < text.len() ==> is_digit(#[trigger] text[i]) || text[i] == '-',
        0 <= at <= text.len(),
    ensures
        index_from(text, ',', at) == text.len(),
    decreases text.len() - at,
{
    if at < text.len() {
        assert(is_digit(text[at]) || text[at] == '-');
        digits_have_no_separator(text, at + 1);
    }
}

/// A list that is one ETag names that one and no other.
proof fn lone_etag_names_itself(etag: int, other: Seq<char>)
    ensures
        names_etag(signed_decimal(etag), signed_decimal(etag)),
        names_etag(signed_decimal(etag), other) ==> other == signed_decimal(etag),
{
    let text = signed_decimal(etag);
    signed_decimal_is_exact(etag);
    let digits = if etag < 0 {
        decimal((-etag) as nat)
    } else {
        decimal(etag as nat)
    };
    if etag < 0 {
        decimal_is_exact((-etag) as nat);
    } else {
        decimal_is_exact(etag as nat);
    }
    assert forall|i: int| 0 <= i < text.len() implies is_digit(#[trigger] text[i]) || text[i]
        == '-' by {
        if etag < 0 {
            if i > 0 {
                assert(text.skip(1)[i - 1] == digits[i - 1]);
                assert(is_digit(digits[i - 1]));
            }
        } else {
            assert(is_digit(digits[i]));
        }
    }
    digits_have_no_separator(text, 0);
    assert(split(text, ',') =~= seq![text]);
    assert(is_digit(text[0]) || text[0] == '-');
    assert(is_digit(text[text.len() - 1]) || text[text.len() - 1] == '-');
    assert(space_from(text, false, 0) == 0);
    assert(text.skip(0) =~= text);
    assert(trimmed(text) == text);
    assert(trimmed(split(text, ',')[0]) == text);
    assert(text != "*"@) by {
        reveal_strlit("*");
        assert("*"@.len() == 1);
        if text == "*"@ {
            assert(text[0] == '*');
        }
    }
}

/// The ETag that a reader was told opens a read of that version and no other, and
/// tells apart the version that the reader already has.
pub proof fn told_etag_decides(
    options: ReadOptions,
    list: String,
    told: i64,
    etag: i64,
    modified: CalendarTime,
)
    requires
        list@ == signed_decimal(told as int),
    ensures
        options.if_match == Some(list) && options.if_none_match is None
            && options.if_modified_since is None ==> (unmet(
            options,
            signed_decimal(etag as int),
            modified,
        ) is None <==> told == etag),
        options.if_match is None && options.if_unmodified_since is None && options.if_none_match
            == Some(list) ==> (unmet(options, signed_decimal(etag as int), modified) is None <==> told
            != etag),
        options.if_match is None && options.if_none_match is None && options.if_modified_since is None
            && options.if_unmodified_since is None ==> unmet(
            options,
            signed_decimal(etag as int),
            modified,
        ) is None,
{
    lone_etag_names_itself(told as int, signed_decimal(etag as int));
    if signed_decimal(told as int) == signed_decimal(etag as int) {
        crate::text::decimals_differ(told as int, etag as int);
    }
}

/// A read without a range is of the whole object. A range within the object stands
/// for itself, one that ends behind it for the rest of it, and no range for bytes
/// that the object has not.
pub proof fn ranges_lie_in_the_object(options: ReadOptions, size: u64, start: u64, end: u64, n: u64)
    ensures
        options.range is None ==> read_range(options, size) == Some((0u64, size)),
        options.range matches Some(range) ==> read_range(options, size) == resolved(range, size),
        read_range(options, size) matches Some((from, to)) ==> from <= to <= size,
        start < end <= size && end - start <= usize::MAX ==> resolved(
            ByteRange::Bounded(start, end),
            size,
        ) == Some((start, end)),
        start < size < end && end - start <= usize::MAX ==> resolved(
            ByteRange::Bounded(start, end),
            size,
        ) == Some((start, size)),
        end <= start || start >= size ==> resolved(ByteRange::Bounded(start, end), size) is None,
        start < size ==> resolved(ByteRange::Offset(start), size) == Some((start, size)),
        start >= size ==> resolved(ByteRange::Offset(start), size) is None,
        n <= size ==> resolved(ByteRange::Suffix(n), size) == Some(((size - n) as u64, size)),
        n > size ==> resolved(ByteRange::Suffix(n), size) == Some((0u64, size)),
{
}

/// An overwrite is never refused; a create is refused exactly over an object; an
/// update is allowed exactly over the object whose ETag it names.
pub proof fn conditions_of_a_write(wanted: String, current: Option<i64>)
    ensures
        !refuses(PutMode::Overwrite, current),
        refuses(PutMode::Create, current) <==> current is Some,
        refuses(PutMode::Update(None), current),
        !refuses(PutMode::Update(Some(wanted)), current) <==> (current matches Some(etag)
            && wanted@ == signed_decimal(etag as int)),
{
}

/// A refused create says that the object exists, and a refused update that the
/// condition failed, each for the key; an overwrite has no refusal.
pub proof fn refusals_of_a_write(error: StoreError, wanted: Option<String>, key: Seq<char>)
    ensures
        is_refusal(error, PutMode::Create, key) <==> (
        error matches StoreError::AlreadyExists { path } && path@ == key),
        is_refusal(error, PutMode::Update(wanted), key) <==> (
        error matches StoreError::Precondition { path } && path@ == key),
        !is_refusal(error, PutMode::Overwrite, key),
{
}

/// A put leaves one object more or another one: the row under the key has the body,
/// the attributes and the time of the put, the next ETag and the size of the body,
/// and every other row is as it was.
pub proof fn put_writes_one_row(
    t: Tables,
    key: Seq<char>,
    body: Seq<u8>,
    attributes: Seq<char>,
    now_ms: i64,
)
    requires
        t.next_etag < i64::MAX,
        body.len() <= i64::MAX,
    ensures
        ({
            let b = stored(t, key, inline_row(t.next_etag, body, attributes, now_ms));
            &&& b.objects.contains_key(key)
            &&& b.objects[key].body == body
            &&& b.objects[key].etag == t.next_etag
            &&& b.objects[key].attributes == attributes
            &&& b.objects[key].modified_ms == now_ms
            &&& b.objects[key].size matches Some(size) && size as int == body.len() as int
            &&& b.objects[key].content_id is None
            &&& forall|k: Seq<char>|
                k != key ==> (#[trigger] b.objects.contains_key(k) <==> t.objects.contains_key(k))
            &&& forall|k: Seq<char>|
                k != key && t.objects.contains_key(k) ==> #[trigger] b.objects[k] == t.objects[k]
            &&& b.next_etag == t.next_etag + 1
            &&& b.parts == t.parts
            &&& b.chunks == t.chunks
            &&& b.last_upload == t.last_upload
        }),
{
}

/// A copy leaves under its key what the source is, with the next ETag and the time of
/// the copy, and every other row, the source among them, as it was.
pub proof fn copy_writes_one_row(t: Tables, from: Seq<char>, to: Seq<char>, now_ms: i64)
    requires
        t.next_etag < i64::MAX,
        t.objects.contains_key(from),
    ensures
        ({
            let b = copied(t, from, to, now_ms);
            &&& b.objects.contains_key(to)
            &&& b.objects[to].body == t.objects[from].body
            &&& b.objects[to].size == t.objects[from].size
            &&& b.objects[to].content_id == t.objects[from].content_id
            &&& b.objects[to].attributes == t.objects[from].attributes
            &&& b.objects[to].etag == t.next_etag
            &&& b.objects[to].modified_ms == now_ms
            &&& forall|k: Seq<char>|
                k != to ==> (#[trigger] b.objects.contains_key(k) <==> t.objects.contains_key(k))
            &&& forall|k: Seq<char>|
                k != to && t.objects.contains_key(k) ==> #[trigger] b.objects[k] == t.objects[k]
            &&& b.next_etag == t.next_etag + 1
            &&& b.parts == t.parts
            &&& b.chunks == t.chunks
        }),
{
}

/// A delete takes the row under its key and no other, and no ETag.
pub proof fn delete_takes_one_row(t: Tables, key: Seq<char>)
    ensures
        ({
            let b = deleted(t, key);
            &&& !b.objects.contains_key(key)
            &&& forall|k: Seq<char>|
                k != key ==> (#[trigger] b.objects.contains_key(k) <==> t.objects.contains_key(k))
            &&& forall|k: Seq<char>|
                k != key && t.objects.contains_key(k) ==> #[trigger] b.objects[k] == t.objects[k]
            &&& b.next_etag == t.next_etag
            &&& b.parts == t.parts
            &&& b.chunks == t.chunks
        }),
{
}

/// The upload that an object gives up is retired exactly where no object refers to it
/// any longer; no other upload is touched.
pub proof fn replaced_upload_is_retired(t: Tables, key: Seq<char>, row: ObjectRow, id: i64)
    requires
        t.uploads.contains_key(id),
    ensures
        ({
            let b = stored(t, key, row);
            let replaced = t.objects.contains_key(key) && t.objects[key].content_id == Some(id);
            let left = exists|k: Seq<char>| #[trigger]
                b.objects.contains_key(k) && b.objects[k].content_id == Some(id);
            &&& b.uploads.contains_key(id)
            &&& b.uploads[id].touched_ms == t.uploads[id].touched_ms
            &&& b.uploads[id].state == if replaced && !left {
                2
            } else {
                t.uploads[id].state
            }
        }),
        ({
            let b = deleted(t, key);
            let replaced = t.objects.contains_key(key) && t.objects[key].content_id == Some(id);
            let left = exists|k: Seq<char>| #[trigger]
                b.objects.contains_key(k) && b.objects[k].content_id == Some(id);
            &&& b.uploads.contains_key(id)
            &&& b.uploads[id].touched_ms == t.uploads[id].touched_ms
            &&& b.uploads[id].state == if replaced && !left {
                2
            } else {
                t.uploads[id].state
            }
        }),
{
}

/// An upload begins under an id that none ever had, active and with the time of its
/// beginning; nothing else changes.
pub proof fn upload_begins_active(t: Tables, now_ms: i64)
    requires
        t.wf(),
        t.last_upload < i64::MAX,
    ensures
        ({
            let b = begun(t, now_ms);
            &&& b.last_upload == t.last_upload + 1
            &&& !t.uploads.contains_key(b.last_upload)
            &&& b.uploads.contains_key(b.last_upload)
            &&& b.uploads[b.last_upload].state == 0
            &&& b.uploads[b.last_upload].touched_ms == now_ms
            &&& forall|id: i64|
                id != b.last_upload ==> (#[trigger] b.uploads.contains_key(id)
                    <==> t.uploads.contains_key(id))
            &&& forall|id: i64|
                id != b.last_upload && t.uploads.contains_key(id) ==> #[trigger] b.uploads[id]
                    == t.uploads[id]
            &&& b.objects == t.objects
            &&& b.next_etag == t.next_etag
            &&& b.parts == t.parts
            &&& b.chunks == t.chunks
        }),
{
}

/// A chunk that is written is there with its bytes, all other chunks are as they
/// were, and the upload has the time of the write.
pub proof fn chunk_is_kept(
    t: Tables,
    id: i64,
    part: i64,
    chunk: i64,
    body: Seq<u8>,
    now_ms: i64,
    at: (i64, i64, i64),
    other: i64,
)
    requires
        t.uploads.contains_key(id),
    ensures
        ({
            let b = chunk_written(t, id, part, chunk, body, now_ms);
            &&& b.chunks.contains_key((id, part, chunk))
            &&& b.chunks[(id, part, chunk)] == body
            &&& at != (id, part, chunk) ==> (b.chunks.contains_key(at) <==> t.chunks.contains_key(at))
            &&& at != (id, part, chunk) && t.chunks.contains_key(at) ==> b.chunks[at] == t.chunks[at]
            &&& b.uploads[id].touched_ms == now_ms
            &&& b.uploads[id].state == t.uploads[id].state
            &&& b.uploads.contains_key(other) <==> t.uploads.contains_key(other)
            &&& other != id && t.uploads.contains_key(other) ==> b.uploads[other]
                == t.uploads[other]
            &&& b.objects == t.objects
            &&& b.parts == t.parts
            &&& b.next_etag == t.next_etag
            &&& b.last_upload == t.last_upload
        }),
{
}

/// A part that is recorded is there with its size, all other parts are as they were,
/// and the upload has the time of the record.
pub proof fn part_is_kept(
    t: Tables,
    id: i64,
    part: i64,
    size: i64,
    now_ms: i64,
    at: (i64, i64),
    other: i64,
)
    requires
        t.uploads.contains_key(id),
    ensures
        ({
            let b = part_recorded(t, id, part, size, now_ms);
            &&& b.parts.contains_key((id, part))
            &&& b.parts[(id, part)].size == size
            &&& at != (id, part) ==> (b.parts.contains_key(at) <==> t.parts.contains_key(at))
            &&& at != (id, part) && t.parts.contains_key(at) ==> b.parts[at] == t.parts[at]
            &&& b.uploads[id].touched_ms == now_ms
            &&& b.uploads[id].state == t.uploads[id].state
            &&& b.uploads.contains_key(other) <==> t.uploads.contains_key(other)
            &&& other != id && t.uploads.contains_key(other) ==> b.uploads[other]
                == t.uploads[other]
            &&& b.objects == t.objects
            &&& b.chunks == t.chunks
            &&& b.next_etag == t.next_etag
            &&& b.last_upload == t.last_upload
        }),
{
}

/// An abort retires an upload that is active and changes nothing else, nor anything
/// where the upload is not active.
pub proof fn abort_retires_the_active(t: Tables, id: i64, other: i64)
    ensures
        ({
            let b = aborted(t, id);
            let active = t.uploads.contains_key(id) && t.uploads[id].state == 0;
            &&& !active ==> b == t
            &&& active ==> b.uploads.contains_key(id) && b.uploads[id].state == 2
                && b.uploads[id].touched_ms == t.uploads[id].touched_ms
            &&& b.uploads.contains_key(other) <==> t.uploads.contains_key(other)
            &&& other != id && t.uploads.contains_key(other) ==> b.uploads[other]
                == t.uploads[other]
            &&& b.objects == t.objects
            &&& b.parts == t.parts
            &&& b.chunks == t.chunks
            &&& b.next_etag == t.next_etag
        }),
{
}

/// An upload may grow exactly while it is there and active.
pub proof fn active_uploads_grow(upload: Option<UploadFacts>)
    ensures
        is_active(upload) <==> (upload matches Some(facts) && facts.state == 0),
{
}

/// The sizes of the parts read from the tables add up as those in the tables do.
proof fn read_sizes_add_up(t: Tables, id: i64, sizes: Seq<(i64, i64)>, n: nat)
    requires
        parts_are(t, id, sizes),
        n <= sizes.len(),
        forall|i: int| 0 <= i < sizes.len() ==> (#[trigger] sizes[i]).0 as int == i,
    ensures
        size_sum(sizes, n) == sizes_before(t.parts, id, n),
    decreases n,
{
    if n > 0 {
        read_sizes_add_up(t, id, sizes, (n - 1) as nat);
        assert(sizes[n - 1].0 as int == n - 1);
        assert(t.parts[(id, sizes[n - 1].0)].size == sizes[n - 1].1);
    }
}

/// Some row has this number.
spec fn has_number(sizes: Seq<(i64, i64)>, part: i64) -> bool {
    exists|i: int| 0 <= i < sizes.len() && (#[trigger] sizes[i]).0 == part
}

/// Rows in order whose numbers are those below `n` are `n` rows, each under its place.
proof fn ordered_numbers_are_places(sizes: Seq<(i64, i64)>, n: nat, k: nat)
    requires
        n <= i64::MAX,
        k <= n,
        k <= sizes.len(),
        forall|i: int, j: int|
            0 <= i < j < sizes.len() ==> (#[trigger] sizes[i]).0 < (#[trigger] sizes[j]).0,
        forall|i: int| 0 <= i < sizes.len() ==> 0 <= (#[trigger] sizes[i]).0 < n,
        forall|part: i64| 0 <= part < n ==> #[trigger] has_number(sizes, part),
    ensures
        forall|i: int| 0 <= i < k ==> (#[trigger] sizes[i]).0 as int == i,
        k < n ==> k < sizes.len(),
    decreases k,
{
    if k > 0 {
        ordered_numbers_are_places(sizes, n, (k - 1) as nat);
        let part = (k - 1) as i64;
        assert(has_number(sizes, part));
        let i = choose|i: int| 0 <= i < sizes.len() && (#[trigger] sizes[i]).0 == part;
        if i > k - 1 {
            assert(sizes[k - 1].0 < sizes[i].0);
            if k >= 2 {
                assert(sizes[k - 2].0 < sizes[k - 1].0);
                assert(sizes[k - 2].0 as int == k - 2);
            }
        }
        if i < k - 1 {
            assert(sizes[i].0 as int == i);
        }
    }
    if k < n {
        let part = k as i64;
        assert(has_number(sizes, part));
        let i = choose|i: int| 0 <= i < sizes.len() && (#[trigger] sizes[i]).0 == part;
        if i < k {
            assert(sizes[i].0 as int == i);
        }
    }
}

/// The parts of an upload are all there exactly where the rows in the tables are
/// numbered from nothing up to the count without a gap, however many they are.
pub proof fn parts_are_all_there(t: Tables, id: i64, sizes: Seq<(i64, i64)>, n: nat)
    requires
        parts_are(t, id, sizes),
        n <= i64::MAX,
    ensures
        all_parts(sizes, n) <==> has_parts(t.parts, id, n),
{
    if has_parts(t.parts, id, n) {
        assert forall|i: int| 0 <= i < sizes.len() implies 0 <= (#[trigger] sizes[i]).0 < n by {
            assert(t.parts.contains_key((id, sizes[i].0)));
        }
        assert forall|part: i64| 0 <= part < n implies #[trigger] has_number(sizes, part) by {
            assert(t.parts.contains_key((id, part)));
        }
        if sizes.len() > n {
            ordered_numbers_are_places(sizes, n, n);
            assert(sizes[n as int].0 < n);
            if n > 0 {
                assert(sizes[n - 1].0 as int == n - 1);
                assert(sizes[n - 1].0 < sizes[n as int].0);
            }
        } else {
            ordered_numbers_are_places(sizes, n, sizes.len());
        }
    }
    if all_parts(sizes, n) {
        assert forall|part: i64| #[trigger] t.parts.contains_key((id, part)) <==> 0 <= part < n by {
            if 0 <= part < n {
                assert(sizes[part as int].0 == part);
            }
            if t.parts.contains_key((id, part)) {
                let i = choose|i: int| 0 <= i < sizes.len() && (#[trigger] sizes[i]).0 == part;
                assert(sizes[i].0 as int == i);
            }
        }
    }
}

proof fn sums_of_sizes_grow(t: Tables, id: i64, sizes: Seq<(i64, i64)>, m: nat, n: nat)
    requires
        parts_are(t, id, sizes),
        m <= n <= sizes.len(),
        forall|i: int| 0 <= i < sizes.len() ==> (#[trigger] sizes[i]).0 as int == i,
        forall|part: i64|
            t.parts.contains_key((id, part)) ==> (#[trigger] t.parts[(id, part)]).size >= 0,
    ensures
        0 <= sizes_before(t.parts, id, m) <= sizes_before(t.parts, id, n),
    decreases n,
{
    if n > 0 {
        assert(sizes[n - 1].0 as int == n - 1);
        assert(t.parts.contains_key((id, sizes[n - 1].0)));
        assert(t.parts[(id, (n - 1) as i64)].size >= 0);
        if m < n {
            sums_of_sizes_grow(t, id, sizes, m, (n - 1) as nat);
        } else {
            sums_of_sizes_grow(t, id, sizes, (m - 1) as nat, (n - 1) as nat);
        }
    }
}

/// A complete upload can be published, whatever the count of its parts: where the
/// rows in the tables are numbered without a gap up to the count, their sizes add up
/// within the size of an object, and an ETag is left, an overwrite meets no refusal.
pub proof fn complete_upload_is_published(
    t: Tables,
    id: i64,
    sizes: Seq<(i64, i64)>,
    n: nat,
    upload: UploadFacts,
    current: Option<i64>,
)
    requires
        has_parts(t.parts, id, n),
        parts_are(t, id, sizes),
        upload.state == 0,
        forall|part: i64|
            t.parts.contains_key((id, part)) ==> (#[trigger] t.parts[(id, part)]).size >= 0,
        sizes_before(t.parts, id, n) <= i64::MAX,
    ensures
        is_active(Some(upload)),
        all_parts(sizes, n),
        !too_large(sizes),
        !refuses(PutMode::Overwrite, current),
{
    parts_are_all_there(t, id, sizes, n);
    assert forall|k: nat| k <= sizes.len() implies i64::MIN <= #[trigger] size_sum(sizes, k)
        <= i64::MAX by {
        read_sizes_add_up(t, id, sizes, k);
        sums_of_sizes_grow(t, id, sizes, k, sizes.len());
    }
}

/// A publication puts one object under the key: its row refers to the upload, has the
/// next ETag, the attributes and the time, and as its size the sizes of the parts
/// together; the parts lie end to end, and every other object is as it was.
pub proof fn publication_writes_one_row(
    t: Tables,
    id: i64,
    sizes: Seq<(i64, i64)>,
    key: Seq<char>,
    attributes: Seq<char>,
    touched_ms: i64,
    modified_ms: i64,
    part: i64,
    other: (i64, i64),
)
    requires
        has_parts(t.parts, id, sizes.len()),
        parts_are(t, id, sizes),
        t.uploads.contains_key(id),
        t.next_etag < i64::MAX,
        !too_large(sizes),
        0 <= part < sizes.len(),
        other.0 != id,
    ensures
        ({
            let b = published(t, id, sizes, key, attributes, touched_ms, modified_ms);
            &&& b.objects.contains_key(key)
            &&& b.objects[key].content_id == Some(id)
            &&& b.objects[key].etag == t.next_etag
            &&& b.objects[key].attributes == attributes
            &&& b.objects[key].modified_ms == modified_ms
            &&& b.objects[key].size matches Some(size) && size as int == sizes_before(
                t.parts,
                id,
                sizes.len(),
            )
            &&& b.objects[key].body.len() == 0
            &&& forall|k: Seq<char>|
                k != key ==> (#[trigger] b.objects.contains_key(k) <==> t.objects.contains_key(k))
            &&& forall|k: Seq<char>|
                k != key && t.objects.contains_key(k) ==> #[trigger] b.objects[k] == t.objects[k]
            &&& b.parts.contains_key((id, part))
            &&& b.parts[(id, part)].size == t.parts[(id, part)].size
            &&& b.parts[(id, part)].offset as int == sizes_before(t.parts, id, part as nat)
            &&& b.parts.contains_key(other) <==> t.parts.contains_key(other)
            &&& t.parts.contains_key(other) ==> b.parts[other] == t.parts[other]
            &&& b.chunks == t.chunks
            &&& b.next_etag == t.next_etag + 1
            &&& b.uploads.contains_key(id)
            &&& b.uploads[id].state == 1
        }),
{
    let b = published(t, id, sizes, key, attributes, touched_ms, modified_ms);
    parts_are_all_there(t, id, sizes, sizes.len());
    read_sizes_add_up(t, id, sizes, sizes.len());
    read_sizes_add_up(t, id, sizes, part as nat);
    assert(i64::MIN <= size_sum(sizes, sizes.len()) <= i64::MAX);
    assert(i64::MIN <= size_sum(sizes, part as nat) <= i64::MAX);
    assert(t.parts.contains_key((id, part)));
    assert(b.objects.contains_key(key) && b.objects[key].content_id == Some(id));
    assert(referenced(b.objects, id));
}

/// An active upload is reclaimed once a day has gone by without progress and not
/// before; a retired one at any time; a published one never.
pub proof fn uploads_rest_for_a_day(t: Tables, id: i64, now_ms: i64)
    requires
        t.uploads.contains_key(id),
        now_ms >= i64::MIN + 86_400_000,
    ensures
        cutoff_at(now_ms) == now_ms - 86_400_000,
        t.uploads[id].state == 0 ==> (reclaimable(t, id, cutoff_at(now_ms)) <==> now_ms
            - t.uploads[id].touched_ms > 86_400_000),
        t.uploads[id].state == 2 ==> reclaimable(t, id, cutoff_at(now_ms)),
        t.uploads[id].state == 1 ==> !reclaimable(t, id, cutoff_at(now_ms)),
{
}

/// A turn of reclaiming takes nothing of an upload that may not be reclaimed, no row
/// of another upload, and no object; of one that may, at most two chunks, and the
/// upload with its parts once no other chunk is left.
pub proof fn reclaiming_takes_one_upload(
    t: Tables,
    id: i64,
    cutoff_ms: i64,
    chunks: Seq<(i64, i64)>,
    other: i64,
    part: i64,
    chunk: i64,
)
    requires
        other != id,
    ensures
        ({
            let b = collected(t, id, cutoff_ms, chunks);
            let gone = t.uploads.contains_key(id) && (t.uploads[id].state == 2 || (
            t.uploads[id].state == 0 && t.uploads[id].touched_ms < cutoff_ms));
            &&& !gone ==> b == t
            &&& b.objects == t.objects
            &&& b.next_etag == t.next_etag
            &&& b.last_upload == t.last_upload
            &&& b.uploads.contains_key(other) <==> t.uploads.contains_key(other)
            &&& t.uploads.contains_key(other) ==> b.uploads[other] == t.uploads[other]
            &&& b.parts.contains_key((other, part)) <==> t.parts.contains_key((other, part))
            &&& t.parts.contains_key((other, part)) ==> b.parts[(other, part)] == t.parts[(
                other,
                part,
            )]
            &&& b.chunks.contains_key((other, part, chunk)) <==> t.chunks.contains_key(
                (other, part, chunk),
            )
            &&& t.chunks.contains_key((other, part, chunk)) ==> b.chunks[(other, part, chunk)]
                == t.chunks[(other, part, chunk)]
            &&& gone && chunks.len() <= 2 ==> !b.uploads.contains_key(id) && !b.parts.contains_key(
                (id, part),
            )
            &&& gone && chunks.len() > 2 ==> b.uploads.contains_key(id) && b.uploads[id].state == 2
                && b.parts == t.parts
            &&& gone ==> (b.chunks.contains_key((id, part, chunk)) <==> t.chunks.contains_key(
                (id, part, chunk),
            ) && !(chunks.len() > 0 && chunks[0] == (part, chunk)) && !(chunks.len() > 1 && chunks[1]
                == (part, chunk)))
        }),
{
    let victims = if chunks.len() > 2 {
        chunks.take(2)
    } else {
        chunks
    };
    assert(chunks.len() > 0 ==> victims[0] == chunks[0]);
    assert(chunks.len() > 1 ==> victims[1] == chunks[1]);
    assert(victims.contains((part, chunk)) <==> (chunks.len() > 0 && chunks[0] == (part, chunk))
        || (chunks.len() > 1 && chunks[1] == (part, chunk))) by {
        if victims.contains((part, chunk)) {
            let i = choose|i: int| 0 <= i < victims.len() && victims[i] == (part, chunk);
        }
    }
}

/// A staged put writes the part of the upload that began, then publishes it; where
/// either fails, that upload is aborted, and only then is the put at its end.
pub proof fn staged_put_publishes_or_aborts(id: i64)
    ensures
        step_after(PutStep::Begin, PutEvent::Begun { id }) == (PutStep::WritePart { id }),
        step_after(PutStep::Begin, PutEvent::Failed) is Finish,
        step_after(PutStep::WritePart { id }, PutEvent::Done) == (PutStep::Publish { id }),
        step_after(PutStep::WritePart { id }, PutEvent::Failed) == (PutStep::Abort { id }),
        step_after(PutStep::Publish { id }, PutEvent::Done) is Finish,
        step_after(PutStep::Publish { id }, PutEvent::Failed) == (PutStep::Abort { id }),
        step_after(PutStep::Abort { id }, PutEvent::Done) is Finish,
        step_after(PutStep::Abort { id }, PutEvent::Failed) is Finish,
        step_after(PutStep::Inline, PutEvent::Done) is Finish,
        step_after(PutStep::Inline, PutEvent::Failed) is Finish,
{
}

/// A table of objects is widened exactly where none of its columns is the size.
pub proof fn tables_without_sizes_are_widened(columns: Seq<String>)
    ensures
        lacks_size(columns) <==> !views(columns).contains("size"@),
{
    if views(columns).contains("size"@) {
        let i = choose|i: int| 0 <= i < views(columns).len() && views(columns)[i] == "size"@;
        assert(columns[i]@ == "size"@);
    }
    if !lacks_size(columns) {
        let i = choose|i: int| 0 <= i < columns.len() && (#[trigger] columns[i])@ == "size"@;
        assert(views(columns)[i] == "size"@);
    }
}

/// The figures that the files of a store are laid out by.
pub proof fn figures_of_the_store()
    ensures
        CHUNK_SIZE == 1024 * 1024,
        MAX_PARTS == 10_000,
        FORMAT_VERSION == 2,
        FIRST_ETAG == 1,
        ACTIVE == 0,
        PUBLISHED == 1,
        RETIRED == 2,
        LIST_BATCH == 128,
        DEFAULT_PAGE == 1000,
        MAX_TIME_MS == 8_210_266_876_799_999,
{
}

/// A new store holds nothing, and its first number of either kind is one.
pub proof fn new_store_is_empty(key: Seq<char>, id: i64, part: i64, chunk: i64)
    ensures
        !new_store().objects.contains_key(key),
        !new_store().uploads.contains_key(id),
        !new_store().parts.contains_key((id, part)),
        !new_store().chunks.contains_key((id, part, chunk)),
        new_store().next_etag == 1,
        new_store().last_upload == 0,
{
}

/// The keys of a directory are those behind its path and a slash; the root has all.
pub proof fn directory_holds_what_is_below(path: Seq<char>, name: Seq<char>)
    ensures
        directory_text(None) == Seq::<char>::empty(),
        directory_text(Some(Seq::<char>::empty())) == Seq::<char>::empty(),
        path.len() > 0 ==> directory_text(Some(path)) == path + seq!['/'],
        path.len() > 0 ==> starts_with(path + seq!['/'] + name, directory_text(Some(path))),
        path.len() > 0 ==> !starts_with(path, directory_text(Some(path))),
{
    assert(path.push('/') =~= path + seq!['/']);
    assert((path + seq!['/'] + name).take(path.len() as int + 1) =~= path + seq!['/']);
}

/// A key is past a cursor where it comes behind it, and past no cursor always.
pub proof fn cursor_is_left_behind(after: Seq<char>, key: Seq<char>)
    ensures
        past(None, key),
        past(Some(after), key) <==> before(after, key),
{
}

/// The group of a key under a prefix is the key up to the end of the first delimiter
/// behind the prefix; a key without one stands alone, and without a delimiter so does
/// every key.
pub proof fn group_ends_at_the_first_delimiter(
    key: Seq<char>,
    prefix: Seq<char>,
    delimiter: Seq<char>,
    at: int,
)
    requires
        starts_with(key, prefix),
        delimiter.len() > 0,
    ensures
        group_of(key, prefix, None) is None,
        grouping(Some(delimiter)) == Some(delimiter),
        grouping(Some(Seq::<char>::empty())) is None,
        grouping(None) is None,
        group_of(key, prefix, Some(delimiter)) is None <==> forall|i: int|
            prefix.len() <= i ==> !occurs_at(key, delimiter, i),
        prefix.len() <= at && occurs_at(key, delimiter, at) && (forall|i: int|
            prefix.len() <= i < at ==> !occurs_at(key, delimiter, i)) ==> group_of(
            key,
            prefix,
            Some(delimiter),
        ) == Some(key.take(at + delimiter.len())),
{
    find_is_first(key, delimiter, prefix.len() as int);
    match find_from(key, delimiter, prefix.len() as int) {
        Some(found) => {
            assert(occurs_at(key, delimiter, found));
        },
        None => {},
    }
}

/// A page begins behind its token or, without one, behind its offset, and holds as
/// many entries as were asked for, or a thousand.
pub proof fn page_begins_where_asked(prefix: Seq<char>, options: PageOptions)
    ensures
        ({
            let page = first_page(prefix, options);
            &&& page.prefix == prefix
            &&& options.page_token matches Some(token) ==> page.after == Some(token@)
            &&& options.page_token is None ==> (options.offset matches Some(offset) ==> page.after
                == Some(offset@))
            &&& options.page_token is None && options.offset is None ==> page.after is None
            &&& options.max_keys matches Some(limit) ==> page.limit == limit
            &&& options.max_keys is None ==> page.limit == 1000
            &&& options.delimiter is None ==> page.delimiter is None
            &&& options.delimiter matches Some(text) ==> text@.len() > 0 ==> page.delimiter == Some(
                text@,
            )
            &&& page.objects.len() == 0
            &&& page.common_prefixes.len() == 0
        }),
{
}

/// The words under which attributes are stored: one for each, and no other word
/// stands for any.
pub proof fn words_of_attributes(name: Option<Seq<char>>, own: Seq<char>, kind: Seq<char>)
    ensures
        kind_of(AttributeView::ContentDisposition) == Some("content-disposition"@),
        kind_of(AttributeView::ContentEncoding) == Some("content-encoding"@),
        kind_of(AttributeView::ContentLanguage) == Some("content-language"@),
        kind_of(AttributeView::ContentType) == Some("content-type"@),
        kind_of(AttributeView::CacheControl) == Some("cache-control"@),
        kind_of(AttributeView::StorageClass) == Some("storage-class"@),
        kind_of(AttributeView::Metadata(own)) == Some("metadata"@),
        kind_of(AttributeView::Unsupported(own)) is None,
        name_of(AttributeView::Metadata(own)) == Some(own),
        name_of(AttributeView::ContentDisposition) is None,
        name_of(AttributeView::ContentEncoding) is None,
        name_of(AttributeView::ContentLanguage) is None,
        name_of(AttributeView::ContentType) is None,
        name_of(AttributeView::CacheControl) is None,
        name_of(AttributeView::StorageClass) is None,
        attribute_of(kind, name) is Some <==> kind == "content-disposition"@ || kind
            == "content-encoding"@ || kind == "content-language"@ || kind == "content-type"@ || kind
            == "cache-control"@ || kind == "storage-class"@ || kind == "metadata"@,
        attribute_of("metadata"@, Some(own)) == Some(AttributeView::Metadata(own)),
        attribute_of("metadata"@, None) == Some(AttributeView::Metadata(Seq::empty())),
        attribute_of("content-disposition"@, name) == Some(AttributeView::ContentDisposition),
        attribute_of("content-encoding"@, name) == Some(AttributeView::ContentEncoding),
        attribute_of("content-language"@, name) == Some(AttributeView::ContentLanguage),
        attribute_of("content-type"@, name) == Some(AttributeView::ContentType),
        attribute_of("cache-control"@, name) == Some(AttributeView::CacheControl),
        attribute_of("storage-class"@, name) == Some(AttributeView::StorageClass),
{
    reveal_strlit("content-disposition");
    reveal_strlit("content-encoding");
    reveal_strlit("content-language");
    reveal_strlit("content-type");
    reveal_strlit("cache-control");
    reveal_strlit("storage-class");
    reveal_strlit("metadata");
    assert("content-disposition"@.len() == 19);
    assert("content-encoding"@.len() == 16);
    assert("content-language"@.len() == 16);
    assert("content-type"@.len() == 12);
    assert("cache-control"@.len() == 13);
    assert("storage-class"@.len() == 13);
    assert("metadata"@.len() == 8);
    assert("content-encoding"@[8] != "content-language"@[8]);
    assert("cache-control"@[1] != "storage-class"@[1]);
}

/// A request asks with calendar times where each time that it has lies in the range of
/// the calendar and has less than a second of nanoseconds, or less than two in the
/// last second of a minute.
pub proof fn requests_have_calendar_times(options: ReadOptions, time: CalendarTime)
    ensures
        options.if_modified_since is None && options.if_unmodified_since is None
            ==> options.has_calendar_times(),
        options.has_calendar_times() && (options.if_modified_since == Some(time)
            || options.if_unmodified_since == Some(time)) ==> time.is_valid(),
        options.if_modified_since == Some(time) && options.if_unmodified_since is None ==> (
        options.has_calendar_times() <==> time.is_valid()),
        options.if_unmodified_since == Some(time) && options.if_modified_since is None ==> (
        options.has_calendar_times() <==> time.is_valid()),
        time.is_valid() <==> {
            &&& -8_334_601_228_800 <= time.seconds <= 8_210_266_876_799
            &&& time.nanos < 1_000_000_000 || time.seconds % 60 == 59 && time.nanos < 2_000_000_000
        },
{
}

} // verus!
