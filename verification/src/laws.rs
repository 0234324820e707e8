//! What holds of the store across its operations.
use crate::contents::{
    content_has_its_size, joined_payloads, part_count_is, parts_complete, read_whole,
    reads_give_back_the_content, upload_is_its_payloads,
};
use crate::model::{
    chunk_count, chunk_length, content, has_parts, joined, laid_out, new_store, part_bytes,
    part_complete, part_count, referenced, row_ok, sizes_before, upload_bytes, ObjectRow, PartRow,
    Tables, ACTIVE, FIRST_ETAG, PUBLISHED, RETIRED,
};
use crate::read::ReadSnapshot;
use crate::storage::{
    collected, content_of, copied, cutoff_at, deleted, etag_of, inline_row, reclaimable, refuses,
    retired, stored, PutMode, UPLOAD_EXPIRY_MS,
};
use crate::text::{decimals_differ, signed_decimal};
use crate::upload::{
    aborted, all_parts, begun, chunk_written, part_recorded, parts_are, published, size_sum,
    too_large,
};
use vstd::prelude::*;

verus! {

/// One transaction of the store.
pub enum Step {
    Put { key: Seq<char>, body: Seq<u8>, attributes: Seq<char>, now_ms: i64 },
    Delete { key: Seq<char> },
    Copy { from: Seq<char>, to: Seq<char>, now_ms: i64 },
    Begin { now_ms: i64 },
    WriteChunk { id: i64, part: i64, chunk: i64, body: Seq<u8>, now_ms: i64 },
    RecordPart { id: i64, part: i64, size: i64, now_ms: i64 },
    Abort { id: i64 },
    Publish {
        id: i64,
        sizes: Seq<(i64, i64)>,
        key: Seq<char>,
        attributes: Seq<char>,
        touched_ms: i64,
        modified_ms: i64,
    },
    Collect { id: i64, cutoff_ms: i64, chunks: Seq<(i64, i64)> },
}

/// The upload may still grow.
pub open spec fn active(t: Tables, id: i64) -> bool {
    t.uploads.contains_key(id) && t.uploads[id].state == ACTIVE
}

/// The chunks of the listing are of the upload; with fewer than three, they are
/// all that it has.
pub open spec fn chunks_are(t: Tables, id: i64, chunks: Seq<(i64, i64)>) -> bool {
    chunks.len() < 3 ==> forall|part: i64, chunk: i64| #[trigger]
        t.chunks.contains_key((id, part, chunk)) ==> chunks.contains((part, chunk))
}

/// The transaction can take place: numbers are left to allocate, the upload is
/// active, a row to insert is not there yet, and the chunks of a part come before
/// its row.
pub open spec fn allowed(t: Tables, step: Step) -> bool {
    match step {
        Step::Put { key, body, attributes, now_ms } => t.next_etag < i64::MAX && body.len()
            <= i64::MAX,
        Step::Delete { key } => true,
        Step::Copy { from, to, now_ms } => t.next_etag < i64::MAX && t.objects.contains_key(from),
        Step::Begin { now_ms } => t.last_upload < i64::MAX,
        Step::WriteChunk { id, part, chunk, body, now_ms } => active(t, id)
            && !t.chunks.contains_key((id, part, chunk)),
        Step::RecordPart { id, part, size, now_ms } => active(t, id) && !t.parts.contains_key(
            (id, part),
        ) && part_complete(part_recorded(t, id, part, size, now_ms), id, part),
        Step::Abort { id } => true,
        Step::Publish { id, sizes, key, attributes, touched_ms, modified_ms } => {
            &&& active(t, id)
            &&& parts_are(t, id, sizes)
            &&& all_parts(sizes, sizes.len())
            &&& !too_large(sizes)
            &&& t.next_etag < i64::MAX
            &&& sizes.len() <= i64::MAX
        },
        Step::Collect { id, cutoff_ms, chunks } => chunks_are(t, id, chunks),
    }
}

/// The tables after the transaction.
pub open spec fn after(t: Tables, step: Step) -> Tables {
    match step {
        Step::Put { key, body, attributes, now_ms } => stored(
            t,
            key,
            inline_row(t.next_etag, body, attributes, now_ms),
        ),
        Step::Delete { key } => deleted(t, key),
        Step::Copy { from, to, now_ms } => copied(t, from, to, now_ms),
        Step::Begin { now_ms } => begun(t, now_ms),
        Step::WriteChunk { id, part, chunk, body, now_ms } => chunk_written(
            t,
            id,
            part,
            chunk,
            body,
            now_ms,
        ),
        Step::RecordPart { id, part, size, now_ms } => part_recorded(t, id, part, size, now_ms),
        Step::Abort { id } => aborted(t, id),
        Step::Publish { id, sizes, key, attributes, touched_ms, modified_ms } => published(
            t,
            id,
            sizes,
            key,
            attributes,
            touched_ms,
            modified_ms,
        ),
        Step::Collect { id, cutoff_ms, chunks } => collected(t, id, cutoff_ms, chunks),
    }
}

/// The key whose object the transaction writes or deletes.
pub open spec fn target(step: Step) -> Option<Seq<char>> {
    match step {
        Step::Put { key, .. } => Some(key),
        Step::Delete { key } => Some(key),
        Step::Copy { to, .. } => Some(to),
        Step::Publish { key, .. } => Some(key),
        _ => None,
    }
}

/// The rows of one upload's parts and chunks are the same in both tables.
pub open spec fn same_upload(a: Tables, b: Tables, id: i64) -> bool {
    &&& forall|part: i64| #[trigger]
        a.parts.contains_key((id, part)) <==> b.parts.contains_key((id, part))
    &&& forall|part: i64| #[trigger]
        a.parts.contains_key((id, part)) ==> a.parts[(id, part)] == b.parts[(id, part)]
    &&& forall|part: i64, chunk: i64| #[trigger]
        a.chunks.contains_key((id, part, chunk)) <==> b.chunks.contains_key((id, part, chunk))
    &&& forall|part: i64, chunk: i64| #[trigger]
        a.chunks.contains_key((id, part, chunk)) ==> a.chunks[(id, part, chunk)] == b.chunks[(
            id,
            part,
            chunk,
        )]
}

/// The same chunks are the same bytes.
proof fn same_joined(a: Tables, b: Tables, id: i64, part: i64, n: nat)
    requires
        n <= i64::MAX,
        forall|chunk: i64|
            0 <= chunk < n ==> #[trigger] a.chunks[(id, part, chunk)] == b.chunks[(id, part, chunk)],
    ensures
        joined(a.chunks, id, part, n) == joined(b.chunks, id, part, n),
    decreases n,
{
    if n > 0 {
        same_joined(a, b, id, part, (n - 1) as nat);
        assert(a.chunks[(id, part, (n - 1) as i64)] == b.chunks[(id, part, (n - 1) as i64)]);
    }
}

/// The same sizes add up to the same.
proof fn same_sizes(a: Map<(i64, i64), PartRow>, b: Map<(i64, i64), PartRow>, id: i64, n: nat)
    requires
        n <= i64::MAX,
        forall|part: i64|
            0 <= part < n ==> (#[trigger] a[(id, part)]).size == b[(id, part)].size,
    ensures
        sizes_before(a, id, n) == sizes_before(b, id, n),
    decreases n,
{
    if n > 0 {
        same_sizes(a, b, id, (n - 1) as nat);
        assert(a[(id, (n - 1) as i64)].size == b[(id, (n - 1) as i64)].size);
    }
}

/// Complete parts with the same sizes and chunks are the same bytes.
proof fn same_bytes(a: Tables, b: Tables, id: i64, n: nat)
    requires
        parts_complete(a, id, n),
        forall|part: i64|
            0 <= part < n ==> (#[trigger] a.parts[(id, part)]).size == b.parts[(id, part)].size,
        forall|part: i64, chunk: i64| #[trigger]
            a.chunks.contains_key((id, part, chunk)) ==> b.chunks.contains_key((id, part, chunk))
                && a.chunks[(id, part, chunk)] == b.chunks[(id, part, chunk)],
    ensures
        parts_complete(b, id, n),
        upload_bytes(a, id, n) == upload_bytes(b, id, n),
    decreases n,
{
    assert forall|part: i64| 0 <= part < n implies #[trigger] part_complete(b, id, part) by {
        assert(part_complete(a, id, part));
        let size = a.parts[(id, part)].size as int;
        assert(b.parts[(id, part)].size == size);
        assert forall|chunk: i64| 0 <= chunk < chunk_count(size) implies #[trigger] b.chunks.contains_key(
            (id, part, chunk),
        ) && b.chunks[(id, part, chunk)].len() == chunk_length(size, chunk as int) by {
            assert(a.chunks.contains_key((id, part, chunk)));
        }
    }
    if n > 0 {
        let m = (n - 1) as nat;
        assert(parts_complete(a, id, m));
        same_bytes(a, b, id, m);
        let part = m as i64;
        assert(part_complete(a, id, part));
        assert(a.parts[(id, part)].size == b.parts[(id, part)].size);
        let size = a.parts[(id, part)].size as int;
        assert forall|chunk: i64| 0 <= chunk < chunk_count(size) implies #[trigger] a.chunks[(
            id,
            part,
            chunk,
        )] == b.chunks[(id, part, chunk)] by {
            assert(a.chunks.contains_key((id, part, chunk)));
        }
        same_joined(a, b, id, part, chunk_count(size) as nat);
    }
}

/// An upload that is not touched stays laid out, and stays the same bytes.
proof fn layout_stays(a: Tables, b: Tables, id: i64, size: int)
    requires
        laid_out(a, id, size),
        same_upload(a, b, id),
    ensures
        laid_out(b, id, size),
        part_count(b.parts, id) == part_count(a.parts, id),
        upload_bytes(b, id, part_count(b.parts, id)) == upload_bytes(
            a,
            id,
            part_count(a.parts, id),
        ),
{
    let n = part_count(a.parts, id);
    assert(has_parts(b.parts, id, n)) by {
        assert forall|part: i64| #[trigger] b.parts.contains_key((id, part)) <==> 0 <= part < n by {
            assert(a.parts.contains_key((id, part)) <==> b.parts.contains_key((id, part)));
        }
    }
    part_count_is(b.parts, id, n);
    assert forall|part: i64| 0 <= part < n implies (#[trigger] a.parts[(id, part)]) == b.parts[(
        id,
        part,
    )] by {
        assert(a.parts.contains_key((id, part)));
    }
    assert(parts_complete(a, id, n)) by {
        assert forall|part: i64| 0 <= part < n implies #[trigger] part_complete(a, id, part) by {
            assert(a.parts[(id, part)].offset == sizes_before(a.parts, id, part as nat));
        }
    }
    same_bytes(a, b, id, n);
    same_sizes(a.parts, b.parts, id, n);
    assert forall|part: i64| 0 <= part < n implies part_complete(b, id, part) && (
    #[trigger] b.parts[(id, part)]).offset == sizes_before(b.parts, id, part as nat) by {
        assert(a.parts[(id, part)] == b.parts[(id, part)]);
        assert(part_complete(b, id, part));
        same_sizes(a.parts, b.parts, id, part as nat);
    }
}

/// A row stays readable with the same bytes while the upload that it refers to
/// is untouched and published.
proof fn row_stays(a: Tables, b: Tables, row: ObjectRow)
    requires
        row_ok(a, row),
        row.content_id matches Some(id) ==> same_upload(a, b, id) && b.uploads.contains_key(id)
            && b.uploads[id].state == PUBLISHED,
    ensures
        row_ok(b, row),
        row.content_id matches Some(id) ==> upload_bytes(b, id, part_count(b.parts, id))
            == upload_bytes(a, id, part_count(a.parts, id)),
{
    match row.content_id {
        Some(id) => layout_stays(a, b, id, row.size.unwrap() as int),
        None => {},
    }
}

/// Every object but the one under `key` is the same, down to its bytes.
pub open spec fn others_stay(a: Tables, b: Tables, key: Option<Seq<char>>) -> bool {
    forall|other: Seq<char>| #[trigger]
        a.objects.contains_key(other) && key != Some(other) ==> b.objects.contains_key(other)
            && b.objects[other] == a.objects[other] && content(b, other) == content(a, other)
}

/// No object but the one under `key` is new.
pub open spec fn no_others_come(a: Tables, b: Tables, key: Option<Seq<char>>) -> bool {
    forall|other: Seq<char>| #[trigger]
        b.objects.contains_key(other) && key != Some(other) ==> a.objects.contains_key(other)
}

/// The same parts and chunks are the same uploads.
proof fn same_rows(a: Tables, b: Tables, id: i64)
    requires
        a.parts == b.parts,
        a.chunks == b.chunks,
    ensures
        same_upload(a, b, id),
{
}

/// Writing a readable row under a key.
proof fn stored_keeps(t: Tables, key: Seq<char>, row: ObjectRow)
    requires
        t.wf(),
        t.next_etag < i64::MAX,
        row.etag == t.next_etag,
        row_ok(t, row),
    ensures
        stored(t, key, row).wf(),
        others_stay(t, stored(t, key, row), Some(key)),
        content(stored(t, key, row), key) == match row.content_id {
            None => row.body,
            Some(id) => upload_bytes(t, id, part_count(t.parts, id)),
        },
{
    let b = stored(t, key, row);
    let gone = content_of(t, key);
    if t.objects.contains_key(key) {
        assert(row_ok(t, t.objects[key]));
    }
    assert forall|other: Seq<char>| #[trigger] b.objects.contains_key(other) implies {
        &&& b.objects[other].etag < b.next_etag
        &&& row_ok(b, b.objects[other])
        &&& other != key ==> content(b, other) == content(t, other)
        &&& other == key ==> content(b, other) == match row.content_id {
            None => row.body,
            Some(id) => upload_bytes(t, id, part_count(t.parts, id)),
        }
    } by {
        let r = b.objects[other];
        if other != key {
            assert(t.objects.contains_key(other));
            assert(row_ok(t, r));
        }
        match r.content_id {
            Some(id) => {
                assert(referenced(b.objects, id));
                same_rows(t, b, id);
            },
            None => {},
        }
        row_stays(t, b, r);
    }
    assert forall|x: Seq<char>, y: Seq<char>|
        #![trigger b.objects[x], b.objects[y]]
        b.objects.contains_key(x) && b.objects.contains_key(y) && x != y implies b.objects[x].etag
        != b.objects[y].etag by {
        if x != key && y != key {
            assert(t.objects[x].etag != t.objects[y].etag);
        } else if x == key {
            assert(t.objects.contains_key(y));
        } else {
            assert(t.objects.contains_key(x));
        }
    }
    uploads_follow(t, b, key, gone);
    assert(others_stay(t, b, Some(key))) by {
        assert forall|other: Seq<char>| #[trigger]
            t.objects.contains_key(other) && Some(key) != Some(other) implies b.objects.contains_key(
            other,
        ) && b.objects[other] == t.objects[other] && content(b, other) == content(t, other) by {
            assert(b.objects.contains_key(other));
        }
    }
    assert(b.objects.contains_key(key));
}

/// Where only the object under one key changes and its upload is retired unless
/// still referred to, uploads stay as they must.
proof fn uploads_follow(t: Tables, b: Tables, key: Seq<char>, gone: Option<i64>)
    requires
        t.wf(),
        gone == content_of(t, key),
        b.uploads == retired(b.objects, t.uploads, gone),
        b.parts == t.parts,
        b.chunks == t.chunks,
        b.last_upload == t.last_upload,
        forall|other: Seq<char>| #[trigger]
            t.objects.contains_key(other) && other != key ==> b.objects.contains_key(other)
                && b.objects[other] == t.objects[other],
    ensures
        forall|id: i64| #[trigger]
            b.uploads.contains_key(id) ==> {
                &&& id <= b.last_upload
                &&& ACTIVE <= b.uploads[id].state <= RETIRED
                &&& b.uploads[id].state == PUBLISHED ==> referenced(b.objects, id)
            },
        forall|id: i64, part: i64| #[trigger]
            b.parts.contains_key((id, part)) ==> b.uploads.contains_key(id) && (b.uploads[id].state
                == ACTIVE ==> part_complete(b, id, part)),
        forall|id: i64, part: i64, chunk: i64| #[trigger]
            b.chunks.contains_key((id, part, chunk)) ==> b.uploads.contains_key(id),
{
    if t.objects.contains_key(key) {
        assert(row_ok(t, t.objects[key]));
    }
    assert forall|id: i64| #[trigger] b.uploads.contains_key(id) implies {
        &&& id <= b.last_upload
        &&& ACTIVE <= b.uploads[id].state <= RETIRED
        &&& b.uploads[id].state == PUBLISHED ==> referenced(b.objects, id)
    } by {
        assert(t.uploads.contains_key(id));
        if b.uploads[id].state == PUBLISHED && gone != Some(id) {
            let k = choose|k: Seq<char>| #[trigger]
                t.objects.contains_key(k) && t.objects[k].content_id == Some(id);
            assert(k != key);
            assert(b.objects.contains_key(k) && b.objects[k].content_id == Some(id));
        }
    }
    assert forall|id: i64, part: i64| #[trigger] b.parts.contains_key((id, part)) implies b.uploads.contains_key(
        id,
    ) && (b.uploads[id].state == ACTIVE ==> part_complete(b, id, part)) by {
        assert(t.parts.contains_key((id, part)));
        if b.uploads[id].state == ACTIVE {
            assert(t.uploads[id].state == ACTIVE);
            assert(part_complete(t, id, part));
        }
    }
    assert forall|id: i64, part: i64, chunk: i64| #[trigger]
        b.chunks.contains_key((id, part, chunk)) implies b.uploads.contains_key(id) by {
        assert(t.chunks.contains_key((id, part, chunk)));
    }
}

/// Deleting an object.
proof fn deleted_keeps(t: Tables, key: Seq<char>)
    requires
        t.wf(),
    ensures
        deleted(t, key).wf(),
        others_stay(t, deleted(t, key), Some(key)),
{
    let b = deleted(t, key);
    let gone = content_of(t, key);
    assert forall|other: Seq<char>| #[trigger] b.objects.contains_key(other) implies {
        &&& b.objects[other].etag < b.next_etag
        &&& row_ok(b, b.objects[other])
        &&& content(b, other) == content(t, other)
    } by {
        let r = b.objects[other];
        assert(t.objects.contains_key(other));
        assert(row_ok(t, r));
        match r.content_id {
            Some(id) => {
                assert(referenced(b.objects, id));
                same_rows(t, b, id);
            },
            None => {},
        }
        row_stays(t, b, r);
    }
    assert forall|x: Seq<char>, y: Seq<char>|
        #![trigger b.objects[x], b.objects[y]]
        b.objects.contains_key(x) && b.objects.contains_key(y) && x != y implies b.objects[x].etag
        != b.objects[y].etag by {
        assert(t.objects[x].etag != t.objects[y].etag);
    }
    uploads_follow(t, b, key, gone);
    assert(others_stay(t, b, Some(key))) by {
        assert forall|other: Seq<char>| #[trigger]
            t.objects.contains_key(other) && Some(key) != Some(other) implies b.objects.contains_key(
            other,
        ) && b.objects[other] == t.objects[other] && content(b, other) == content(t, other) by {
            assert(b.objects.contains_key(other));
        }
    }
}

/// Where the objects stay, and every published upload with its rows, the objects
/// stay readable with the same bytes.
proof fn objects_stay(t: Tables, b: Tables)
    requires
        t.wf(),
        b.objects == t.objects,
        b.next_etag == t.next_etag,
        forall|id: i64| #[trigger]
            t.uploads.contains_key(id) && t.uploads[id].state == PUBLISHED ==> b.uploads.contains_key(
                id,
            ) && b.uploads[id].state == PUBLISHED && same_upload(t, b, id),
    ensures
        forall|key: Seq<char>| #[trigger]
            b.objects.contains_key(key) ==> b.objects[key].etag < b.next_etag && row_ok(
                b,
                b.objects[key],
            ),
        forall|x: Seq<char>, y: Seq<char>|
            #![trigger b.objects[x], b.objects[y]]
            b.objects.contains_key(x) && b.objects.contains_key(y) && x != y ==> b.objects[x].etag
                != b.objects[y].etag,
        others_stay(t, b, None),
{
    assert forall|key: Seq<char>| #[trigger] b.objects.contains_key(key) implies {
        &&& b.objects[key].etag < b.next_etag
        &&& row_ok(b, b.objects[key])
        &&& content(b, key) == content(t, key)
    } by {
        let r = b.objects[key];
        assert(row_ok(t, r));
        row_stays(t, b, r);
    }
    assert forall|x: Seq<char>, y: Seq<char>|
        #![trigger b.objects[x], b.objects[y]]
        b.objects.contains_key(x) && b.objects.contains_key(y) && x != y implies b.objects[x].etag
        != b.objects[y].etag by {
        assert(t.objects[x].etag != t.objects[y].etag);
    }
    assert(others_stay(t, b, None)) by {
        assert forall|other: Seq<char>| #[trigger]
            t.objects.contains_key(other) && None::<Seq<char>> != Some(other) implies b.objects.contains_key(
            other,
        ) && b.objects[other] == t.objects[other] && content(b, other) == content(t, other) by {
            assert(b.objects.contains_key(other));
        }
    }
}

/// Beginning an upload.
proof fn begun_keeps(t: Tables, now_ms: i64)
    requires
        t.wf(),
        t.last_upload < i64::MAX,
    ensures
        begun(t, now_ms).wf(),
        others_stay(t, begun(t, now_ms), None),
        !t.uploads.contains_key((t.last_upload + 1) as i64),
{
    let b = begun(t, now_ms);
    let fresh = (t.last_upload + 1) as i64;
    if t.uploads.contains_key(fresh) {
        assert(fresh <= t.last_upload);
    }
    assert forall|id: i64| #[trigger]
        t.uploads.contains_key(id) && t.uploads[id].state == PUBLISHED implies b.uploads.contains_key(
        id,
    ) && b.uploads[id].state == PUBLISHED && same_upload(t, b, id) by {
        same_rows(t, b, id);
    }
    objects_stay(t, b);
    assert forall|id: i64| #[trigger] b.uploads.contains_key(id) implies {
        &&& id <= b.last_upload
        &&& ACTIVE <= b.uploads[id].state <= RETIRED
        &&& b.uploads[id].state == PUBLISHED ==> referenced(b.objects, id)
    } by {
        if id != fresh {
            assert(t.uploads.contains_key(id));
        }
    }
    assert forall|id: i64, part: i64| #[trigger] b.parts.contains_key((id, part)) implies b.uploads.contains_key(
        id,
    ) && (b.uploads[id].state == ACTIVE ==> part_complete(b, id, part)) by {
        assert(t.parts.contains_key((id, part)));
        assert(t.uploads.contains_key(id));
        if b.uploads[id].state == ACTIVE {
            assert(part_complete(t, id, part));
        }
    }
    assert forall|id: i64, part: i64, chunk: i64| #[trigger]
        b.chunks.contains_key((id, part, chunk)) implies b.uploads.contains_key(id) by {
        assert(t.chunks.contains_key((id, part, chunk)));
    }
}

/// Writing a chunk of an active upload.
proof fn chunk_written_keeps(
    t: Tables,
    id: i64,
    part: i64,
    chunk: i64,
    body: Seq<u8>,
    now_ms: i64,
)
    requires
        t.wf(),
        active(t, id),
        !t.chunks.contains_key((id, part, chunk)),
    ensures
        chunk_written(t, id, part, chunk, body, now_ms).wf(),
        others_stay(t, chunk_written(t, id, part, chunk, body, now_ms), None),
{
    let b = chunk_written(t, id, part, chunk, body, now_ms);
    objects_stay(t, b);
    assert forall|i: i64| #[trigger] b.uploads.contains_key(i) implies {
        &&& i <= b.last_upload
        &&& ACTIVE <= b.uploads[i].state <= RETIRED
        &&& b.uploads[i].state == PUBLISHED ==> referenced(b.objects, i)
    } by {
        assert(t.uploads.contains_key(i));
    }
    assert forall|i: i64, p: i64| #[trigger] b.parts.contains_key((i, p)) implies b.uploads.contains_key(
        i,
    ) && (b.uploads[i].state == ACTIVE ==> part_complete(b, i, p)) by {
        assert(t.parts.contains_key((i, p)));
        assert(t.uploads.contains_key(i));
        if b.uploads[i].state == ACTIVE {
            assert(part_complete(t, i, p));
            let size = t.parts[(i, p)].size as int;
            assert forall|c: i64| 0 <= c < chunk_count(size) implies #[trigger] b.chunks.contains_key(
                (i, p, c),
            ) && b.chunks[(i, p, c)].len() == chunk_length(size, c as int) by {
                assert(t.chunks.contains_key((i, p, c)));
            }
        }
    }
    assert forall|i: i64, p: i64, c: i64| #[trigger]
        b.chunks.contains_key((i, p, c)) implies b.uploads.contains_key(i) by {
        if (i, p, c) != (id, part, chunk) {
            assert(t.chunks.contains_key((i, p, c)));
        }
    }
}

/// Recording a part of an active upload.
proof fn part_recorded_keeps(t: Tables, id: i64, part: i64, size: i64, now_ms: i64)
    requires
        t.wf(),
        active(t, id),
        !t.parts.contains_key((id, part)),
        part_complete(part_recorded(t, id, part, size, now_ms), id, part),
    ensures
        part_recorded(t, id, part, size, now_ms).wf(),
        others_stay(t, part_recorded(t, id, part, size, now_ms), None),
{
    let b = part_recorded(t, id, part, size, now_ms);
    objects_stay(t, b);
    assert forall|i: i64| #[trigger] b.uploads.contains_key(i) implies {
        &&& i <= b.last_upload
        &&& ACTIVE <= b.uploads[i].state <= RETIRED
        &&& b.uploads[i].state == PUBLISHED ==> referenced(b.objects, i)
    } by {
        assert(t.uploads.contains_key(i));
    }
    assert forall|i: i64, p: i64| #[trigger] b.parts.contains_key((i, p)) implies b.uploads.contains_key(
        i,
    ) && (b.uploads[i].state == ACTIVE ==> part_complete(b, i, p)) by {
        if (i, p) != (id, part) {
            assert(t.parts.contains_key((i, p)));
            if b.uploads[i].state == ACTIVE {
                assert(part_complete(t, i, p));
            }
        }
    }
    assert forall|i: i64, p: i64, c: i64| #[trigger]
        b.chunks.contains_key((i, p, c)) implies b.uploads.contains_key(i) by {
        assert(t.chunks.contains_key((i, p, c)));
    }
}

/// Aborting an upload.
proof fn aborted_keeps(t: Tables, id: i64)
    requires
        t.wf(),
    ensures
        aborted(t, id).wf(),
        others_stay(t, aborted(t, id), None),
{
    let b = aborted(t, id);
    objects_stay(t, b);
    assert forall|i: i64| #[trigger] b.uploads.contains_key(i) implies {
        &&& i <= b.last_upload
        &&& ACTIVE <= b.uploads[i].state <= RETIRED
        &&& b.uploads[i].state == PUBLISHED ==> referenced(b.objects, i)
    } by {
        assert(t.uploads.contains_key(i));
    }
    assert forall|i: i64, p: i64| #[trigger] b.parts.contains_key((i, p)) implies b.uploads.contains_key(
        i,
    ) && (b.uploads[i].state == ACTIVE ==> part_complete(b, i, p)) by {
        assert(t.parts.contains_key((i, p)));
        if b.uploads[i].state == ACTIVE {
            assert(part_complete(t, i, p));
        }
    }
    assert forall|i: i64, p: i64, c: i64| #[trigger]
        b.chunks.contains_key((i, p, c)) implies b.uploads.contains_key(i) by {
        assert(t.chunks.contains_key((i, p, c)));
    }
}

/// Reclaiming an upload.
proof fn collected_keeps(t: Tables, id: i64, cutoff_ms: i64, chunks: Seq<(i64, i64)>)
    requires
        t.wf(),
        chunks_are(t, id, chunks),
    ensures
        collected(t, id, cutoff_ms, chunks).wf(),
        others_stay(t, collected(t, id, cutoff_ms, chunks), None),
{
    let b = collected(t, id, cutoff_ms, chunks);
    objects_stay(t, b);
    if reclaimable(t, id, cutoff_ms) {
        assert forall|i: i64| #[trigger] b.uploads.contains_key(i) implies {
            &&& i <= b.last_upload
            &&& ACTIVE <= b.uploads[i].state <= RETIRED
            &&& b.uploads[i].state == PUBLISHED ==> referenced(b.objects, i)
        } by {
            assert(t.uploads.contains_key(i));
        }
        assert forall|i: i64, p: i64| #[trigger] b.parts.contains_key((i, p)) implies b.uploads.contains_key(
            i,
        ) && (b.uploads[i].state == ACTIVE ==> part_complete(b, i, p)) by {
            assert(t.parts.contains_key((i, p)));
            if b.uploads[i].state == ACTIVE {
                assert(i != id);
                assert(part_complete(t, i, p));
                let size = t.parts[(i, p)].size as int;
                assert forall|c: i64| 0 <= c < chunk_count(size) implies #[trigger] b.chunks.contains_key(
                    (i, p, c),
                ) && b.chunks[(i, p, c)].len() == chunk_length(size, c as int) by {
                    assert(t.chunks.contains_key((i, p, c)));
                }
            }
        }
        assert forall|i: i64, p: i64, c: i64| #[trigger]
            b.chunks.contains_key((i, p, c)) implies b.uploads.contains_key(i) by {
            assert(t.chunks.contains_key((i, p, c)));
        }
    }
}

/// The parts that a publication lists are all the parts of the upload.
proof fn listed_parts(t: Tables, id: i64, sizes: Seq<(i64, i64)>)
    requires
        parts_are(t, id, sizes),
        all_parts(sizes, sizes.len()),
        sizes.len() <= i64::MAX,
    ensures
        has_parts(t.parts, id, sizes.len()),
        forall|part: i64|
            0 <= part < sizes.len() ==> (#[trigger] t.parts[(id, part)]).size == sizes[part as int].1,
{
    assert forall|part: i64| #[trigger] t.parts.contains_key((id, part)) <==> 0 <= part
        < sizes.len() by {
        if t.parts.contains_key((id, part)) {
            let i = choose|i: int| 0 <= i < sizes.len() && (#[trigger] sizes[i]).0 == part;
            assert(sizes[i].0 as int == i);
        }
        if 0 <= part < sizes.len() {
            assert(sizes[part as int].0 as int == part);
            assert(t.parts.contains_key((id, sizes[part as int].0)));
        }
    }
    assert forall|part: i64| 0 <= part < sizes.len() implies (#[trigger] t.parts[(id, part)]).size
        == sizes[part as int].1 by {
        assert(sizes[part as int].0 as int == part);
        assert(t.parts.contains_key((id, sizes[part as int].0)));
    }
}

/// Sizes that are listed add up as the rows do.
proof fn listed_sizes(
    parts: Map<(i64, i64), PartRow>,
    id: i64,
    sizes: Seq<(i64, i64)>,
    n: nat,
)
    requires
        n <= sizes.len() <= i64::MAX,
        forall|part: i64|
            0 <= part < sizes.len() ==> (#[trigger] parts[(id, part)]).size == sizes[part as int].1,
    ensures
        sizes_before(parts, id, n) == size_sum(sizes, n),
    decreases n,
{
    if n > 0 {
        listed_sizes(parts, id, sizes, (n - 1) as nat);
        assert(parts[(id, (n - 1) as i64)].size == sizes[n - 1].1);
    }
}

/// The upload that a publication makes an object of is laid out over its size,
/// and its bytes are those of its parts before.
proof fn published_layout(
    t: Tables,
    id: i64,
    sizes: Seq<(i64, i64)>,
    key: Seq<char>,
    attributes: Seq<char>,
    touched_ms: i64,
    modified_ms: i64,
)
    requires
        t.wf(),
        active(t, id),
        parts_are(t, id, sizes),
        all_parts(sizes, sizes.len()),
        !too_large(sizes),
        sizes.len() <= i64::MAX,
    ensures
        ({
            let b = published(t, id, sizes, key, attributes, touched_ms, modified_ms);
            let n = sizes.len();
            &&& laid_out(b, id, size_sum(sizes, n))
            &&& part_count(b.parts, id) == n
            &&& upload_bytes(b, id, n) == upload_bytes(t, id, n)
            &&& i64::MIN <= size_sum(sizes, n) <= i64::MAX
        }),
{
    let b = published(t, id, sizes, key, attributes, touched_ms, modified_ms);
    let n = sizes.len();
    listed_parts(t, id, sizes);
    assert(has_parts(b.parts, id, n)) by {
        assert forall|part: i64| #[trigger] b.parts.contains_key((id, part)) <==> 0 <= part < n by {
            assert(t.parts.contains_key((id, part)) <==> 0 <= part < n);
        }
    }
    part_count_is(b.parts, id, n);
    assert(parts_complete(t, id, n)) by {
        assert forall|part: i64| 0 <= part < n implies #[trigger] part_complete(t, id, part) by {
            assert(t.parts.contains_key((id, part)));
        }
    }
    assert forall|part: i64| 0 <= part < n implies (#[trigger] t.parts[(id, part)]).size
        == b.parts[(id, part)].size by {
        assert(t.parts.contains_key((id, part)));
    }
    same_bytes(t, b, id, n);
    assert forall|part: i64| 0 <= part < n implies (#[trigger] b.parts[(id, part)]).size
        == sizes[part as int].1 by {
        assert(t.parts[(id, part)].size == b.parts[(id, part)].size);
    }
    listed_sizes(b.parts, id, sizes, n);
    assert(i64::MIN <= size_sum(sizes, n) <= i64::MAX);
    assert forall|part: i64| 0 <= part < n implies part_complete(b, id, part) && (
    #[trigger] b.parts[(id, part)]).offset == sizes_before(b.parts, id, part as nat) by {
        assert(part_complete(b, id, part));
        assert(t.parts.contains_key((id, part)));
        listed_sizes(b.parts, id, sizes, part as nat);
        assert(i64::MIN <= size_sum(sizes, part as nat) <= i64::MAX);
    }
}

/// Publishing an upload.
proof fn published_keeps(
    t: Tables,
    id: i64,
    sizes: Seq<(i64, i64)>,
    key: Seq<char>,
    attributes: Seq<char>,
    touched_ms: i64,
    modified_ms: i64,
)
    requires
        t.wf(),
        active(t, id),
        parts_are(t, id, sizes),
        all_parts(sizes, sizes.len()),
        !too_large(sizes),
        t.next_etag < i64::MAX,
        sizes.len() <= i64::MAX,
    ensures
        published(t, id, sizes, key, attributes, touched_ms, modified_ms).wf(),
        others_stay(
            t,
            published(t, id, sizes, key, attributes, touched_ms, modified_ms),
            Some(key),
        ),
        content(published(t, id, sizes, key, attributes, touched_ms, modified_ms), key)
            == upload_bytes(t, id, sizes.len()),
{
    let b = published(t, id, sizes, key, attributes, touched_ms, modified_ms);
    let gone = content_of(t, key);
    published_layout(t, id, sizes, key, attributes, touched_ms, modified_ms);
    if t.objects.contains_key(key) {
        assert(row_ok(t, t.objects[key]));
    }
    assert(gone != Some(id));
    assert(b.objects.contains_key(key) && b.objects[key].content_id == Some(id));
    assert(referenced(b.objects, id));
    assert(b.uploads.contains_key(id) && b.uploads[id].state == PUBLISHED);
    assert forall|other: Seq<char>| #[trigger] b.objects.contains_key(other) implies {
        &&& b.objects[other].etag < b.next_etag
        &&& row_ok(b, b.objects[other])
        &&& other != key ==> content(b, other) == content(t, other)
    } by {
        let r = b.objects[other];
        if other != key {
            assert(t.objects.contains_key(other));
            assert(row_ok(t, r));
            match r.content_id {
                Some(used) => {
                    assert(used != id);
                    assert(referenced(b.objects, used));
                    assert(same_upload(t, b, used));
                },
                None => {},
            }
            row_stays(t, b, r);
        }
    }
    assert forall|x: Seq<char>, y: Seq<char>|
        #![trigger b.objects[x], b.objects[y]]
        b.objects.contains_key(x) && b.objects.contains_key(y) && x != y implies b.objects[x].etag
        != b.objects[y].etag by {
        if x != key && y != key {
            assert(t.objects[x].etag != t.objects[y].etag);
        } else if x == key {
            assert(t.objects.contains_key(y));
        } else {
            assert(t.objects.contains_key(x));
        }
    }
    assert forall|i: i64| #[trigger] b.uploads.contains_key(i) implies {
        &&& i <= b.last_upload
        &&& ACTIVE <= b.uploads[i].state <= RETIRED
        &&& b.uploads[i].state == PUBLISHED ==> referenced(b.objects, i)
    } by {
        assert(t.uploads.contains_key(i));
        if b.uploads[i].state == PUBLISHED && gone != Some(i) && i != id {
            let k = choose|k: Seq<char>| #[trigger]
                t.objects.contains_key(k) && t.objects[k].content_id == Some(i);
            assert(k != key);
            assert(b.objects.contains_key(k) && b.objects[k].content_id == Some(i));
        }
    }
    assert forall|i: i64, p: i64| #[trigger] b.parts.contains_key((i, p)) implies b.uploads.contains_key(
        i,
    ) && (b.uploads[i].state == ACTIVE ==> part_complete(b, i, p)) by {
        assert(t.parts.contains_key((i, p)));
        assert(t.uploads.contains_key(i));
        assert(b.uploads.contains_key(i));
        if b.uploads[i].state == ACTIVE {
            assert(i != id);
            assert(t.uploads[i].state == ACTIVE);
            assert(b.parts[(i, p)] == t.parts[(i, p)]);
            assert(part_complete(t, i, p));
            let size = t.parts[(i, p)].size as int;
            assert forall|c: i64| 0 <= c < chunk_count(size) implies #[trigger] b.chunks.contains_key(
                (i, p, c),
            ) && b.chunks[(i, p, c)].len() == chunk_length(size, c as int) by {
                assert(t.chunks.contains_key((i, p, c)));
            }
        }
    }
    assert forall|i: i64, p: i64, c: i64| #[trigger]
        b.chunks.contains_key((i, p, c)) implies b.uploads.contains_key(i) by {
        assert(t.chunks.contains_key((i, p, c)));
    }
    assert(others_stay(t, b, Some(key))) by {
        assert forall|other: Seq<char>| #[trigger]
            t.objects.contains_key(other) && Some(key) != Some(other) implies b.objects.contains_key(
            other,
        ) && b.objects[other] == t.objects[other] && content(b, other) == content(t, other) by {
            assert(b.objects.contains_key(other));
        }
    }
}

/// Every transaction keeps the tables well formed. It changes no object but the
/// one under its key, not even by a byte: an upload that is not published is
/// invisible, reclaiming touches nothing that can be read, and an aborted or
/// incomplete upload leaves the object under its key as it was.
pub proof fn steps_keep_the_store(t: Tables, step: Step)
    requires
        t.wf(),
        allowed(t, step),
    ensures
        after(t, step).wf(),
        others_stay(t, after(t, step), target(step)),
        no_others_come(t, after(t, step), target(step)),
{
    match step {
        Step::Put { key, body, attributes, now_ms } => {
            stored_keeps(t, key, inline_row(t.next_etag, body, attributes, now_ms));
        },
        Step::Delete { key } => deleted_keeps(t, key),
        Step::Copy { from, to, now_ms } => {
            let row = ObjectRow { etag: t.next_etag, modified_ms: now_ms, ..t.objects[from] };
            assert(row_ok(t, t.objects[from]));
            stored_keeps(t, to, row);
        },
        Step::Begin { now_ms } => begun_keeps(t, now_ms),
        Step::WriteChunk { id, part, chunk, body, now_ms } => chunk_written_keeps(
            t,
            id,
            part,
            chunk,
            body,
            now_ms,
        ),
        Step::RecordPart { id, part, size, now_ms } => part_recorded_keeps(
            t,
            id,
            part,
            size,
            now_ms,
        ),
        Step::Abort { id } => aborted_keeps(t, id),
        Step::Publish { id, sizes, key, attributes, touched_ms, modified_ms } => published_keeps(
            t,
            id,
            sizes,
            key,
            attributes,
            touched_ms,
            modified_ms,
        ),
        Step::Collect { id, cutoff_ms, chunks } => collected_keeps(t, id, cutoff_ms, chunks),
    }
}

/// A put object holds exactly the bytes that were put, under the next ETag, with
/// the attributes and the time of the put.
pub proof fn put_holds_its_body(
    t: Tables,
    key: Seq<char>,
    body: Seq<u8>,
    attributes: Seq<char>,
    now_ms: i64,
)
    requires
        t.wf(),
        t.next_etag < i64::MAX,
        body.len() <= i64::MAX,
    ensures
        ({
            let b = after(t, Step::Put { key, body, attributes, now_ms });
            &&& b.objects.contains_key(key)
            &&& content(b, key) == body
            &&& etag_of(b, key) == Some(t.next_etag)
            &&& b.objects[key].attributes == attributes
            &&& b.objects[key].modified_ms == now_ms
            &&& b.objects[key].size == Some(body.len() as i64)
        }),
{
    stored_keeps(t, key, inline_row(t.next_etag, body, attributes, now_ms));
}

/// A published object holds exactly the bytes of its parts, one behind another,
/// under the next ETag.
pub proof fn publication_holds_its_parts(
    t: Tables,
    id: i64,
    sizes: Seq<(i64, i64)>,
    key: Seq<char>,
    attributes: Seq<char>,
    touched_ms: i64,
    modified_ms: i64,
)
    requires
        t.wf(),
        allowed(t, Step::Publish { id, sizes, key, attributes, touched_ms, modified_ms }),
    ensures
        ({
            let b = after(
                t,
                Step::Publish { id, sizes, key, attributes, touched_ms, modified_ms },
            );
            &&& b.objects.contains_key(key)
            &&& content(b, key) == upload_bytes(t, id, sizes.len())
            &&& etag_of(b, key) == Some(t.next_etag)
            &&& b.objects[key].attributes == attributes
            &&& b.objects[key].modified_ms == modified_ms
        }),
{
    published_keeps(t, id, sizes, key, attributes, touched_ms, modified_ms);
}

/// What is put is what is read: any range of the object reads back as that range
/// of the bytes that were put.
pub proof fn put_reads_back(
    t: Tables,
    key: Seq<char>,
    body: Seq<u8>,
    attributes: Seq<char>,
    now_ms: i64,
    read: ReadSnapshot,
)
    requires
        t.wf(),
        t.next_etag < i64::MAX,
        body.len() <= i64::MAX,
        read.content_id is None,
        read.position <= read.end <= body.len(),
    ensures
        read_whole(after(t, Step::Put { key, body, attributes, now_ms }), key, read)
            == body.subrange(read.position as int, read.end as int),
{
    let step = Step::Put { key, body, attributes, now_ms };
    steps_keep_the_store(t, step);
    put_holds_its_body(t, key, body, attributes, now_ms);
    content_has_its_size(after(t, step), key);
    reads_give_back_the_content(after(t, step), key, read);
}

/// What is uploaded in parts is what is read: any range of the published object
/// reads back as that range of the payloads in the order of their parts.
pub proof fn publication_reads_back(
    t: Tables,
    id: i64,
    sizes: Seq<(i64, i64)>,
    key: Seq<char>,
    attributes: Seq<char>,
    touched_ms: i64,
    modified_ms: i64,
    payloads: Seq<Seq<u8>>,
    read: ReadSnapshot,
)
    requires
        t.wf(),
        allowed(t, Step::Publish { id, sizes, key, attributes, touched_ms, modified_ms }),
        payloads.len() == sizes.len(),
        forall|part: i64|
            0 <= part < payloads.len() ==> #[trigger] part_bytes(t, id, part)
                == payloads[part as int],
        read.content_id == Some(id),
        read.position <= read.end <= joined_payloads(payloads).len(),
    ensures
        read_whole(
            after(t, Step::Publish { id, sizes, key, attributes, touched_ms, modified_ms }),
            key,
            read,
        ) == joined_payloads(payloads).subrange(read.position as int, read.end as int),
{
    let step = Step::Publish { id, sizes, key, attributes, touched_ms, modified_ms };
    let b = after(t, step);
    steps_keep_the_store(t, step);
    publication_holds_its_parts(t, id, sizes, key, attributes, touched_ms, modified_ms);
    upload_is_its_payloads(t, id, payloads);
    content_has_its_size(b, key);
    reads_give_back_the_content(b, key, read);
}

/// A copy holds the bytes and attributes of its source under a new ETag, and
/// keeps them whatever then becomes of the source.
pub proof fn copy_outlives_its_source(
    t: Tables,
    from: Seq<char>,
    to: Seq<char>,
    now_ms: i64,
    step: Step,
)
    requires
        t.wf(),
        t.next_etag < i64::MAX,
        t.objects.contains_key(from),
        from != to,
        target(step) == Some(from),
        allowed(after(t, Step::Copy { from, to, now_ms }), step),
    ensures
        ({
            let b = after(t, Step::Copy { from, to, now_ms });
            let c = after(b, step);
            &&& content(b, to) == content(t, from)
            &&& b.objects[to].attributes == t.objects[from].attributes
            &&& etag_of(b, to) == Some(t.next_etag)
            &&& c.objects.contains_key(to)
            &&& content(c, to) == content(t, from)
        }),
{
    let row = ObjectRow { etag: t.next_etag, modified_ms: now_ms, ..t.objects[from] };
    assert(row_ok(t, t.objects[from]));
    stored_keeps(t, to, row);
    let b = after(t, Step::Copy { from, to, now_ms });
    assert(b.objects.contains_key(to));
    steps_keep_the_store(b, step);
}

/// A deleted object is gone; deleting again changes nothing.
pub proof fn delete_is_final(t: Tables, key: Seq<char>)
    requires
        t.wf(),
    ensures
        !deleted(t, key).objects.contains_key(key),
        deleted(deleted(t, key), key) == deleted(t, key),
{
    let b = deleted(t, key);
    assert(b.objects.remove(key) =~= b.objects);
}

/// Numbers are never handed out twice: neither the ETag sequence nor the upload
/// ids go back, and every write takes an ETag above all that there are.
pub proof fn numbers_only_grow(t: Tables, step: Step)
    requires
        t.wf(),
        allowed(t, step),
    ensures
        t.next_etag <= after(t, step).next_etag,
        t.last_upload <= after(t, step).last_upload,
        forall|key: Seq<char>| #[trigger]
            after(t, step).objects.contains_key(key) && etag_of(after(t, step), key) != etag_of(
                t,
                key,
            ) ==> after(t, step).objects[key].etag == t.next_etag < after(t, step).next_etag,
{
    steps_keep_the_store(t, step);
}

/// The ETag of an object that has since been written again, even with the same
/// bytes, or deleted, opens no update.
pub proof fn stale_etag_is_refused(t: Tables, step: Step, key: Seq<char>, wanted: String)
    requires
        t.wf(),
        allowed(t, step),
        t.objects.contains_key(key),
        target(step) == Some(key),
        wanted@ == signed_decimal(t.objects[key].etag as int),
    ensures
        refuses(PutMode::Update(Some(wanted)), etag_of(after(t, step), key)),
{
    numbers_only_grow(t, step);
    let b = after(t, step);
    if b.objects.contains_key(key) {
        assert(b.objects[key].etag == t.next_etag);
        if wanted@ == signed_decimal(t.next_etag as int) {
            decimals_differ(t.objects[key].etag as int, t.next_etag as int);
        }
    }
}

/// The current ETag opens an update, and a key without an object opens a create.
pub proof fn current_etag_is_accepted(t: Tables, key: Seq<char>, wanted: String)
    requires
        t.objects.contains_key(key),
    ensures
        wanted@ == signed_decimal(t.objects[key].etag as int) <==> !refuses(
            PutMode::Update(Some(wanted)),
            etag_of(t, key),
        ),
        refuses(PutMode::Create, etag_of(t, key)),
        !refuses(PutMode::Create, etag_of(deleted(t, key), key)),
{
}

/// Of creates of one key only the first succeeds: behind any write of the key,
/// the next create is refused.
pub proof fn create_wins_once(t: Tables, step: Step, key: Seq<char>)
    requires
        t.wf(),
        allowed(t, step),
        target(step) == Some(key),
        !(step is Delete),
    ensures
        refuses(PutMode::Create, etag_of(after(t, step), key)),
{
}

/// An upload that is retired stays retired until it is gone, and its id is never
/// used again: no transaction brings it back.
pub proof fn retirement_is_final(t: Tables, step: Step, id: i64)
    requires
        t.wf(),
        allowed(t, step),
        id <= t.last_upload,
        !t.uploads.contains_key(id) || t.uploads[id].state == RETIRED,
    ensures
        !after(t, step).uploads.contains_key(id) || after(t, step).uploads[id].state == RETIRED,
        id <= after(t, step).last_upload,
{
}

/// An upload is retired as soon as the last object that refers to it goes, and
/// not before.
pub proof fn last_reference_retires(t: Tables, step: Step, id: i64)
    requires
        t.wf(),
        allowed(t, step),
        t.uploads.contains_key(id),
        t.uploads[id].state == PUBLISHED,
    ensures
        ({
            let b = after(t, step);
            &&& b.uploads.contains_key(id)
            &&& b.uploads[id].state == if referenced(b.objects, id) {
                PUBLISHED
            } else {
                RETIRED
            }
        }),
{
    steps_keep_the_store(t, step);
    let b = after(t, step);
    if referenced(b.objects, id) {
        let k = choose|k: Seq<char>| #[trigger]
            b.objects.contains_key(k) && b.objects[k].content_id == Some(id);
        assert(row_ok(b, b.objects[k]));
    }
}

/// One turn of reclaiming takes no more than two chunks, all of one upload, and
/// none of an upload that is published or active and not expired. It takes two
/// where the upload has more, so that uploads reclaim faster than they write;
/// with the last chunks the upload is gone.
pub proof fn reclaiming_is_bounded(
    t: Tables,
    id: i64,
    cutoff_ms: i64,
    chunks: Seq<(i64, i64)>,
    at: (i64, i64, i64),
)
    requires
        t.wf(),
        chunks_are(t, id, chunks),
    ensures
        ({
            let b = collected(t, id, cutoff_ms, chunks);
            &&& t.chunks.contains_key(at) && !b.chunks.contains_key(at) ==> at.0 == id
                && reclaimable(t, id, cutoff_ms) && exists|i: int|
                0 <= i < 2 && i < chunks.len() && #[trigger] chunks[i] == (at.1, at.2)
            &&& reclaimable(t, id, cutoff_ms) && chunks.len() <= 2 ==> !b.uploads.contains_key(id)
            &&& reclaimable(t, id, cutoff_ms) && chunks.len() > 2 ==> !b.chunks.contains_key(
                (id, chunks[0].0, chunks[0].1),
            ) && !b.chunks.contains_key((id, chunks[1].0, chunks[1].1))
            &&& !reclaimable(t, id, cutoff_ms) ==> b == t
        }),
{
    let b = collected(t, id, cutoff_ms, chunks);
    if chunks.len() > 2 {
        assert(chunks.take(2)[0] == chunks[0]);
        assert(chunks.take(2)[1] == chunks[1]);
        assert(chunks.take(2).contains((chunks[0].0, chunks[0].1)));
        assert(chunks.take(2).contains((chunks[1].0, chunks[1].1)));
    }
    if t.chunks.contains_key(at) && !b.chunks.contains_key(at) {
        if chunks.len() > 2 {
            let victims = chunks.take(2);
            assert(victims.contains((at.1, at.2)));
            let i = choose|i: int| 0 <= i < victims.len() && victims[i] == (at.1, at.2);
            assert(chunks[i] == (at.1, at.2));
        } else {
            assert(chunks.contains((at.1, at.2)));
            let i = choose|i: int| 0 <= i < chunks.len() && chunks[i] == (at.1, at.2);
            assert(chunks[i] == (at.1, at.2));
        }
    }
}

/// An upload that is aborted may be reclaimed at once.
pub proof fn abort_makes_reclaimable(t: Tables, id: i64, cutoff_ms: i64)
    requires
        t.wf(),
        active(t, id),
    ensures
        reclaimable(after(t, Step::Abort { id }), id, cutoff_ms),
{
}

/// Progress on an upload keeps it for a day: it is not reclaimed before.
pub proof fn progress_defers_expiry(
    t: Tables,
    id: i64,
    part: i64,
    chunk: i64,
    body: Seq<u8>,
    written_ms: i64,
    now_ms: i64,
)
    requires
        t.wf(),
        active(t, id),
        now_ms <= written_ms + UPLOAD_EXPIRY_MS,
    ensures
        !reclaimable(
            after(t, Step::WriteChunk { id, part, chunk, body, now_ms: written_ms }),
            id,
            cutoff_at(now_ms),
        ),
{
}

/// An upload without progress for more than a day may be reclaimed.
pub proof fn rest_expires(t: Tables, id: i64, now_ms: i64)
    requires
        active(t, id),
        t.uploads[id].touched_ms + UPLOAD_EXPIRY_MS < now_ms,
    ensures
        reclaimable(t, id, cutoff_at(now_ms)),
{
}

/// The tables of a store after some transactions.
pub open spec fn history(steps: Seq<Step>) -> Tables
    decreases steps.len(),
{
    if steps.len() == 0 {
        new_store()
    } else {
        after(history(steps.drop_last()), steps.last())
    }
}

/// Each of the transactions can take place behind those before it.
pub open spec fn is_possible(steps: Seq<Step>) -> bool
    decreases steps.len(),
{
    steps.len() == 0 || (is_possible(steps.drop_last()) && allowed(
        history(steps.drop_last()),
        steps.last(),
    ))
}

/// The transaction writes an object under an ETag of its own.
pub open spec fn takes_etag(step: Step) -> bool {
    step is Put || step is Copy || step is Publish
}

/// The transactions up to some point can take place too.
proof fn beginnings_are_possible(steps: Seq<Step>, i: int)
    requires
        is_possible(steps),
        0 <= i <= steps.len(),
    ensures
        is_possible(steps.take(i)),
        i < steps.len() ==> allowed(history(steps.take(i)), steps[i]),
        i < steps.len() ==> history(steps.take(i + 1)) == after(history(steps.take(i)), steps[i]),
    decreases steps.len(),
{
    if i == steps.len() {
        assert(steps.take(i) =~= steps);
    } else {
        assert(steps.take(i + 1).drop_last() =~= steps.take(i));
        let earlier = steps.drop_last();
        if i == earlier.len() {
            assert(steps.take(i) =~= earlier);
        } else {
            beginnings_are_possible(earlier, i);
            assert(earlier.take(i) =~= steps.take(i));
        }
    }
}

/// A store is well formed from the first, and whatever then takes place.
pub proof fn every_store_is_well_formed(steps: Seq<Step>)
    requires
        is_possible(steps),
    ensures
        history(steps).wf(),
    decreases steps.len(),
{
    if steps.len() > 0 {
        every_store_is_well_formed(steps.drop_last());
        steps_keep_the_store(history(steps.drop_last()), steps.last());
    }
}

/// A write gives its object the number that the sequence holds, and leaves the
/// sequence one higher; no other transaction touches the sequence.
pub proof fn write_takes_the_next_etag(t: Tables, step: Step)
    requires
        t.wf(),
        allowed(t, step),
    ensures
        takes_etag(step) ==> {
            &&& target(step) is Some
            &&& etag_of(after(t, step), target(step).unwrap()) == Some(t.next_etag)
            &&& after(t, step).next_etag == t.next_etag + 1
        },
        !takes_etag(step) ==> after(t, step).next_etag == t.next_etag,
{
}

/// The sequence at one point of a history is no higher than at a later one.
proof fn sequence_climbs(steps: Seq<Step>, i: int, j: int)
    requires
        is_possible(steps),
        0 <= i <= j <= steps.len(),
    ensures
        FIRST_ETAG <= history(steps.take(i)).next_etag <= history(steps.take(j)).next_etag,
        i < j && takes_etag(steps[i]) ==> history(steps.take(i)).next_etag < history(
            steps.take(j),
        ).next_etag,
        (forall|k: int| i <= k < j ==> !takes_etag(#[trigger] steps[k])) ==> history(
            steps.take(i),
        ).next_etag == history(steps.take(j)).next_etag,
    decreases j,
{
    if i < j {
        sequence_climbs(steps, i, j - 1);
        beginnings_are_possible(steps, j - 1);
        every_store_is_well_formed(steps.take(j - 1));
        write_takes_the_next_etag(history(steps.take(j - 1)), steps[j - 1]);
    } else if j > 0 {
        sequence_climbs(steps, j - 1, j - 1);
        beginnings_are_possible(steps, j - 1);
        every_store_is_well_formed(steps.take(j - 1));
        write_takes_the_next_etag(history(steps.take(j - 1)), steps[j - 1]);
    } else {
        assert(steps.take(0) =~= Seq::<Step>::empty());
    }
}

/// The first write to a new store has the first ETag, whatever else came before.
pub proof fn first_write_has_the_first_etag(steps: Seq<Step>, i: int)
    requires
        is_possible(steps),
        0 <= i < steps.len(),
        takes_etag(steps[i]),
        forall|k: int| 0 <= k < i ==> !takes_etag(#[trigger] steps[k]),
    ensures
        etag_of(history(steps.take(i + 1)), target(steps[i]).unwrap()) == Some(FIRST_ETAG),
{
    sequence_climbs(steps, 0, i);
    assert(steps.take(0) =~= Seq::<Step>::empty());
    beginnings_are_possible(steps, i);
    every_store_is_well_formed(steps.take(i));
    write_takes_the_next_etag(history(steps.take(i)), steps[i]);
}

/// Of two writes in the history of a store the later one has the greater ETag.
pub proof fn later_write_has_the_greater_etag(steps: Seq<Step>, i: int, j: int)
    requires
        is_possible(steps),
        0 <= i < j < steps.len(),
        takes_etag(steps[i]),
        takes_etag(steps[j]),
    ensures
        etag_of(history(steps.take(i + 1)), target(steps[i]).unwrap()) is Some,
        etag_of(history(steps.take(j + 1)), target(steps[j]).unwrap()) is Some,
        etag_of(history(steps.take(i + 1)), target(steps[i]).unwrap()).unwrap() < etag_of(
            history(steps.take(j + 1)),
            target(steps[j]).unwrap(),
        ).unwrap(),
{
    sequence_climbs(steps, i, j);
    beginnings_are_possible(steps, i);
    beginnings_are_possible(steps, j);
    every_store_is_well_formed(steps.take(i));
    every_store_is_well_formed(steps.take(j));
    write_takes_the_next_etag(history(steps.take(i)), steps[i]);
    write_takes_the_next_etag(history(steps.take(j)), steps[j]);
}

/// An ETag that an object once had is given to no later write: one that is deleted
/// and created again never gets its old one back.
pub proof fn no_etag_comes_back(steps: Seq<Step>, i: int, j: int, key: Seq<char>)
    requires
        is_possible(steps),
        0 <= i <= j < steps.len(),
        history(steps.take(i)).objects.contains_key(key),
        takes_etag(steps[j]),
    ensures
        etag_of(history(steps.take(j + 1)), target(steps[j]).unwrap()) != etag_of(
            history(steps.take(i)),
            key,
        ),
{
    sequence_climbs(steps, i, j);
    beginnings_are_possible(steps, i);
    beginnings_are_possible(steps, j);
    every_store_is_well_formed(steps.take(i));
    every_store_is_well_formed(steps.take(j));
    write_takes_the_next_etag(history(steps.take(j)), steps[j]);
}

} // verus!
