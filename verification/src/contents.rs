//! That reads give back what was written.
use crate::model::{
    chunk_count, chunk_length, content, has_parts, joined, laid_out, part_bytes, part_complete,
    part_count, row_ok, sizes_before, upload_bytes, PartRow, Tables, CHUNK_SIZE,
};
use crate::read::{chunk_request, smaller, PartFacts, ReadSnapshot};
use crate::storage::stored_object;
use crate::upload::chunk_of;
use vstd::prelude::*;

verus! {

/// How long the first chunks of a complete part are together.
proof fn joined_length(t: Tables, id: i64, part: i64, n: nat)
    requires
        part_complete(t, id, part),
        n <= chunk_count(t.parts[(id, part)].size as int) <= i64::MAX,
    ensures
        joined(t.chunks, id, part, n).len() == smaller(
            t.parts[(id, part)].size as int,
            n * CHUNK_SIZE,
        ),
    decreases n,
{
    if n > 0 {
        joined_length(t, id, part, (n - 1) as nat);
        assert(t.chunks.contains_key((id, part, (n - 1) as i64)));
        assert(n * CHUNK_SIZE == (n - 1) * CHUNK_SIZE + CHUNK_SIZE);
    }
}

/// Where a chunk stands among the first chunks of a complete part.
proof fn joined_slice(t: Tables, id: i64, part: i64, n: nat, chunk: int)
    requires
        part_complete(t, id, part),
        n <= chunk_count(t.parts[(id, part)].size as int) <= i64::MAX,
        0 <= chunk < n,
    ensures
        ({
            let size = t.parts[(id, part)].size as int;
            &&& chunk * CHUNK_SIZE + chunk_length(size, chunk) <= joined(
                t.chunks,
                id,
                part,
                n,
            ).len()
            &&& t.chunks[(id, part, chunk as i64)].len() == chunk_length(size, chunk)
            &&& joined(t.chunks, id, part, n).subrange(
                chunk * CHUNK_SIZE,
                chunk * CHUNK_SIZE + chunk_length(size, chunk),
            ) == t.chunks[(id, part, chunk as i64)]
        }),
    decreases n,
{
    let size = t.parts[(id, part)].size as int;
    let rest = joined(t.chunks, id, part, (n - 1) as nat);
    let last = t.chunks[(id, part, (n - 1) as i64)];
    let all = joined(t.chunks, id, part, n);
    joined_length(t, id, part, n);
    joined_length(t, id, part, (n - 1) as nat);
    assert(t.chunks.contains_key((id, part, (n - 1) as i64)));
    assert(t.chunks.contains_key((id, part, chunk as i64)));
    assert(n * CHUNK_SIZE == (n - 1) * CHUNK_SIZE + CHUNK_SIZE);
    let start = chunk * CHUNK_SIZE;
    let end = start + chunk_length(size, chunk);
    if chunk == n - 1 {
        assert(all.subrange(start, end) =~= last);
    } else {
        joined_slice(t, id, part, (n - 1) as nat, chunk);
        assert(all.subrange(start, end) =~= rest.subrange(start, end));
    }
}

/// Every part among the first `n` is complete.
pub open spec fn parts_complete(t: Tables, id: i64, n: nat) -> bool {
    n <= i64::MAX && forall|part: i64|
        0 <= part < n ==> #[trigger] part_complete(t, id, part)
}

/// More parts are no fewer bytes.
proof fn sizes_grow(t: Tables, id: i64, m: nat, n: nat)
    requires
        parts_complete(t, id, n),
        m <= n,
    ensures
        0 <= sizes_before(t.parts, id, m) <= sizes_before(t.parts, id, n),
    decreases n,
{
    if n > 0 {
        assert(part_complete(t, id, (n - 1) as i64));
        if m < n {
            assert(parts_complete(t, id, (n - 1) as nat));
            sizes_grow(t, id, m, (n - 1) as nat);
        } else {
            assert(parts_complete(t, id, (n - 1) as nat));
            sizes_grow(t, id, 0, (n - 1) as nat);
        }
    }
}

/// How long a complete part is.
proof fn part_length(t: Tables, id: i64, part: i64)
    requires
        part_complete(t, id, part),
    ensures
        part_bytes(t, id, part).len() == t.parts[(id, part)].size,
{
    let size = t.parts[(id, part)].size as int;
    joined_length(t, id, part, chunk_count(size) as nat);
}

/// How long the first parts of an upload are together.
proof fn upload_length(t: Tables, id: i64, n: nat)
    requires
        parts_complete(t, id, n),
    ensures
        upload_bytes(t, id, n).len() == sizes_before(t.parts, id, n),
    decreases n,
{
    if n > 0 {
        assert(part_complete(t, id, (n - 1) as i64));
        assert(parts_complete(t, id, (n - 1) as nat));
        upload_length(t, id, (n - 1) as nat);
        part_length(t, id, (n - 1) as i64);
    }
}

/// Where a part stands among the first parts of an upload.
proof fn upload_slice(t: Tables, id: i64, n: nat, part: i64)
    requires
        parts_complete(t, id, n),
        0 <= part < n,
    ensures
        ({
            let start = sizes_before(t.parts, id, part as nat);
            let end = start + t.parts[(id, part)].size;
            &&& 0 <= start <= end <= upload_bytes(t, id, n).len()
            &&& upload_bytes(t, id, n).subrange(start, end) == part_bytes(t, id, part)
        }),
    decreases n,
{
    let m = (n - 1) as nat;
    assert(parts_complete(t, id, m));
    assert(part_complete(t, id, part));
    assert(part_complete(t, id, m as i64));
    part_length(t, id, part);
    part_length(t, id, m as i64);
    upload_length(t, id, m);
    sizes_grow(t, id, 0, part as nat);
    let start = sizes_before(t.parts, id, part as nat);
    let end = start + t.parts[(id, part)].size;
    if part == m {
        assert(upload_bytes(t, id, n).subrange(start, end) =~= part_bytes(t, id, part));
    } else {
        upload_slice(t, id, m, part);
        assert(upload_bytes(t, id, n).subrange(start, end) =~= upload_bytes(t, id, m).subrange(
            start,
            end,
        ));
    }
}

/// The number of parts of an upload is one number.
pub proof fn part_count_is(parts: Map<(i64, i64), PartRow>, id: i64, n: nat)
    requires
        has_parts(parts, id, n),
    ensures
        part_count(parts, id) == n,
{
    let m = part_count(parts, id);
    assert(has_parts(parts, id, m));
    if m < n {
        assert(parts.contains_key((id, m as i64)));
    }
    if n < m {
        assert(parts.contains_key((id, n as i64)));
    }
}

/// The parts of an upload that is laid out are complete.
proof fn laid_out_is_complete(t: Tables, id: i64, size: int)
    requires
        laid_out(t, id, size),
    ensures
        parts_complete(t, id, part_count(t.parts, id)),
{
    assert forall|part: i64| 0 <= part < part_count(t.parts, id) implies #[trigger] part_complete(
        t,
        id,
        part,
    ) by {
        assert(t.parts[(id, part)].offset == sizes_before(t.parts, id, part as nat));
    }
}

/// An object has as many bytes as its metadata says.
pub proof fn content_has_its_size(t: Tables, key: Seq<char>)
    requires
        t.wf(),
        t.objects.contains_key(key),
        t.objects[key].size is None ==> content(t, key).len() <= i64::MAX,
    ensures
        content(t, key).len() == stored_object(t, key).unwrap().size,
        t.objects[key].size matches Some(size) ==> content(t, key).len() == size,
{
    let row = t.objects[key];
    assert(row_ok(t, row));
    match row.content_id {
        None => {},
        Some(id) => {
            let size = row.size.unwrap() as int;
            laid_out_is_complete(t, id, size);
            upload_length(t, id, part_count(t.parts, id));
            sizes_grow(t, id, 0, part_count(t.parts, id));
        },
    }
}

/// The reply to a payload's query for a part: the row with the greatest offset up
/// to the position, among those of the upload that hold any bytes.
pub open spec fn is_part_at(t: Tables, id: i64, position: int, found: PartFacts) -> bool {
    &&& t.parts.contains_key((id, found.part))
    &&& t.parts[(id, found.part)] == (PartRow { size: found.size, offset: found.offset })
    &&& found.offset <= position
    &&& found.size > 0
    &&& forall|part: i64| #[trigger]
        t.parts.contains_key((id, part)) && t.parts[(id, part)].offset <= position && t.parts[(
            id,
            part,
        )].size > 0 ==> t.parts[(id, part)].offset <= found.offset
}

/// The bytes that a database cuts from a value: those from `start`, `length` of
/// them, as far as there are any.
pub open spec fn cut(body: Seq<u8>, start: int, length: int) -> Seq<u8> {
    if start >= body.len() {
        Seq::empty()
    } else {
        body.subrange(start, smaller(body.len() as int, start + length))
    }
}

/// The part that a position lies in is the one that the query finds.
proof fn found_part_holds_position(
    t: Tables,
    id: i64,
    size: int,
    position: int,
    found: PartFacts,
)
    requires
        laid_out(t, id, size),
        0 <= position < size,
        is_part_at(t, id, position, found),
    ensures
        0 <= found.part < part_count(t.parts, id),
        found.offset == sizes_before(t.parts, id, found.part as nat),
        0 <= found.offset <= position < found.offset + found.size,
{
    let n = part_count(t.parts, id);
    laid_out_is_complete(t, id, size);
    let p = holder(t, id, n, position);
    assert(t.parts.contains_key((id, p)));
    assert(t.parts[(id, p)].offset == sizes_before(t.parts, id, p as nat));
    assert(t.parts[(id, found.part)].offset == sizes_before(t.parts, id, found.part as nat));
    assert(parts_complete(t, id, found.part as nat));
    sizes_grow(t, id, 0, found.part as nat);
    if found.part > p {
        assert(sizes_before(t.parts, id, (p + 1) as nat) == sizes_before(t.parts, id, p as nat)
            + t.parts[(id, p)].size);
        sizes_grow(t, id, (p + 1) as nat, found.part as nat);
    } else if found.part < p {
        assert(sizes_before(t.parts, id, (found.part + 1) as nat) == sizes_before(
            t.parts,
            id,
            found.part as nat,
        ) + t.parts[(id, found.part)].size);
        assert(parts_complete(t, id, p as nat));
        sizes_grow(t, id, (found.part + 1) as nat, p as nat);
    }
}

/// The part that a position lies in.
proof fn holder(t: Tables, id: i64, n: nat, position: int) -> (part: i64)
    requires
        parts_complete(t, id, n),
        0 <= position < sizes_before(t.parts, id, n),
    ensures
        0 <= part < n,
        sizes_before(t.parts, id, part as nat) <= position < sizes_before(
            t.parts,
            id,
            part as nat,
        ) + t.parts[(id, part)].size,
    decreases n,
{
    let m = (n - 1) as nat;
    assert(parts_complete(t, id, m));
    if position >= sizes_before(t.parts, id, m) {
        m as i64
    } else {
        holder(t, id, m, position)
    }
}

/// Where a byte of a part stands in its chunk.
proof fn chunk_arithmetic(size: int, relative: int)
    requires
        0 <= relative < size <= i64::MAX,
    ensures
        ({
            let chunk = relative / (CHUNK_SIZE as int);
            let within = relative % (CHUNK_SIZE as int);
            &&& 0 <= chunk < chunk_count(size) <= i64::MAX
            &&& chunk * CHUNK_SIZE + within == relative
            &&& 0 <= within < CHUNK_SIZE
            &&& chunk_length(size, chunk) - within == smaller(CHUNK_SIZE - within, size - relative)
        }),
{
}

/// Bytes cut from a chunk of a complete part are those of the part.
proof fn chunk_cut(t: Tables, id: i64, part: i64, relative: int, length: int)
    requires
        part_complete(t, id, part),
        0 <= relative < t.parts[(id, part)].size,
        0 < length <= smaller(
            CHUNK_SIZE - relative % (CHUNK_SIZE as int),
            t.parts[(id, part)].size - relative,
        ),
    ensures
        ({
            let at = (id, part, (relative / (CHUNK_SIZE as int)) as i64);
            &&& t.chunks.contains_key(at)
            &&& cut(t.chunks[at], relative % (CHUNK_SIZE as int), length) == part_bytes(
                t,
                id,
                part,
            ).subrange(relative, relative + length)
        }),
{
    let size = t.parts[(id, part)].size as int;
    chunk_arithmetic(size, relative);
    let chunk = relative / (CHUNK_SIZE as int);
    let within = relative % (CHUNK_SIZE as int);
    assert(t.chunks.contains_key((id, part, chunk as i64)));
    joined_slice(t, id, part, chunk_count(size) as nat, chunk);
    part_length(t, id, part);
    let body = t.chunks[(id, part, chunk as i64)];
    let bytes = part_bytes(t, id, part);
    let start = chunk * CHUNK_SIZE;
    let end = start + chunk_length(size, chunk);
    assert(body == bytes.subrange(start, end));
    assert(within + length <= body.len());
    assert(cut(body, within, length) =~= bytes.subrange(relative, relative + length));
}

/// A slice of a slice is a slice of the whole.
proof fn slice_of_slice(whole: Seq<u8>, start: int, size: int, from: int, length: int)
    requires
        0 <= start,
        start + size <= whole.len(),
        0 <= from,
        0 <= length,
        from + length <= size,
    ensures
        whole.subrange(start, start + size).subrange(from, from + length) == whole.subrange(
            start + from,
            start + from + length,
        ),
{
    assert(whole.subrange(start, start + size).subrange(from, from + length) =~= whole.subrange(
        start + from,
        start + from + length,
    ));
}

/// One fetch of a staged payload: the part found holds the position, so the
/// layout is never refused, the chunk is there and long enough, and the bytes cut
/// from it are those of the object at the position.
#[verifier::spinoff_prover]
#[verifier::rlimit(40)]
pub proof fn staged_read_is_exact(
    t: Tables,
    key: Seq<char>,
    payload: ReadSnapshot,
    found: PartFacts,
)
    requires
        t.wf(),
        t.objects.contains_key(key),
        payload.content_id == t.objects[key].content_id,
        payload.position < payload.end <= stored_object(t, key).unwrap().size,
        payload.content_id is Some,
        is_part_at(t, payload.content_id.unwrap(), payload.position as int, found),
    ensures
        0 <= found.offset <= payload.position,
        payload.position - found.offset < found.size,
        ({
            let request = chunk_request(payload, found);
            let at = (payload.content_id.unwrap(), request.part, request.chunk as i64);
            &&& 0 < request.length <= payload.end - payload.position
            &&& t.chunks.contains_key(at)
            &&& cut(t.chunks[at], request.within as int, request.length as int) == content(
                t,
                key,
            ).subrange(payload.position as int, payload.position + request.length)
        }),
{
    let id = t.objects[key].content_id.unwrap();
    let size = t.objects[key].size.unwrap() as int;
    let n = part_count(t.parts, id);
    let position = payload.position as int;
    assert(row_ok(t, t.objects[key]));
    content_has_its_size(t, key);
    laid_out_is_complete(t, id, size);
    found_part_holds_position(t, id, size, position, found);
    assert(part_complete(t, id, found.part));
    upload_slice(t, id, n, found.part);
    let relative = position - found.offset;
    chunk_arithmetic(found.size as int, relative);
    let length = chunk_request(payload, found).length as int;
    chunk_cut(t, id, found.part, relative, length);
    let bytes = part_bytes(t, id, found.part);
    let whole = content(t, key);
    assert(bytes == whole.subrange(found.offset as int, found.offset + found.size));
    slice_of_slice(whole, found.offset as int, found.size as int, relative, length);
}

/// One fetch of a body that stands in its row: the bytes cut from it are those of
/// the object at the position.
pub proof fn inline_read_is_exact(
    t: Tables,
    key: Seq<char>,
    payload: ReadSnapshot,
)
    requires
        t.wf(),
        t.objects.contains_key(key),
        t.objects[key].content_id is None,
        t.objects[key].body.len() <= i64::MAX,
        payload.position < payload.end <= stored_object(t, key).unwrap().size,
    ensures
        0 < payload.reach() <= payload.end - payload.position,
        cut(t.objects[key].body, payload.position as int, payload.reach()) == content(
            t,
            key,
        ).subrange(payload.position as int, payload.position + payload.reach()),
{
    let row = t.objects[key];
    assert(row_ok(t, row));
}

/// A part whose chunks are those of a payload, each under its number, reads back
/// as that payload.
pub proof fn written_part_reads_back(t: Tables, id: i64, part: i64, payload: Seq<u8>)
    requires
        t.parts.contains_key((id, part)),
        t.parts[(id, part)].size == payload.len(),
        forall|chunk: i64|
            0 <= chunk < chunk_count(payload.len() as int) ==> #[trigger] t.chunks.contains_key(
                (id, part, chunk),
            ) && t.chunks[(id, part, chunk)] == chunk_of(payload, chunk as int),
    ensures
        part_complete(t, id, part),
        part_bytes(t, id, part) == payload,
{
    let size = payload.len() as int;
    let count = chunk_count(size) as nat;
    joined_is_prefix(t, id, part, payload, count);
    assert(payload.take(size) =~= payload);
    assert forall|chunk: i64| 0 <= chunk < chunk_count(size) implies #[trigger] t.chunks.contains_key(
        (id, part, chunk),
    ) && t.chunks[(id, part, chunk)].len() == chunk_length(size, chunk as int) by {
        assert(t.chunks.contains_key((id, part, chunk)));
        assert(t.chunks[(id, part, chunk)] == chunk_of(payload, chunk as int));
        assert(0 <= chunk * CHUNK_SIZE < size);
    }
}

/// The first chunks of a payload are its first bytes.
proof fn joined_is_prefix(t: Tables, id: i64, part: i64, payload: Seq<u8>, n: nat)
    requires
        payload.len() <= i64::MAX,
        n <= chunk_count(payload.len() as int),
        forall|chunk: i64|
            0 <= chunk < chunk_count(payload.len() as int) ==> #[trigger] t.chunks.contains_key(
                (id, part, chunk),
            ) && t.chunks[(id, part, chunk)] == chunk_of(payload, chunk as int),
    ensures
        joined(t.chunks, id, part, n) == payload.take(
            smaller(payload.len() as int, n * CHUNK_SIZE),
        ),
    decreases n,
{
    let size = payload.len() as int;
    if n > 0 {
        joined_is_prefix(t, id, part, payload, (n - 1) as nat);
        assert(t.chunks.contains_key((id, part, (n - 1) as i64)));
        assert(n * CHUNK_SIZE == (n - 1) * CHUNK_SIZE + CHUNK_SIZE);
        assert(joined(t.chunks, id, part, n) =~= payload.take(smaller(size, n * CHUNK_SIZE)));
    } else {
        assert(joined(t.chunks, id, part, 0) =~= payload.take(0));
    }
}

/// The bytes that the next fetch of a payload brings.
pub open spec fn fetched(t: Tables, key: Seq<char>, payload: ReadSnapshot) -> Seq<u8> {
    match payload.content_id {
        None => cut(t.objects[key].body, payload.position as int, payload.reach()),
        Some(id) => {
            let found = choose|found: PartFacts| is_part_at(t, id, payload.position as int, found);
            let request = chunk_request(payload, found);
            cut(
                t.chunks[(id, request.part, request.chunk as i64)],
                request.within as int,
                request.length as int,
            )
        },
    }
}

/// The bytes that the fetches of a payload bring, one behind another.
pub open spec fn read_whole(t: Tables, key: Seq<char>, payload: ReadSnapshot) -> Seq<u8>
    decreases payload.end - payload.position,
{
    let bytes = fetched(t, key, payload);
    if payload.position >= payload.end || bytes.len() == 0 || bytes.len() > payload.end
        - payload.position {
        Seq::empty()
    } else {
        bytes + read_whole(
            t,
            key,
            ReadSnapshot { position: (payload.position + bytes.len()) as u64, ..payload },
        )
    }
}

/// Some part row answers the query for any position inside a laid out upload.
proof fn part_is_found(t: Tables, id: i64, size: int, position: int) -> (found: PartFacts)
    requires
        laid_out(t, id, size),
        0 <= position < size,
    ensures
        is_part_at(t, id, position, found),
{
    let n = part_count(t.parts, id);
    laid_out_is_complete(t, id, size);
    let p = holder(t, id, n, position);
    let row = t.parts[(id, p)];
    assert(t.parts.contains_key((id, p)));
    assert(row.offset == sizes_before(t.parts, id, p as nat));
    assert forall|part: i64| #[trigger]
        t.parts.contains_key((id, part)) && t.parts[(id, part)].offset <= position && t.parts[(
            id,
            part,
        )].size > 0 implies t.parts[(id, part)].offset <= row.offset by {
        assert(t.parts[(id, part)].offset == sizes_before(t.parts, id, part as nat));
        if part > p {
            assert(parts_complete(t, id, part as nat));
            assert(sizes_before(t.parts, id, (p + 1) as nat) == sizes_before(t.parts, id, p as nat)
                + row.size);
            sizes_grow(t, id, (p + 1) as nat, part as nat);
        } else if part < p {
            assert(parts_complete(t, id, p as nat));
            sizes_grow(t, id, part as nat, p as nat);
        }
    }
    PartFacts { part: p, offset: row.offset, size: row.size }
}

/// One fetch of a payload brings some bytes, no more than are wanted, and they are
/// those of the object at the position.
pub proof fn fetch_is_exact(t: Tables, key: Seq<char>, payload: ReadSnapshot)
    requires
        t.wf(),
        t.objects.contains_key(key),
        content(t, key).len() <= i64::MAX,
        payload.content_id == t.objects[key].content_id,
        payload.position < payload.end <= stored_object(t, key).unwrap().size,
    ensures
        0 < fetched(t, key, payload).len() <= payload.end - payload.position,
        fetched(t, key, payload) == content(t, key).subrange(
            payload.position as int,
            payload.position + fetched(t, key, payload).len(),
        ),
        payload.end <= content(t, key).len(),
{
    content_has_its_size(t, key);
    match payload.content_id {
        None => inline_read_is_exact(t, key, payload),
        Some(id) => {
            let position = payload.position as int;
            let row = t.objects[key];
            assert(row_ok(t, row));
            let witness = part_is_found(t, id, row.size.unwrap() as int, position);
            let found = choose|found: PartFacts| is_part_at(t, id, position, found);
            assert(is_part_at(t, id, position, found));
            staged_read_is_exact(t, key, payload, found);
        },
    }
}

/// Reading a range of an object gives exactly the bytes of the object in that
/// range, whether its body stands in its row or was staged in parts and chunks.
pub proof fn reads_give_back_the_content(t: Tables, key: Seq<char>, payload: ReadSnapshot)
    requires
        t.wf(),
        t.objects.contains_key(key),
        content(t, key).len() <= i64::MAX,
        payload.content_id == t.objects[key].content_id,
        payload.position <= payload.end <= stored_object(t, key).unwrap().size,
    ensures
        read_whole(t, key, payload) == content(t, key).subrange(
            payload.position as int,
            payload.end as int,
        ),
    decreases payload.end - payload.position,
{
    let whole = content(t, key);
    let position = payload.position as int;
    let end = payload.end as int;
    if position < end {
        fetch_is_exact(t, key, payload);
        let bytes = fetched(t, key, payload);
        let rest = ReadSnapshot { position: (position + bytes.len()) as u64, ..payload };
        reads_give_back_the_content(t, key, rest);
        pieces_join(whole, position, position + bytes.len(), end);
    } else {
        content_has_its_size(t, key);
        assert(whole.subrange(position, end) =~= Seq::<u8>::empty());
    }
}

/// Two ranges side by side are one.
proof fn pieces_join(whole: Seq<u8>, a: int, b: int, c: int)
    requires
        0 <= a <= b <= c <= whole.len(),
    ensures
        whole.subrange(a, b) + whole.subrange(b, c) == whole.subrange(a, c),
{
    assert(whole.subrange(a, b) + whole.subrange(b, c) =~= whole.subrange(a, c));
}

/// Payloads, one behind another.
pub open spec fn joined_payloads(payloads: Seq<Seq<u8>>) -> Seq<u8>
    decreases payloads.len(),
{
    if payloads.len() == 0 {
        Seq::empty()
    } else {
        joined_payloads(payloads.drop_last()) + payloads.last()
    }
}

/// An upload whose parts hold payloads is those payloads in the order of the part
/// numbers, in whichever order they arrived.
pub proof fn upload_is_its_payloads(t: Tables, id: i64, payloads: Seq<Seq<u8>>)
    requires
        payloads.len() <= i64::MAX,
        forall|part: i64|
            0 <= part < payloads.len() ==> #[trigger] part_bytes(t, id, part)
                == payloads[part as int],
    ensures
        upload_bytes(t, id, payloads.len()) == joined_payloads(payloads),
    decreases payloads.len(),
{
    if payloads.len() > 0 {
        let rest = payloads.drop_last();
        assert forall|part: i64| 0 <= part < rest.len() implies #[trigger] part_bytes(t, id, part)
            == rest[part as int] by {
            assert(part_bytes(t, id, part) == payloads[part as int]);
        }
        upload_is_its_payloads(t, id, rest);
        let last = (payloads.len() - 1) as i64;
        assert(part_bytes(t, id, last) == payloads[last as int]);
    }
}

} // verus!
