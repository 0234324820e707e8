//! What the statements of a transaction do to the rows, and what a transaction reads.
use crate::attributes::{attribute_of, is_read_form, is_stored_form, AttributePair, StoredAttribute};
use crate::listing::{text_of, KeyQuery};
use crate::model::{applied, apply, chunk_count, chunk_length, commits, fits, run, Change, Tables};
use crate::object::{meta_of, StoredObjectView};
use crate::path::canonical;
use crate::read::{all_known, CalendarTime};
use crate::storage::{upload_is, GarbageFacts, TargetFacts, UploadFacts};
use crate::stream::{all_listable, batch_metas};
use crate::text::before;
use crate::upload::parts_are;
use vstd::prelude::*;

verus! {

/// A statement on an object row changes that row as it says and nothing else.
pub proof fn object_statements_do_what_they_say(
    t: Tables,
    key: String,
    from: String,
    body: Vec<u8>,
    etag: i64,
    modified_ms: i64,
    attributes: String,
    size: i64,
    content_id: Option<i64>,
    other: Seq<char>,
)
    ensures
        ({
            let b = apply(
                t,
                Change::WriteObject { key, body, etag, modified_ms, attributes, size, content_id },
            );
            &&& b.objects.contains_key(key@)
            &&& b.objects[key@].body == body@
            &&& b.objects[key@].etag == etag
            &&& b.objects[key@].modified_ms == modified_ms
            &&& b.objects[key@].attributes == attributes@
            &&& b.objects[key@].size == Some(size)
            &&& b.objects[key@].content_id == content_id
            &&& other != key@ ==> (b.objects.contains_key(other) <==> t.objects.contains_key(other))
            &&& other != key@ && t.objects.contains_key(other) ==> b.objects[other]
                == t.objects[other]
            &&& b == (Tables { objects: b.objects, ..t })
        }),
        ({
            let b = apply(t, Change::CopyObject { from, to: key, etag, modified_ms });
            &&& t.objects.contains_key(from@) ==> b.objects.contains_key(key@)
                && b.objects[key@].body == t.objects[from@].body && b.objects[key@].etag == etag
                && b.objects[key@].modified_ms == modified_ms && b.objects[key@].attributes
                == t.objects[from@].attributes && b.objects[key@].size == t.objects[from@].size
                && b.objects[key@].content_id == t.objects[from@].content_id
            &&& !t.objects.contains_key(from@) ==> b == t
            &&& other != key@ ==> (b.objects.contains_key(other) <==> t.objects.contains_key(other))
            &&& other != key@ && t.objects.contains_key(other) ==> b.objects[other]
                == t.objects[other]
            &&& b == (Tables { objects: b.objects, ..t })
        }),
        ({
            let b = apply(t, Change::DeleteObject { key });
            &&& !b.objects.contains_key(key@)
            &&& other != key@ ==> (b.objects.contains_key(other) <==> t.objects.contains_key(other))
            &&& other != key@ && t.objects.contains_key(other) ==> b.objects[other]
                == t.objects[other]
            &&& b == (Tables { objects: b.objects, ..t })
        }),
        apply(t, Change::NextEtag { next: etag }) == (Tables { next_etag: etag, ..t }),
{
}

/// A statement on an upload row changes that row as it says and nothing else.
pub proof fn upload_statements_do_what_they_say(
    t: Tables,
    id: i64,
    state: i64,
    touched_ms: i64,
    other: i64,
)
    ensures
        ({
            let b = apply(t, Change::SetState { id, state });
            &&& b.uploads.contains_key(other) <==> t.uploads.contains_key(other)
            &&& t.uploads.contains_key(id) ==> b.uploads[id].state == state
                && b.uploads[id].touched_ms == t.uploads[id].touched_ms
            &&& other != id && t.uploads.contains_key(other) ==> b.uploads[other]
                == t.uploads[other]
            &&& b == (Tables { uploads: b.uploads, ..t })
        }),
        ({
            let b = apply(t, Change::Touch { id, touched_ms });
            &&& b.uploads.contains_key(other) <==> t.uploads.contains_key(other)
            &&& t.uploads.contains_key(id) ==> b.uploads[id].touched_ms == touched_ms
                && b.uploads[id].state == t.uploads[id].state
            &&& other != id && t.uploads.contains_key(other) ==> b.uploads[other]
                == t.uploads[other]
            &&& b == (Tables { uploads: b.uploads, ..t })
        }),
        ({
            let b = apply(t, Change::DropUpload { id });
            &&& !b.uploads.contains_key(id)
            &&& other != id ==> (b.uploads.contains_key(other) <==> t.uploads.contains_key(other))
            &&& other != id && t.uploads.contains_key(other) ==> b.uploads[other]
                == t.uploads[other]
            &&& b == (Tables { uploads: b.uploads, ..t })
        }),
        t.last_upload < i64::MAX ==> {
            let b = apply(t, Change::AddUpload { touched_ms });
            &&& b.last_upload == t.last_upload + 1
            &&& b.uploads.contains_key(b.last_upload)
            &&& b.uploads[b.last_upload].state == 0
            &&& b.uploads[b.last_upload].touched_ms == touched_ms
            &&& other != b.last_upload ==> (b.uploads.contains_key(other)
                <==> t.uploads.contains_key(other))
            &&& other != b.last_upload && t.uploads.contains_key(other) ==> b.uploads[other]
                == t.uploads[other]
            &&& b == (Tables { uploads: b.uploads, last_upload: b.last_upload, ..t })
        },
{
}

/// A statement on a part or chunk row changes that row as it says and nothing else.
pub proof fn part_statements_do_what_they_say(
    t: Tables,
    id: i64,
    part: i64,
    chunk: i64,
    body: Vec<u8>,
    size: i64,
    offset: i64,
    at: (i64, i64),
    other: (i64, i64, i64),
)
    ensures
        ({
            let b = apply(t, Change::AddChunk { id, part, chunk, body });
            &&& b.chunks.contains_key((id, part, chunk))
            &&& b.chunks[(id, part, chunk)] == body@
            &&& other != (id, part, chunk) ==> (b.chunks.contains_key(other)
                <==> t.chunks.contains_key(other))
            &&& other != (id, part, chunk) && t.chunks.contains_key(other) ==> b.chunks[other]
                == t.chunks[other]
            &&& b == (Tables { chunks: b.chunks, ..t })
        }),
        ({
            let b = apply(t, Change::DropChunk { id, part, chunk });
            &&& !b.chunks.contains_key((id, part, chunk))
            &&& other != (id, part, chunk) ==> (b.chunks.contains_key(other)
                <==> t.chunks.contains_key(other))
            &&& other != (id, part, chunk) && t.chunks.contains_key(other) ==> b.chunks[other]
                == t.chunks[other]
            &&& b == (Tables { chunks: b.chunks, ..t })
        }),
        ({
            let b = apply(t, Change::AddPart { id, part, size });
            &&& b.parts.contains_key((id, part))
            &&& b.parts[(id, part)].size == size
            &&& b.parts[(id, part)].offset < 0
            &&& at != (id, part) ==> (b.parts.contains_key(at) <==> t.parts.contains_key(at))
            &&& at != (id, part) && t.parts.contains_key(at) ==> b.parts[at] == t.parts[at]
            &&& b == (Tables { parts: b.parts, ..t })
        }),
        ({
            let b = apply(t, Change::SetOffset { id, part, offset });
            &&& b.parts.contains_key(at) <==> t.parts.contains_key(at)
            &&& t.parts.contains_key((id, part)) ==> b.parts[(id, part)].offset == offset
                && b.parts[(id, part)].size == t.parts[(id, part)].size
            &&& at != (id, part) && t.parts.contains_key(at) ==> b.parts[at] == t.parts[at]
            &&& b == (Tables { parts: b.parts, ..t })
        }),
        ({
            let b = apply(t, Change::DropParts { id });
            &&& b.parts.contains_key(at) <==> t.parts.contains_key(at) && at.0 != id
            &&& at.0 != id && t.parts.contains_key(at) ==> b.parts[at] == t.parts[at]
            &&& b == (Tables { parts: b.parts, ..t })
        }),
{
}

/// A statement fails only where it inserts a chunk or a part that is there already,
/// or where no id is left for an upload.
pub proof fn only_inserts_fail(t: Tables, change: Change)
    ensures
        !fits(t, change) <==> {
            ||| change matches Change::AddChunk { id, part, chunk, .. } && t.chunks.contains_key(
                (id, part, chunk),
            )
            ||| change matches Change::AddPart { id, part, .. } && t.parts.contains_key((id, part))
            ||| change is AddUpload && t.last_upload == i64::MAX
        },
{
}

/// A transaction is its statements one behind another, however many they are; where
/// one of them fails nothing is changed.
pub proof fn transactions_are_their_statements(
    t: Tables,
    a: Seq<Change>,
    b: Seq<Change>,
    change: Change,
)
    ensures
        run(t, Seq::<Change>::empty()) == t,
        run(t, seq![change]) == if fits(t, change) {
            apply(t, change)
        } else {
            t
        },
        applied(t, a + b) == applied(applied(t, a), b),
        commits(t, a + b) <==> commits(t, a) && commits(applied(t, a), b),
        commits(t, a) ==> run(t, a) == applied(t, a),
        !commits(t, a) ==> run(t, a) == t,
    decreases b.len(),
{
    let one = seq![change];
    assert(one.drop_last() =~= Seq::<Change>::empty());
    assert(applied(t, one.drop_last()) == t);
    assert(commits(t, one.drop_last()));
    if b.len() == 0 {
        assert(a + b =~= a);
    } else {
        transactions_are_their_statements(t, a, b.drop_last(), change);
        assert((a + b).drop_last() =~= a + b.drop_last());
    }
}

/// The facts of a key hold of the tables exactly where they are what the tables hold:
/// the ETag and the upload of its row, whether another row has that upload, and the
/// next number of the sequence.
pub proof fn facts_of_a_key_are_read(facts: TargetFacts, t: Tables, key: Seq<char>)
    ensures
        facts.of(t, key) <==> {
            &&& t.objects.contains_key(key) ==> facts.etag == Some(t.objects[key].etag)
                && facts.content_id == t.objects[key].content_id
            &&& !t.objects.contains_key(key) ==> facts.etag is None && facts.content_id is None
            &&& facts.content_id matches Some(id) ==> (facts.shared <==> exists|k: Seq<char>|
                k != key && #[trigger] t.objects.contains_key(k) && t.objects[k].content_id == Some(
                    id,
                ))
            &&& facts.next_etag == t.next_etag
        },
{
    match facts.content_id {
        Some(id) => {
            let rest = t.objects.remove(key);
            if crate::model::referenced(rest, id) {
                let k = choose|k: Seq<char>| #[trigger]
                    rest.contains_key(k) && rest[k].content_id == Some(id);
                assert(k != key && t.objects.contains_key(k) && t.objects[k].content_id == Some(
                    id,
                ));
            }
            if exists|k: Seq<char>|
                k != key && #[trigger] t.objects.contains_key(k) && t.objects[k].content_id == Some(
                    id,
                ) {
                let k = choose|k: Seq<char>|
                    k != key && #[trigger] t.objects.contains_key(k) && t.objects[k].content_id
                        == Some(id);
                assert(rest.contains_key(k) && rest[k].content_id == Some(id));
            }
        },
        None => {},
    }
}

/// The facts of an upload hold of the tables exactly where they are what its row
/// holds, or where there is none.
pub proof fn facts_of_an_upload_are_read(t: Tables, id: i64, upload: Option<UploadFacts>)
    ensures
        upload_is(t, id, upload) <==> {
            &&& upload is Some <==> t.uploads.contains_key(id)
            &&& upload matches Some(facts) ==> facts.state == t.uploads[id].state
                && facts.touched_ms == t.uploads[id].touched_ms
        },
{
}

/// The facts of an upload to reclaim hold of the tables where its row is what was
/// read, and the chunks are up to three different ones of it, all of them where they
/// are fewer than three.
pub proof fn facts_of_reclaiming_are_read(facts: GarbageFacts, t: Tables)
    requires
        upload_is(t, facts.id, facts.upload),
        facts.chunks@.len() <= 3,
        facts.chunks@.no_duplicates(),
        forall|i: int|
            0 <= i < facts.chunks@.len() ==> t.chunks.contains_key(
                (facts.id, (#[trigger] facts.chunks@[i]).0, facts.chunks@[i].1),
            ),
        facts.chunks@.len() < 3 ==> forall|part: i64, chunk: i64| #[trigger]
            t.chunks.contains_key((facts.id, part, chunk)) ==> facts.chunks@.contains((part, chunk)),
    ensures
        facts.of(t),
{
}

/// The rows of the parts hold of the tables where they are in order of their numbers,
/// each with the size of its row, and none is left out.
pub proof fn facts_of_parts_are_read(t: Tables, id: i64, sizes: Seq<(i64, i64)>)
    requires
        forall|i: int, j: int|
            0 <= i < j < sizes.len() ==> (#[trigger] sizes[i]).0 < (#[trigger] sizes[j]).0,
        forall|i: int|
            0 <= i < sizes.len() ==> t.parts.contains_key((id, (#[trigger] sizes[i]).0))
                && t.parts[(id, sizes[i].0)].size == sizes[i].1,
        forall|part: i64| #[trigger]
            t.parts.contains_key((id, part)) ==> exists|i: int|
                0 <= i < sizes.len() && (#[trigger] sizes[i]).0 == part,
    ensures
        parts_are(t, id, sizes),
{
}

/// A store knows that the next id is free where none above the last one is there.
pub proof fn well_formed_stores_have_given_their_ids(t: Tables)
    ensures
        t.wf() ==> t.ids_were_given(),
        t.ids_were_given() <==> 0 <= t.last_upload && forall|id: i64| #[trigger]
            t.uploads.contains_key(id) ==> id <= t.last_upload,
{
}

/// A part is as many chunks as its bytes need: each holds at least one byte and at
/// most a mebibyte, every one but the last is full, and together they hold the part.
pub proof fn chunks_hold_the_part(size: int, chunk: int)
    requires
        0 <= size,
        0 <= chunk < chunk_count(size),
    ensures
        (chunk_count(size) - 1) * 1_048_576 < size <= chunk_count(size) * 1_048_576,
        0 < chunk_length(size, chunk) <= 1_048_576,
        chunk < chunk_count(size) - 1 ==> chunk_length(size, chunk) == 1_048_576,
        chunk == chunk_count(size) - 1 ==> chunk * 1_048_576 + chunk_length(size, chunk) == size,
        chunk_count(0) == 0,
{
}

/// A query selects a key exactly where it lies from the lower bound on, below the
/// upper one, and behind the cursor.
pub proof fn queries_select_by_order(query: KeyQuery, key: Seq<char>)
    ensures
        query.selects(key) <==> {
            &&& !before(key, query.lower@)
            &&& query.upper matches Some(upper) ==> before(key, upper@)
            &&& query.after matches Some(after) ==> before(after@, key)
        },
{
}

/// A batch is told where every key is a path, each object as its row says.
pub proof fn batches_are_told_row_by_row(batch: Seq<StoredObjectView>, i: int)
    requires
        0 <= i < batch.len(),
    ensures
        all_listable(batch) ==> canonical(batch[i].key) is Some,
        all_listable(batch) ==> meta_of(batch[i]) == Some(batch_metas(batch)[i]),
        batch_metas(batch).len() == batch.len(),
        (forall|j: int| 0 <= j < batch.len() ==> canonical((#[trigger] batch[j]).key) is Some)
            ==> all_listable(batch),
{
    if all_listable(batch) {
        assert(meta_of(batch[i]) is Some);
    }
}

/// What is stored of an attribute is its word, its name and its value, and what is
/// read of it is what these stand for; the value is never another one.
pub proof fn attributes_keep_their_values(pair: AttributePair, stored: StoredAttribute)
    ensures
        is_stored_form(stored, pair) ==> stored.value@ == pair.value@,
        is_read_form(pair, stored) <==> attribute_of(stored.kind@, text_of(stored.name)) == Some(
            pair.attribute@,
        ) && pair.value@ == stored.value@,
{
}

/// Stored attributes are all known exactly where every word is one of the seven.
pub proof fn known_attributes_have_known_words(stored: Seq<StoredAttribute>)
    ensures
        all_known(stored) <==> forall|i: int|
            0 <= i < stored.len() ==> {
                let kind = (#[trigger] stored[i]).kind@;
                kind == "content-disposition"@ || kind == "content-encoding"@ || kind
                    == "content-language"@ || kind == "content-type"@ || kind == "cache-control"@
                    || kind == "storage-class"@ || kind == "metadata"@
            },
{
}

/// Every second of the calendar, with any nanosecond behind it, is a time.
pub proof fn calendar_has_every_second(time: CalendarTime)
    requires
        -8_334_601_228_800 <= time.seconds <= 8_210_266_876_799,
        time.nanos < 1_000_000_000,
    ensures
        time.is_valid(),
{
}

} // verus!
