//! The tables of the store, the changes made to them, and what they hold.
use vstd::prelude::*;

verus! {

/// The most bytes that one chunk row holds.
pub const CHUNK_SIZE: usize = 1_048_576;

/// The state of an upload that may still grow.
pub const ACTIVE: i64 = 0;

/// The state of an upload that objects refer to.
pub const PUBLISHED: i64 = 1;

/// The state of an upload that only waits to be reclaimed.
pub const RETIRED: i64 = 2;

/// The first ETag of a store.
pub const FIRST_ETAG: i64 = 1;

/// One object row.
#[verifier::ext_equal]
pub struct ObjectRow {
    pub body: Seq<u8>,
    pub etag: i64,
    pub modified_ms: i64,
    pub attributes: Seq<char>,
    pub size: Option<i64>,
    pub content_id: Option<i64>,
}

/// One upload row.
#[verifier::ext_equal]
pub struct UploadRow {
    pub state: i64,
    pub touched_ms: i64,
}

/// One part row. The offset is negative until the upload is published.
#[verifier::ext_equal]
pub struct PartRow {
    pub size: i64,
    pub offset: i64,
}

/// The tables of one store.
#[verifier::ext_equal]
pub struct Tables {
    pub objects: Map<Seq<char>, ObjectRow>,
    pub next_etag: i64,
    pub uploads: Map<i64, UploadRow>,
    pub last_upload: i64,
    pub parts: Map<(i64, i64), PartRow>,
    pub chunks: Map<(i64, i64, i64), Seq<u8>>,
}

/// The tables of a new store.
pub open spec fn new_store() -> Tables {
    Tables {
        objects: Map::empty(),
        next_etag: FIRST_ETAG,
        uploads: Map::empty(),
        last_upload: 0,
        parts: Map::empty(),
        chunks: Map::empty(),
    }
}

/// One statement of a transaction.
#[derive(Debug)]
pub enum Change {
    /// Set the next ETag of the sequence.
    NextEtag { next: i64 },
    /// Insert or replace an object row.
    WriteObject {
        key: String,
        body: Vec<u8>,
        etag: i64,
        modified_ms: i64,
        attributes: String,
        size: i64,
        content_id: Option<i64>,
    },
    /// Insert or replace an object row with what another row holds.
    CopyObject { from: String, to: String, etag: i64, modified_ms: i64 },
    /// Delete an object row.
    DeleteObject { key: String },
    /// Insert an active upload row under the next id.
    AddUpload { touched_ms: i64 },
    /// Set the state of an upload row.
    SetState { id: i64, state: i64 },
    /// Set the time of the last progress of an upload row.
    Touch { id: i64, touched_ms: i64 },
    /// Insert a chunk row.
    AddChunk { id: i64, part: i64, chunk: i64, body: Vec<u8> },
    /// Insert a part row without an offset.
    AddPart { id: i64, part: i64, size: i64 },
    /// Set the offset of a part row.
    SetOffset { id: i64, part: i64, offset: i64 },
    /// Delete a chunk row.
    DropChunk { id: i64, part: i64, chunk: i64 },
    /// Delete every part row of an upload.
    DropParts { id: i64 },
    /// Delete an upload row.
    DropUpload { id: i64 },
}

/// The uploads with the state of one of them set.
pub open spec fn with_state(uploads: Map<i64, UploadRow>, id: i64, state: i64) -> Map<
    i64,
    UploadRow,
> {
    if uploads.contains_key(id) {
        uploads.insert(id, UploadRow { state, ..uploads[id] })
    } else {
        uploads
    }
}

/// The tables after one change that fits.
pub open spec fn apply(t: Tables, change: Change) -> Tables {
    match change {
        Change::NextEtag { next } => Tables { next_etag: next, ..t },
        Change::WriteObject { key, body, etag, modified_ms, attributes, size, content_id } => Tables {
            objects: t.objects.insert(
                key@,
                ObjectRow {
                    body: body@,
                    etag,
                    modified_ms,
                    attributes: attributes@,
                    size: Some(size),
                    content_id,
                },
            ),
            ..t
        },
        Change::CopyObject { from, to, etag, modified_ms } => if t.objects.contains_key(from@) {
            Tables {
                objects: t.objects.insert(
                    to@,
                    ObjectRow { etag, modified_ms, ..t.objects[from@] },
                ),
                ..t
            }
        } else {
            t
        },
        Change::DeleteObject { key } => Tables { objects: t.objects.remove(key@), ..t },
        Change::AddUpload { touched_ms } => Tables {
            uploads: t.uploads.insert(
                (t.last_upload + 1) as i64,
                UploadRow { state: ACTIVE, touched_ms },
            ),
            last_upload: (t.last_upload + 1) as i64,
            ..t
        },
        Change::SetState { id, state } => Tables { uploads: with_state(t.uploads, id, state), ..t },
        Change::Touch { id, touched_ms } => if t.uploads.contains_key(id) {
            Tables {
                uploads: t.uploads.insert(id, UploadRow { touched_ms, ..t.uploads[id] }),
                ..t
            }
        } else {
            t
        },
        Change::AddChunk { id, part, chunk, body } => Tables {
            chunks: t.chunks.insert((id, part, chunk), body@),
            ..t
        },
        Change::AddPart { id, part, size } => Tables {
            parts: t.parts.insert((id, part), PartRow { size, offset: (-1) as i64 }),
            ..t
        },
        Change::SetOffset { id, part, offset } => if t.parts.contains_key((id, part)) {
            Tables {
                parts: t.parts.insert((id, part), PartRow { offset, ..t.parts[(id, part)] }),
                ..t
            }
        } else {
            t
        },
        Change::DropChunk { id, part, chunk } => Tables {
            chunks: t.chunks.remove((id, part, chunk)),
            ..t
        },
        Change::DropParts { id } => Tables {
            parts: Map::new(
                |at: (i64, i64)| t.parts.contains_key(at) && at.0 != id,
                |at: (i64, i64)| t.parts[at],
            ),
            ..t
        },
        Change::DropUpload { id } => Tables { uploads: t.uploads.remove(id), ..t },
    }
}

/// The statement can be carried out: a chunk or part row to insert is not there yet,
/// and an id is left for a new upload. Every other statement can.
pub open spec fn fits(t: Tables, change: Change) -> bool {
    match change {
        Change::AddUpload { .. } => t.last_upload < i64::MAX,
        Change::AddChunk { id, part, chunk, .. } => !t.chunks.contains_key((id, part, chunk)),
        Change::AddPart { id, part, .. } => !t.parts.contains_key((id, part)),
        _ => true,
    }
}

/// The tables after some statements, each of which fits.
pub open spec fn applied(t: Tables, changes: Seq<Change>) -> Tables
    decreases changes.len(),
{
    if changes.len() == 0 {
        t
    } else {
        apply(applied(t, changes.drop_last()), changes.last())
    }
}

/// The transaction goes through: each statement fits the tables that those before it
/// leave.
pub open spec fn commits(t: Tables, changes: Seq<Change>) -> bool
    decreases changes.len(),
{
    changes.len() == 0 || (commits(t, changes.drop_last()) && fits(
        applied(t, changes.drop_last()),
        changes.last(),
    ))
}

/// The tables after a transaction: it takes effect as a whole, or not at all.
pub open spec fn run(t: Tables, changes: Seq<Change>) -> Tables {
    if commits(t, changes) {
        applied(t, changes)
    } else {
        t
    }
}

/// One more statement.
pub proof fn applied_push(t: Tables, changes: Seq<Change>, change: Change)
    ensures
        applied(t, changes.push(change)) == apply(applied(t, changes), change),
        commits(t, changes.push(change)) == (commits(t, changes) && fits(
            applied(t, changes),
            change,
        )),
{
    assert(changes.push(change).drop_last() =~= changes);
}

/// No statement inserts a row that could be there already, or needs a new id.
pub open spec fn always_fit(changes: Seq<Change>) -> bool {
    forall|i: int|
        0 <= i < changes.len() ==> !((#[trigger] changes[i]) is AddUpload || changes[i] is AddChunk
            || changes[i] is AddPart)
}

/// A transaction of such statements goes through on any tables.
pub proof fn fitting_commits(t: Tables, changes: Seq<Change>)
    requires
        always_fit(changes),
    ensures
        commits(t, changes),
        run(t, changes) == applied(t, changes),
    decreases changes.len(),
{
    if changes.len() > 0 {
        let earlier = changes.drop_last();
        assert forall|i: int| 0 <= i < earlier.len() implies !((#[trigger] earlier[i]) is AddUpload
            || earlier[i] is AddChunk || earlier[i] is AddPart) by {
            assert(earlier[i] == changes[i]);
        }
        fitting_commits(t, earlier);
    }
}

/// How many chunks hold a part.
pub open spec fn chunk_count(size: int) -> int {
    (size + CHUNK_SIZE - 1) / CHUNK_SIZE as int
}

/// How many bytes the chunk of a part holds.
pub open spec fn chunk_length(size: int, chunk: int) -> int {
    if size - chunk * CHUNK_SIZE < CHUNK_SIZE {
        size - chunk * CHUNK_SIZE
    } else {
        CHUNK_SIZE as int
    }
}

/// The bytes of the first `n` chunks of a part.
pub open spec fn joined(
    chunks: Map<(i64, i64, i64), Seq<u8>>,
    id: i64,
    part: i64,
    n: nat,
) -> Seq<u8>
    decreases n,
{
    if n == 0 {
        Seq::empty()
    } else {
        joined(chunks, id, part, (n - 1) as nat) + chunks[(id, part, (n - 1) as i64)]
    }
}

/// The bytes of a part.
pub open spec fn part_bytes(t: Tables, id: i64, part: i64) -> Seq<u8> {
    joined(t.chunks, id, part, chunk_count(t.parts[(id, part)].size as int) as nat)
}

/// Every chunk of the part is there, each with the bytes that it owes.
pub open spec fn part_complete(t: Tables, id: i64, part: i64) -> bool {
    let size = t.parts[(id, part)].size as int;
    &&& size >= 0
    &&& forall|chunk: i64|
        0 <= chunk < chunk_count(size) ==> #[trigger] t.chunks.contains_key((id, part, chunk))
            && t.chunks[(id, part, chunk)].len() == chunk_length(size, chunk as int)
}

/// The bytes of the first `n` parts of an upload.
pub open spec fn upload_bytes(t: Tables, id: i64, n: nat) -> Seq<u8>
    decreases n,
{
    if n == 0 {
        Seq::empty()
    } else {
        upload_bytes(t, id, (n - 1) as nat) + part_bytes(t, id, (n - 1) as i64)
    }
}

/// The sizes of the first `n` parts of an upload together.
pub open spec fn sizes_before(parts: Map<(i64, i64), PartRow>, id: i64, n: nat) -> int
    decreases n,
{
    if n == 0 {
        0
    } else {
        sizes_before(parts, id, (n - 1) as nat) + parts[(id, (n - 1) as i64)].size
    }
}

/// The parts of the upload are numbered from nothing up to `n`.
pub open spec fn has_parts(parts: Map<(i64, i64), PartRow>, id: i64, n: nat) -> bool {
    &&& n <= i64::MAX
    &&& forall|part: i64| #[trigger] parts.contains_key((id, part)) <==> 0 <= part < n
}

/// How many parts an upload has, where they are numbered without a gap.
pub open spec fn part_count(parts: Map<(i64, i64), PartRow>, id: i64) -> nat {
    choose|n: nat| has_parts(parts, id, n)
}

/// The parts of the upload are complete and lie end to end over `size` bytes.
pub open spec fn laid_out(t: Tables, id: i64, size: int) -> bool {
    let n = part_count(t.parts, id);
    &&& has_parts(t.parts, id, n)
    &&& forall|part: i64|
        0 <= part < n ==> part_complete(t, id, part) && (#[trigger] t.parts[(id, part)]).offset
            == sizes_before(t.parts, id, part as nat)
    &&& sizes_before(t.parts, id, n) == size
}

/// The bytes of an object: the body of its row, or the parts of the upload that
/// it refers to.
pub open spec fn content(t: Tables, key: Seq<char>) -> Seq<u8> {
    match t.objects[key].content_id {
        None => t.objects[key].body,
        Some(id) => upload_bytes(t, id, part_count(t.parts, id)),
    }
}

/// Some object refers to the upload.
pub open spec fn referenced(objects: Map<Seq<char>, ObjectRow>, id: i64) -> bool {
    exists|key: Seq<char>| #[trigger]
        objects.contains_key(key) && objects[key].content_id == Some(id)
}

/// The row is readable: an inline body of its stated size, or a published upload
/// laid out over it.
pub open spec fn row_ok(t: Tables, row: ObjectRow) -> bool {
    match row.content_id {
        None => row.size matches Some(size) ==> size == row.body.len(),
        Some(id) => {
            &&& t.uploads.contains_key(id)
            &&& t.uploads[id].state == PUBLISHED
            &&& row.size matches Some(size) && laid_out(t, id, size as int)
        },
    }
}

impl Tables {
    /// No upload has an id above the last one that was given, so that the next one
    /// is free.
    pub open spec fn ids_were_given(self) -> bool {
        &&& 0 <= self.last_upload
        &&& forall|id: i64| #[trigger] self.uploads.contains_key(id) ==> id <= self.last_upload
    }

    /// What every operation keeps: ETags lie below the sequence and differ, every
    /// object is readable, an upload is published exactly while an object refers
    /// to it, the id of the next upload is free, and no part or chunk is without its
    /// upload.
    pub open spec fn wf(self) -> bool {
        &&& forall|key: Seq<char>| #[trigger]
            self.objects.contains_key(key) ==> self.objects[key].etag < self.next_etag && row_ok(
                self,
                self.objects[key],
            )
        &&& forall|a: Seq<char>, b: Seq<char>|
            #![trigger self.objects[a], self.objects[b]]
            self.objects.contains_key(a) && self.objects.contains_key(b) && a != b
                ==> self.objects[a].etag != self.objects[b].etag
        &&& 0 <= self.last_upload
        &&& forall|id: i64| #[trigger]
            self.uploads.contains_key(id) ==> {
                &&& id <= self.last_upload
                &&& ACTIVE <= self.uploads[id].state <= RETIRED
                &&& self.uploads[id].state == PUBLISHED ==> referenced(self.objects, id)
            }
        &&& forall|id: i64, part: i64| #[trigger]
            self.parts.contains_key((id, part)) ==> self.uploads.contains_key(id) && (
            self.uploads[id].state == ACTIVE ==> part_complete(self, id, part))
        &&& forall|id: i64, part: i64, chunk: i64| #[trigger]
            self.chunks.contains_key((id, part, chunk)) ==> self.uploads.contains_key(id)
    }
}

} // verus!
