//! Staged uploads: parts written in chunks, and their publication as one object.
use crate::error::StoreError;
use crate::model::{
    always_fit, applied, applied_push, chunk_count, chunk_length, commits, fitting_commits,
    has_parts, run, sizes_before, with_state, Change, ObjectRow, PartRow, Tables, UploadRow, ACTIVE, CHUNK_SIZE, PUBLISHED,
    RETIRED,
};
use crate::storage::{
    check_mode, content_of, is_refusal, next_etag, put_result, reference_elsewhere, refuses, retire,
    retired, upload_is, PutMode, PutResult, TargetFacts, UploadFacts,
};
use crate::store_laws::complete_upload_is_published;
use crate::text::signed_decimal;
use vstd::prelude::*;

verus! {

/// The most parts of one upload. Parts need not arrive in order.
pub const MAX_PARTS: usize = 10_000;

/// The upload may still grow.
pub open spec fn is_active(upload: Option<UploadFacts>) -> bool {
    upload matches Some(upload) && upload.state == ACTIVE
}

/// The uploads with progress on one of them.
pub open spec fn touched(uploads: Map<i64, UploadRow>, id: i64, now_ms: i64) -> Map<
    i64,
    UploadRow,
> {
    uploads.insert(id, UploadRow { touched_ms: now_ms, ..uploads[id] })
}

/// The tables once an upload has begun.
pub open spec fn begun(t: Tables, now_ms: i64) -> Tables {
    Tables {
        uploads: t.uploads.insert(
            (t.last_upload + 1) as i64,
            UploadRow { state: ACTIVE, touched_ms: now_ms },
        ),
        last_upload: (t.last_upload + 1) as i64,
        ..t
    }
}

/// The tables once a chunk of an upload is written.
pub open spec fn chunk_written(
    t: Tables,
    id: i64,
    part: i64,
    chunk: i64,
    body: Seq<u8>,
    now_ms: i64,
) -> Tables {
    Tables {
        uploads: touched(t.uploads, id, now_ms),
        chunks: t.chunks.insert((id, part, chunk), body),
        ..t
    }
}

/// The tables once a part of an upload is recorded.
pub open spec fn part_recorded(t: Tables, id: i64, part: i64, size: i64, now_ms: i64) -> Tables {
    Tables {
        uploads: touched(t.uploads, id, now_ms),
        parts: t.parts.insert((id, part), PartRow { size, offset: (-1) as i64 }),
        ..t
    }
}

/// The tables once an upload is aborted.
pub open spec fn aborted(t: Tables, id: i64) -> Tables {
    if t.uploads.contains_key(id) && t.uploads[id].state == ACTIVE {
        Tables { uploads: with_state(t.uploads, id, RETIRED), ..t }
    } else {
        t
    }
}

/// Begins an upload: the transaction. The new upload has the id behind the last
/// one; where no id is left, the transaction fails and changes nothing.
pub fn begin_upload(now_ms: i64) -> (changes: Vec<Change>)
    ensures
        forall|t: Tables| #[trigger]
            t.ids_were_given() ==> {
                &&& commits(t, changes@) <==> t.last_upload < i64::MAX
                &&& run(t, changes@) == if t.last_upload < i64::MAX {
                    begun(t, now_ms)
                } else {
                    t
                }
            },
{
    let mut changes: Vec<Change> = Vec::new();
    changes.push(Change::AddUpload { touched_ms: now_ms });
    proof {
        assert forall|t: Tables| #[trigger] t.ids_were_given() implies {
            &&& commits(t, changes@) <==> t.last_upload < i64::MAX
            &&& run(t, changes@) == if t.last_upload < i64::MAX {
                begun(t, now_ms)
            } else {
                t
            }
        } by {
            applied_push(t, Seq::empty(), changes@[0]);
            assert(changes@ =~= Seq::<Change>::empty().push(changes@[0]));
        }
    }
    changes
}

/// Whether an upload may still grow.
pub fn touch_upload(upload: Option<UploadFacts>) -> (checked: Result<(), StoreError>)
    ensures
        checked is Ok <==> is_active(upload),
        checked matches Err(error) ==> error is UploadGone,
{
    match upload {
        Some(upload) => if upload.state == ACTIVE {
            Ok(())
        } else {
            Err(StoreError::UploadGone)
        },
        None => Err(StoreError::UploadGone),
    }
}

/// Writes one chunk of a part: the transaction. Where the chunk is there already, the
/// transaction fails and changes nothing.
pub fn write_chunk(
    id: i64,
    part: i64,
    chunk: i64,
    body: Vec<u8>,
    upload: Option<UploadFacts>,
    now_ms: i64,
) -> (written: Result<Vec<Change>, StoreError>)
    ensures
        written is Ok <==> is_active(upload),
        written matches Err(error) ==> error is UploadGone,
        written matches Ok(changes) ==> forall|t: Tables| #[trigger]
            upload_is(t, id, upload) ==> {
                let there = t.chunks.contains_key((id, part, chunk));
                &&& commits(t, changes@) <==> !there
                &&& run(t, changes@) == if there {
                    t
                } else {
                    chunk_written(t, id, part, chunk, body@, now_ms)
                }
            },
{
    match touch_upload(upload) {
        Ok(()) => {},
        Err(error) => return Err(error),
    }
    let mut changes: Vec<Change> = Vec::new();
    changes.push(Change::Touch { id, touched_ms: now_ms });
    let ghost first = changes@;
    changes.push(Change::AddChunk { id, part, chunk, body });
    proof {
        assert forall|t: Tables| #[trigger] upload_is(t, id, upload) implies {
            let there = t.chunks.contains_key((id, part, chunk));
            &&& commits(t, changes@) <==> !there
            &&& run(t, changes@) == if there {
                t
            } else {
                chunk_written(t, id, part, chunk, body@, now_ms)
            }
        } by {
            assert(first =~= Seq::<Change>::empty().push(first[0]));
            applied_push(t, Seq::empty(), first[0]);
            applied_push(t, first, changes@.last());
        }
    }
    Ok(changes)
}

/// Records a part whose chunks are all written: the transaction. Where the part is
/// there already, the transaction fails and changes nothing.
pub fn record_part(
    id: i64,
    part: i64,
    size: i64,
    upload: Option<UploadFacts>,
    now_ms: i64,
) -> (recorded: Result<Vec<Change>, StoreError>)
    ensures
        recorded is Ok <==> is_active(upload),
        recorded matches Err(error) ==> error is UploadGone,
        recorded matches Ok(changes) ==> forall|t: Tables| #[trigger]
            upload_is(t, id, upload) ==> {
                let there = t.parts.contains_key((id, part));
                &&& commits(t, changes@) <==> !there
                &&& run(t, changes@) == if there {
                    t
                } else {
                    part_recorded(t, id, part, size, now_ms)
                }
            },
{
    match touch_upload(upload) {
        Ok(()) => {},
        Err(error) => return Err(error),
    }
    let mut changes: Vec<Change> = Vec::new();
    changes.push(Change::Touch { id, touched_ms: now_ms });
    let ghost first = changes@;
    changes.push(Change::AddPart { id, part, size });
    proof {
        assert forall|t: Tables| #[trigger] upload_is(t, id, upload) implies {
            let there = t.parts.contains_key((id, part));
            &&& commits(t, changes@) <==> !there
            &&& run(t, changes@) == if there {
                t
            } else {
                part_recorded(t, id, part, size, now_ms)
            }
        } by {
            assert(first =~= Seq::<Change>::empty().push(first[0]));
            applied_push(t, Seq::empty(), first[0]);
            applied_push(t, first, changes@.last());
        }
    }
    Ok(changes)
}

/// Aborts an upload that is still active: the transaction.
pub fn abort_upload(id: i64, upload: Option<UploadFacts>) -> (changes: Vec<Change>)
    ensures
        forall|t: Tables| #[trigger]
            upload_is(t, id, upload) ==> commits(t, changes@) && run(t, changes@) == aborted(
                t,
                id,
            ),
{
    let mut changes: Vec<Change> = Vec::new();
    let active = match upload {
        Some(upload) => upload.state == ACTIVE,
        None => false,
    };
    if active {
        changes.push(Change::SetState { id, state: RETIRED });
        proof {
            assert forall|t: Tables| #[trigger] upload_is(t, id, upload) implies commits(
                t,
                changes@,
            ) && run(t, changes@) == aborted(t, id) by {
                assert(changes@ =~= Seq::<Change>::empty().push(changes@[0]));
                applied_push(t, Seq::empty(), changes@[0]);
            }
        }
    }
    changes
}

/// The part rows of an upload in order of their numbers, each with its size.
pub open spec fn parts_are(t: Tables, id: i64, sizes: Seq<(i64, i64)>) -> bool {
    &&& forall|i: int, j: int|
        0 <= i < j < sizes.len() ==> (#[trigger] sizes[i]).0 < (#[trigger] sizes[j]).0
    &&& forall|i: int|
        0 <= i < sizes.len() ==> t.parts.contains_key((id, (#[trigger] sizes[i]).0)) && t.parts[(
            id,
            sizes[i].0,
        )].size == sizes[i].1
    &&& forall|part: i64| #[trigger]
        t.parts.contains_key((id, part)) ==> exists|i: int|
            0 <= i < sizes.len() && (#[trigger] sizes[i]).0 == part
}

/// Every part from the first to the last but one of `parts` is there, and no
/// other.
pub open spec fn all_parts(sizes: Seq<(i64, i64)>, parts: nat) -> bool {
    &&& sizes.len() == parts
    &&& forall|i: int| 0 <= i < sizes.len() ==> (#[trigger] sizes[i]).0 as int == i
}

/// The sizes of the first `n` parts together.
pub open spec fn size_sum(sizes: Seq<(i64, i64)>, n: nat) -> int
    decreases n,
{
    if n == 0 {
        0
    } else {
        size_sum(sizes, (n - 1) as nat) + sizes[n - 1].1
    }
}

/// The sizes of the first parts, for some count of them, are more than an object
/// can have.
pub open spec fn too_large(sizes: Seq<(i64, i64)>) -> bool {
    exists|n: nat|
        n <= sizes.len() && !(i64::MIN <= #[trigger] size_sum(sizes, n) <= i64::MAX)
}

/// The part rows with the first `n` parts of one upload laid end to end.
pub open spec fn with_offsets(
    parts: Map<(i64, i64), PartRow>,
    id: i64,
    sizes: Seq<(i64, i64)>,
    n: nat,
) -> Map<(i64, i64), PartRow> {
    Map::new(
        |at: (i64, i64)| parts.contains_key(at),
        |at: (i64, i64)|
            if at.0 == id && 0 <= at.1 < n {
                PartRow { offset: size_sum(sizes, at.1 as nat) as i64, ..parts[at] }
            } else {
                parts[at]
            },
    )
}

/// The row of an object whose content is a published upload.
pub open spec fn staged_row(
    etag: i64,
    id: i64,
    size: i64,
    attributes: Seq<char>,
    modified_ms: i64,
) -> ObjectRow {
    ObjectRow {
        body: Seq::empty(),
        etag,
        modified_ms,
        attributes,
        size: Some(size),
        content_id: Some(id),
    }
}

/// The tables once an upload is published under a key.
pub open spec fn published(
    t: Tables,
    id: i64,
    sizes: Seq<(i64, i64)>,
    key: Seq<char>,
    attributes: Seq<char>,
    touched_ms: i64,
    modified_ms: i64,
) -> Tables {
    let size = size_sum(sizes, sizes.len()) as i64;
    let objects = t.objects.insert(
        key,
        staged_row(t.next_etag, id, size, attributes, modified_ms),
    );
    Tables {
        objects,
        next_etag: (t.next_etag + 1) as i64,
        uploads: retired(
            objects,
            t.uploads.insert(id, UploadRow { state: PUBLISHED, touched_ms }),
            content_of(t, key),
        ),
        parts: with_offsets(t.parts, id, sizes, sizes.len()),
        ..t
    }
}

/// The first `n` parts of the upload have sizes, which together are one that an object
/// can have.
pub open spec fn sizes_fit(t: Tables, id: i64, n: nat) -> bool {
    &&& forall|part: i64|
        t.parts.contains_key((id, part)) ==> (#[trigger] t.parts[(id, part)]).size >= 0
    &&& sizes_before(t.parts, id, n) <= i64::MAX
}

/// Whether every part from the first to the last but one of `parts` is there,
/// and no other.
fn has_all_parts(sizes: &Vec<(i64, i64)>, parts: usize) -> (yes: bool)
    ensures
        yes == all_parts(sizes@, parts as nat),
{
    if sizes.len() != parts {
        return false;
    }
    let mut i: usize = 0;
    while i < sizes.len()
        invariant
            0 <= i <= sizes@.len(),
            forall|j: int| 0 <= j < i ==> (#[trigger] sizes@[j]).0 as int == j,
        decreases sizes@.len() - i,
    {
        if sizes[i].0 < 0 || sizes[i].0 as u64 != i as u64 {
            assert(sizes@[i as int].0 as int != i);
            return false;
        }
        i = i + 1;
    }
    true
}

/// Publishes an upload as the object under a key: the transaction, and what the
/// write answers. Every part must have been recorded; the parts are laid end to
/// end, and the object that stood under the key gives up its upload.
pub fn publish_upload(
    id: i64,
    parts: usize,
    key: &str,
    attributes: String,
    mode: &PutMode,
    upload: Option<UploadFacts>,
    sizes: &Vec<(i64, i64)>,
    target: TargetFacts,
    touched_ms: i64,
    modified_ms: i64,
) -> (put: Result<(Vec<Change>, PutResult), StoreError>)
    ensures
        put is Ok <==> {
            &&& is_active(upload)
            &&& all_parts(sizes@, parts as nat)
            &&& !too_large(sizes@)
            &&& !refuses(*mode, target.etag)
            &&& target.next_etag < i64::MAX
        },
        forall|t: Tables| #[trigger]
            parts_are(t, id, sizes@) && has_parts(t.parts, id, parts as nat) && sizes_fit(
                t,
                id,
                parts as nat,
            ) && (upload matches Some(facts) && facts.state == 0) && mode is Overwrite
                && target.next_etag < i64::MAX ==> put is Ok,
        put matches Err(error) ==> {
            if !is_active(upload) {
                error is UploadGone
            } else if !all_parts(sizes@, parts as nat) {
                error is MissingParts
            } else if too_large(sizes@) {
                error is SizeOverflow
            } else if refuses(*mode, target.etag) {
                is_refusal(error, *mode, key@)
            } else {
                error is SequenceExhausted
            }
        },
        put matches Ok((changes, result)) ==> {
            &&& result.e_tag@ == signed_decimal(target.next_etag as int)
            &&& forall|t: Tables|
                #![trigger target.of(t, key@)]
                upload_is(t, id, upload) && parts_are(t, id, sizes@) && target.of(t, key@)
                    ==> commits(t, changes@) && run(t, changes@) == published(
                    t,
                    id,
                    sizes@,
                    key@,
                    attributes@,
                    touched_ms,
                    modified_ms,
                )
        },
{
    proof {
        assert forall|t: Tables| #[trigger]
            parts_are(t, id, sizes@) && has_parts(t.parts, id, parts as nat) && sizes_fit(
                t,
                id,
                parts as nat,
            ) && (upload matches Some(facts) && facts.state == 0) implies is_active(upload)
            && all_parts(sizes@, parts as nat) && !too_large(sizes@) by {
            complete_upload_is_published(
                t,
                id,
                sizes@,
                parts as nat,
                upload.unwrap(),
                target.etag,
            );
        }
    }
    match touch_upload(upload) {
        Ok(()) => {},
        Err(error) => return Err(error),
    }
    if !has_all_parts(sizes, parts) {
        return Err(StoreError::MissingParts);
    }
    let mut changes: Vec<Change> = Vec::new();
    changes.push(Change::Touch { id, touched_ms });
    let ghost first = changes@;
    proof {
        assert forall|t: Tables|
            #![trigger upload_is(t, id, upload)]
            upload_is(t, id, upload) && parts_are(t, id, sizes@) implies applied(t, changes@) == (
        Tables {
            uploads: touched(t.uploads, id, touched_ms),
            parts: with_offsets(t.parts, id, sizes@, 0),
            ..t
        }) by {
            assert(first =~= Seq::<Change>::empty().push(first[0]));
            applied_push(t, Seq::empty(), first[0]);
            assert(with_offsets(t.parts, id, sizes@, 0) =~= t.parts);
        }
    }
    let mut size: i64 = 0;
    let mut i: usize = 0;
    while i < sizes.len()
        invariant
            0 <= i <= sizes@.len(),
            size == size_sum(sizes@, i as nat),
            always_fit(changes@),
            forall|n: nat|
                n <= i ==> i64::MIN <= #[trigger] size_sum(sizes@, n) <= i64::MAX,
            forall|t: Tables|
                #![trigger upload_is(t, id, upload)]
                upload_is(t, id, upload) && parts_are(t, id, sizes@) ==> applied(t, changes@) == (
                Tables {
                    uploads: touched(t.uploads, id, touched_ms),
                    parts: with_offsets(t.parts, id, sizes@, i as nat),
                    ..t
                }),
        decreases sizes@.len() - i,
    {
        let (part, part_size) = sizes[i];
        let ghost placed = changes@;
        changes.push(Change::SetOffset { id, part, offset: size });
        proof {
            assert forall|t: Tables|
                #![trigger upload_is(t, id, upload)]
                upload_is(t, id, upload) && parts_are(t, id, sizes@) implies applied(t, changes@) == (
            Tables {
                uploads: touched(t.uploads, id, touched_ms),
                parts: with_offsets(t.parts, id, sizes@, (i + 1) as nat),
                ..t
            }) by {
                applied_push(t, placed, changes@.last());
                assert(sizes@[i as int] == (part, part_size));
                assert(t.parts.contains_key((id, part)));
                let seen = with_offsets(t.parts, id, sizes@, i as nat);
                assert(seen.contains_key((id, part)));
                assert(seen.insert((id, part), PartRow { offset: size, ..seen[(id, part)] })
                    =~= with_offsets(t.parts, id, sizes@, (i + 1) as nat));
            }
        }
        match size.checked_add(part_size) {
            Some(sum) => {
                size = sum;
            },
            None => {
                assert(!(i64::MIN <= size_sum(sizes@, (i + 1) as nat) <= i64::MAX));
                return Err(StoreError::SizeOverflow);
            },
        }
        i = i + 1;
    }
    assert(!too_large(sizes@));
    match check_mode(key, mode, target.etag) {
        Ok(()) => {},
        Err(error) => return Err(error),
    }
    let (etag, next) = match next_etag(target.next_etag) {
        Ok(taken) => taken,
        Err(error) => return Err(error),
    };
    let ghost laid = changes@;
    changes.push(Change::NextEtag { next });
    let ghost numbered = changes@;
    changes.push(
        Change::WriteObject {
            key: key.to_owned(),
            body: Vec::new(),
            etag,
            modified_ms,
            attributes,
            size,
            content_id: Some(id),
        },
    );
    let ghost written = changes@;
    changes.push(Change::SetState { id, state: PUBLISHED });
    let ghost marked = changes@;
    let kept = match target.content_id {
        Some(replaced) => replaced == id,
        None => false,
    };
    retire(&mut changes, target.content_id, target.shared || kept);
    proof {
        assert forall|t: Tables|
            #![trigger target.of(t, key@)]
            upload_is(t, id, upload) && parts_are(t, id, sizes@) && target.of(t, key@)
                implies commits(t, changes@) && run(t, changes@) == published(
            t,
            id,
            sizes@,
            key@,
            attributes@,
            touched_ms,
            modified_ms,
        ) by {
            fitting_commits(t, changes@);
            let row = staged_row(t.next_etag, id, size, attributes@, modified_ms);
            applied_push(t, laid, numbered.last());
            applied_push(t, numbered, written.last());
            applied_push(t, written, marked.last());
            reference_elsewhere(t.objects, key@, row, target.content_id);
            if target.content_id is Some && !(target.shared || kept) {
                applied_push(t, marked, changes@.last());
            }
            assert(applied(t, changes@) =~= published(
                t,
                id,
                sizes@,
                key@,
                attributes@,
                touched_ms,
                modified_ms,
            ));
        }
    }
    Ok((changes, put_result(etag)))
}

/// A part that is being cut into chunks.
pub struct PartWriter {
    pub id: i64,
    pub part: i64,
    pub size: i64,
    pub chunk: i64,
    pub buffer: Vec<u8>,
    /// Every byte taken so far.
    pub taken: Ghost<Seq<u8>>,
}

/// One chunk of a part.
#[derive(Debug)]
pub struct PartChunk {
    pub chunk: i64,
    pub body: Vec<u8>,
}

/// The bytes of a payload that its chunk with this number holds.
pub open spec fn chunk_of(payload: Seq<u8>, chunk: int) -> Seq<u8> {
    payload.subrange(
        chunk * CHUNK_SIZE,
        chunk * CHUNK_SIZE + chunk_length(payload.len() as int, chunk),
    )
}

impl PartWriter {
    /// Everything taken is in a chunk handed out, or in the buffer, which is not
    /// full; nothing beyond the size of the part is taken.
    pub open spec fn wf(self) -> bool {
        &&& 0 <= self.chunk
        &&& self.buffer@.len() < CHUNK_SIZE
        &&& self.taken@.len() == self.chunk * CHUNK_SIZE + self.buffer@.len()
        &&& self.buffer@ == self.taken@.skip(self.chunk * CHUNK_SIZE)
        &&& self.taken@.len() <= self.size
    }

    /// A part of `length` bytes of which none has come.
    pub fn new(id: i64, part: i64, length: u64) -> (writer: Result<PartWriter, StoreError>)
        ensures
            writer is Err <==> length > i64::MAX,
            writer matches Err(error) ==> error is SizeOverflow,
            writer matches Ok(writer) ==> {
                &&& writer.wf()
                &&& writer.id == id
                &&& writer.part == part
                &&& writer.size == length
                &&& writer.chunk == 0
                &&& writer.taken@ == Seq::<u8>::empty()
            },
    {
        if length > i64::MAX as u64 {
            return Err(StoreError::SizeOverflow);
        }
        assert(Seq::<u8>::empty().skip(0) =~= Seq::<u8>::empty());
        Ok(
            PartWriter {
                id,
                part,
                size: length as i64,
                chunk: 0,
                buffer: Vec::new(),
                taken: Ghost(Seq::empty()),
            },
        )
    }

    /// Takes bytes from a piece of the payload, as many as fill the next chunk:
    /// how many it took, and the chunk where it is full.
    pub fn take(&mut self, piece: &Vec<u8>, from: usize) -> (step: (usize, Option<PartChunk>))
        requires
            old(self).wf(),
            from < piece@.len(),
            old(self).taken@.len() + piece@.len() - from <= old(self).size,
        ensures
            final(self).wf(),
            final(self).id == old(self).id,
            final(self).part == old(self).part,
            final(self).size == old(self).size,
            0 < step.0 <= piece@.len() - from,
            final(self).taken@ == old(self).taken@ + piece@.subrange(
                from as int,
                from + step.0,
            ),
            step.1 is None ==> final(self).chunk == old(self).chunk && from + step.0
                == piece@.len(),
            step.1 matches Some(full) ==> {
                &&& full.chunk == old(self).chunk
                &&& final(self).chunk == old(self).chunk + 1
                &&& full.body@.len() == CHUNK_SIZE
                &&& full.body@ == final(self).taken@.subrange(
                    full.chunk * CHUNK_SIZE,
                    full.chunk * CHUNK_SIZE + CHUNK_SIZE,
                )
                &&& final(self).buffer@.len() == 0
            },
    {
        let room: usize = CHUNK_SIZE - self.buffer.len();
        let left: usize = piece.len() - from;
        let count: usize = if room < left {
            room
        } else {
            left
        };
        let ghost start = self.buffer@;
        let ghost before_take = self.taken@;
        let mut i: usize = 0;
        while i < count
            invariant
                0 <= i <= count,
                self.buffer@ == start + piece@.subrange(from as int, from + i),
                self.id == old(self).id,
                self.part == old(self).part,
                self.size == old(self).size,
                self.chunk == old(self).chunk,
                self.taken == old(self).taken,
            decreases count - i,
        {
            self.buffer.push(piece[from + i]);
            i = i + 1;
            assert(piece@.subrange(from as int, from + i) =~= piece@.subrange(
                from as int,
                from + i - 1,
            ).push(piece@[from + i - 1]));
        }
        proof {
            self.taken = Ghost(before_take + piece@.subrange(from as int, from + count));
            let c = self.chunk * CHUNK_SIZE;
            assert(self.taken@.skip(c) =~= self.buffer@);
        }
        if self.buffer.len() == CHUNK_SIZE {
            let mut body: Vec<u8> = Vec::new();
            std::mem::swap(&mut body, &mut self.buffer);
            let chunk: i64 = self.chunk;
            proof {
                let c = chunk * CHUNK_SIZE;
                assert(body@ =~= self.taken@.subrange(c, c + CHUNK_SIZE));
                assert((chunk + 1) * CHUNK_SIZE == c + CHUNK_SIZE);
                assert(self.taken@.skip(c + CHUNK_SIZE) =~= Seq::<u8>::empty());
            }
            self.chunk = chunk + 1;
            return (count, Some(PartChunk { chunk, body }));
        }
        (count, None)
    }

    /// The last chunk of a part that has come whole, where the buffer holds one.
    pub fn finish(self) -> (last: Option<PartChunk>)
        requires
            self.wf(),
            self.taken@.len() == self.size,
        ensures
            last is Some <==> chunk_count(self.size as int) == self.chunk + 1,
            last is None <==> chunk_count(self.size as int) == self.chunk,
            last matches Some(last) ==> last.chunk == self.chunk && last.body@ == chunk_of(
                self.taken@,
                self.chunk as int,
            ),
    {
        if self.buffer.len() == 0 {
            None
        } else {
            let ghost c = self.chunk * CHUNK_SIZE;
            assert(self.taken@.skip(c) =~= chunk_of(self.taken@, self.chunk as int));
            Some(PartChunk { chunk: self.chunk, body: self.buffer })
        }
    }
}

/// A chunk handed out while a payload comes in is the one that the whole payload
/// has under its number, whatever comes behind.
pub proof fn chunk_is_final(taken: Seq<u8>, payload: Seq<u8>, chunk: int)
    requires
        0 <= chunk,
        (chunk + 1) * CHUNK_SIZE <= taken.len() <= payload.len(),
        payload.take(taken.len() as int) == taken,
    ensures
        taken.subrange(chunk * CHUNK_SIZE, chunk * CHUNK_SIZE + CHUNK_SIZE) == chunk_of(
            payload,
            chunk,
        ),
{
    let c = chunk * CHUNK_SIZE;
    assert((chunk + 1) * CHUNK_SIZE == c + CHUNK_SIZE);
    assert forall|i: int| c <= i < c + CHUNK_SIZE implies taken[i] == payload[i] by {
        assert(payload.take(taken.len() as int)[i] == payload[i]);
    }
    assert(taken.subrange(c, c + CHUNK_SIZE) =~= chunk_of(payload, chunk));
}

/// An upload as its owner sees it.
#[derive(Clone, Copy, Debug, PartialEq, Eq, Structural)]
pub struct LocalUpload {
    pub id: i64,
    pub parts: usize,
    pub finished: bool,
}

impl LocalUpload {
    /// An upload without parts.
    pub fn new(id: i64) -> (upload: LocalUpload)
        ensures
            upload == (LocalUpload { id, parts: 0, finished: false }),
    {
        LocalUpload { id, parts: 0, finished: false }
    }

    /// Takes the number of the next part.
    pub fn put_part(&mut self) -> (part: Result<usize, StoreError>)
        ensures
            part is Err <==> old(self).finished || old(self).parts >= MAX_PARTS,
            part matches Err(error) ==> error is UploadFull && *final(self) == *old(self),
            part matches Ok(part) ==> part == old(self).parts && *final(self) == (LocalUpload {
                parts: (part + 1) as usize,
                ..*old(self)
            }),
    {
        if self.finished || self.parts >= MAX_PARTS {
            return Err(StoreError::UploadFull);
        }
        let part: usize = self.parts;
        self.parts = part + 1;
        Ok(part)
    }

    /// How many parts to publish.
    pub fn complete(&self) -> (parts: Result<usize, StoreError>)
        ensures
            parts is Err <==> self.finished,
            parts matches Err(error) ==> error is UploadClosed,
            parts matches Ok(parts) ==> parts == self.parts,
    {
        if self.finished {
            Err(StoreError::UploadClosed)
        } else {
            Ok(self.parts)
        }
    }

    /// Whether an abort has anything to do.
    pub fn abort(&self) -> (needed: bool)
        ensures
            needed == !self.finished,
    {
        !self.finished
    }

    /// Closes the upload once its publication or its abort has succeeded.
    pub fn settle(&mut self, succeeded: bool)
        ensures
            *final(self) == (LocalUpload {
                finished: old(self).finished || succeeded,
                ..*old(self)
            }),
    {
        if succeeded {
            self.finished = true;
        }
    }
}

/// What a put does next.
#[derive(Clone, Copy, Debug, PartialEq, Eq, Structural)]
pub enum PutStep {
    /// Write the object whole.
    Inline,
    /// Begin an upload.
    Begin,
    /// Write the payload as the first part of the upload.
    WritePart { id: i64 },
    /// Publish the upload with its one part.
    Publish { id: i64 },
    /// Abort the upload; whether that works does not matter.
    Abort { id: i64 },
    /// Answer with the last result before any abort.
    Finish,
}

/// How a step of a put ended.
#[derive(Clone, Copy, Debug, PartialEq, Eq, Structural)]
pub enum PutEvent {
    /// An upload has begun.
    Begun { id: i64 },
    /// The step has succeeded.
    Done,
    /// The step has failed.
    Failed,
}

/// How a put of so many bytes begins: a small object is written whole, a larger
/// one is staged.
pub fn put_first(length: usize) -> (step: PutStep)
    ensures
        step == if length <= CHUNK_SIZE {
            PutStep::Inline
        } else {
            PutStep::Begin
        },
{
    if length <= CHUNK_SIZE {
        PutStep::Inline
    } else {
        PutStep::Begin
    }
}

/// The step of a put behind another. A staged object is one part; where writing
/// or publishing fails, the upload is aborted.
pub open spec fn step_after(step: PutStep, event: PutEvent) -> PutStep {
    match (step, event) {
        (PutStep::Begin, PutEvent::Begun { id }) => PutStep::WritePart { id },
        (PutStep::WritePart { id }, PutEvent::Done) => PutStep::Publish { id },
        (PutStep::WritePart { id }, PutEvent::Failed) => PutStep::Abort { id },
        (PutStep::Publish { id }, PutEvent::Failed) => PutStep::Abort { id },
        _ => PutStep::Finish,
    }
}

/// The step of a put behind another.
pub fn put_next(step: PutStep, event: PutEvent) -> (next: PutStep)
    ensures
        next == step_after(step, event),
{
    match (step, event) {
        (PutStep::Begin, PutEvent::Begun { id }) => PutStep::WritePart { id },
        (PutStep::WritePart { id }, PutEvent::Done) => PutStep::Publish { id },
        (PutStep::WritePart { id }, PutEvent::Failed) => PutStep::Abort { id },
        (PutStep::Publish { id }, PutEvent::Failed) => PutStep::Abort { id },
        _ => PutStep::Finish,
    }
}

} // verus!
