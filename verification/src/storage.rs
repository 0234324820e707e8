//! What a write does to the tables: conditional puts, deletes, copies and the
//! reclaiming of retired uploads.
use crate::error::StoreError;
use crate::model::{
    always_fit, applied, applied_push, apply, commits, fitting_commits, referenced, run,
    with_state, Change, ObjectRow, PartRow, Tables, UploadRow, ACTIVE, RETIRED,
};
use crate::object::{StoredObject, StoredObjectView};
use crate::text::{decimal_text, same_text, signed_decimal};
use vstd::prelude::*;

verus! {

/// How long an upload may rest before it is reclaimed.
pub const UPLOAD_EXPIRY_MS: i64 = 86_400_000;

/// The newest table layout that this library knows.
pub const FORMAT_VERSION: i64 = 2;

/// How long a connection waits for another writer, in milliseconds.
pub const WRITER_TIMEOUT_MS: u64 = 30_000;

/// How long the reclaiming of retired uploads waits for another writer, in
/// milliseconds: it is optional work and never waits.
pub const CLEANUP_TIMEOUT_MS: u64 = 0;

/// What the store has just done.
#[derive(Clone, Copy, Debug, PartialEq, Eq, Structural)]
pub enum Operation {
    Open,
    Put,
    Delete,
    Copy,
    BeginUpload,
    WriteChunk,
    RecordPart,
    Publish,
    Abort,
}

/// Whether one turn of reclaiming follows: it does where a store is opened, where an
/// object is written or deleted, and where a chunk is staged or an upload aborted,
/// but not where an upload is begun or a part is only recorded.
pub fn cleans_up(operation: Operation) -> (yes: bool)
    ensures
        yes <==> !(operation is BeginUpload || operation is RecordPart),
{
    match operation {
        Operation::BeginUpload => false,
        Operation::RecordPart => false,
        _ => true,
    }
}

/// When a write may take place.
#[derive(Clone, Debug)]
pub enum PutMode {
    /// Always.
    Overwrite,
    /// Only where no object has the key.
    Create,
    /// Only over the object with this ETag.
    Update(Option<String>),
}

/// What a write answers.
#[derive(Clone, Debug)]
pub struct PutResult {
    pub e_tag: String,
}

/// What a transaction reads of the key that it is about to write.
#[derive(Clone, Copy, Debug, PartialEq, Eq, Structural)]
pub struct TargetFacts {
    /// The ETag of the object under the key.
    pub etag: Option<i64>,
    /// The upload that the object refers to.
    pub content_id: Option<i64>,
    /// Whether an object under another key refers to the same upload.
    pub shared: bool,
    /// The next ETag of the sequence.
    pub next_etag: i64,
}

/// The upload that the object under the key refers to.
pub open spec fn content_of(t: Tables, key: Seq<char>) -> Option<i64> {
    if t.objects.contains_key(key) {
        t.objects[key].content_id
    } else {
        None
    }
}

/// The ETag of the object under the key.
pub open spec fn etag_of(t: Tables, key: Seq<char>) -> Option<i64> {
    if t.objects.contains_key(key) {
        Some(t.objects[key].etag)
    } else {
        None
    }
}

/// The metadata of the object under the key.
pub open spec fn stored_object(t: Tables, key: Seq<char>) -> Option<StoredObjectView> {
    if t.objects.contains_key(key) {
        let row = t.objects[key];
        Some(
            StoredObjectView {
                key,
                size: match row.size {
                    Some(size) => size as u64,
                    None => row.body.len() as u64,
                },
                etag: row.etag,
                modified_ms: row.modified_ms,
                attributes: row.attributes,
                content_id: row.content_id,
            },
        )
    } else {
        None
    }
}

impl TargetFacts {
    /// The facts hold of the key in the tables.
    pub open spec fn of(self, t: Tables, key: Seq<char>) -> bool {
        &&& self.etag == etag_of(t, key)
        &&& self.content_id == content_of(t, key)
        &&& self.content_id matches Some(id) ==> self.shared == referenced(t.objects.remove(key), id)
        &&& self.next_etag == t.next_etag
    }
}

/// The mode refuses to write over an object with this ETag, or over none.
pub open spec fn refuses(mode: PutMode, current: Option<i64>) -> bool {
    match mode {
        PutMode::Overwrite => false,
        PutMode::Create => current is Some,
        PutMode::Update(wanted) => match (wanted, current) {
            (Some(wanted), Some(current)) => wanted@ != signed_decimal(current as int),
            _ => true,
        },
    }
}

/// The uploads once an object no longer refers to one of them: it is retired,
/// unless another object still does.
pub open spec fn retired(
    objects: Map<Seq<char>, ObjectRow>,
    uploads: Map<i64, UploadRow>,
    replaced: Option<i64>,
) -> Map<i64, UploadRow> {
    match replaced {
        Some(id) => if referenced(objects, id) {
            uploads
        } else {
            with_state(uploads, id, RETIRED)
        },
        None => uploads,
    }
}

/// The tables once a row is written under a key with the next ETag.
pub open spec fn stored(t: Tables, key: Seq<char>, row: ObjectRow) -> Tables {
    let objects = t.objects.insert(key, row);
    Tables {
        objects,
        next_etag: (t.next_etag + 1) as i64,
        uploads: retired(objects, t.uploads, content_of(t, key)),
        ..t
    }
}

/// The row of an object whose body stands in it.
pub open spec fn inline_row(
    etag: i64,
    body: Seq<u8>,
    attributes: Seq<char>,
    modified_ms: i64,
) -> ObjectRow {
    ObjectRow {
        body,
        etag,
        modified_ms,
        attributes,
        size: Some(body.len() as i64),
        content_id: None,
    }
}

/// The tables once the object under a key is gone.
pub open spec fn deleted(t: Tables, key: Seq<char>) -> Tables {
    let objects = t.objects.remove(key);
    Tables { objects, uploads: retired(objects, t.uploads, content_of(t, key)), ..t }
}

/// The tables once an object stands under a second key. The two rows share one
/// content.
pub open spec fn copied(t: Tables, from: Seq<char>, to: Seq<char>, modified_ms: i64) -> Tables {
    stored(t, to, ObjectRow { etag: t.next_etag, modified_ms, ..t.objects[from] })
}

/// The refusal of a mode, as an error.
pub open spec fn is_refusal(error: StoreError, mode: PutMode, key: Seq<char>) -> bool {
    match mode {
        PutMode::Overwrite => false,
        PutMode::Create => error matches StoreError::AlreadyExists { path } && path@ == key,
        PutMode::Update(_) => error matches StoreError::Precondition { path } && path@ == key,
    }
}

/// Whether a mode allows a write over the current object.
pub fn check_mode(key: &str, mode: &PutMode, current: Option<i64>) -> (checked: Result<
    (),
    StoreError,
>)
    ensures
        checked is Err <==> refuses(*mode, current),
        checked matches Err(error) ==> is_refusal(error, *mode, key@),
{
    match mode {
        PutMode::Overwrite => Ok(()),
        PutMode::Create => match current {
            Some(_) => Err(StoreError::AlreadyExists { path: key.to_owned() }),
            None => Ok(()),
        },
        PutMode::Update(wanted) => match (wanted, current) {
            (Some(wanted), Some(current)) => if same_text(
                wanted.as_str(),
                decimal_text(current).as_str(),
            ) {
                Ok(())
            } else {
                Err(StoreError::Precondition { path: key.to_owned() })
            },
            _ => Err(StoreError::Precondition { path: key.to_owned() }),
        },
    }
}

/// Takes an ETag from the sequence: the ETag, and the sequence behind it.
pub fn next_etag(next: i64) -> (taken: Result<(i64, i64), StoreError>)
    ensures
        taken is Err <==> next == i64::MAX,
        taken matches Err(error) ==> error is SequenceExhausted,
        taken matches Ok((etag, rest)) ==> etag == next && rest == next + 1,
{
    if next == i64::MAX {
        Err(StoreError::SequenceExhausted)
    } else {
        Ok((next, next + 1))
    }
}

/// What a write with this ETag answers.
pub fn put_result(etag: i64) -> (result: PutResult)
    ensures
        result.e_tag@ == signed_decimal(etag as int),
{
    PutResult { e_tag: decimal_text(etag) }
}

/// The row of the tables as a stored object.
pub fn row_metadata(
    key: String,
    size: i64,
    etag: i64,
    modified_ms: i64,
    attributes: String,
    content_id: Option<i64>,
) -> (object: StoredObject)
    ensures
        object.key == key,
        object.size == size as u64,
        size >= 0 ==> object.size as int == size as int,
        object.etag == etag,
        object.modified_ms == modified_ms,
        object.attributes == attributes,
        object.content_id == content_id,
{
    StoredObject {
        key,
        size: #[verifier::truncate] (size as u64),
        etag,
        modified_ms,
        attributes,
        content_id,
    }
}

/// The metadata of a key, or that there is none.
pub fn metadata(key: &str, row: Option<StoredObject>) -> (found: Result<StoredObject, StoreError>)
    ensures
        found is Err <==> row is None,
        found matches Ok(object) ==> row == Some(object),
        found matches Err(error) ==> error matches StoreError::NotFound { path } && path@ == key@,
{
    match row {
        Some(object) => Ok(object),
        None => Err(StoreError::NotFound { path: key.to_owned() }),
    }
}

/// Retires an upload that no object refers to any longer.
pub fn retire(changes: &mut Vec<Change>, replaced: Option<i64>, still_referenced: bool)
    ensures
        replaced is None || still_referenced ==> final(changes)@ == old(changes)@,
        replaced matches Some(id) ==> !still_referenced ==> final(changes)@ == old(changes)@.push(
            Change::SetState { id, state: RETIRED },
        ),
{
    match replaced {
        Some(id) => {
            if !still_referenced {
                changes.push(Change::SetState { id, state: RETIRED });
            }
        },
        None => {},
    }
}

/// Writes a small object whole: the transaction, and what the write answers.
pub fn put_inline(
    key: &str,
    body: Vec<u8>,
    attributes: String,
    mode: &PutMode,
    target: TargetFacts,
    now_ms: i64,
) -> (put: Result<(Vec<Change>, PutResult), StoreError>)
    ensures
        put matches Err(error) ==> {
            ||| refuses(*mode, target.etag) && is_refusal(error, *mode, key@)
            ||| !refuses(*mode, target.etag) && target.next_etag == i64::MAX
                && error is SequenceExhausted
        },
        put is Ok <==> !refuses(*mode, target.etag) && target.next_etag < i64::MAX,
        put matches Ok((changes, result)) ==> {
            &&& result.e_tag@ == signed_decimal(target.next_etag as int)
            &&& forall|t: Tables| #[trigger]
                target.of(t, key@) ==> commits(t, changes@) && run(t, changes@) == stored(
                    t,
                    key@,
                    inline_row(t.next_etag, body@, attributes@, now_ms),
                )
        },
{
    match check_mode(key, mode, target.etag) {
        Ok(()) => {},
        Err(error) => return Err(error),
    }
    let (etag, next) = match next_etag(target.next_etag) {
        Ok(taken) => taken,
        Err(error) => return Err(error),
    };
    let size: i64 = #[verifier::truncate] (body.len() as i64);
    let mut changes: Vec<Change> = Vec::new();
    changes.push(Change::NextEtag { next });
    changes.push(
        Change::WriteObject {
            key: key.to_owned(),
            body,
            etag,
            modified_ms: now_ms,
            attributes,
            size,
            content_id: None,
        },
    );
    let ghost written = changes@;
    retire(&mut changes, target.content_id, target.shared);
    proof {
        assert(always_fit(changes@));
        assert forall|t: Tables| #[trigger] target.of(t, key@) implies commits(t, changes@) && run(
            t,
            changes@,
        ) == stored(t, key@, inline_row(t.next_etag, body@, attributes@, now_ms)) by {
            fitting_commits(t, changes@);
            let row = inline_row(t.next_etag, body@, attributes@, now_ms);
            applied_two(t, written);
            reference_elsewhere(t.objects, key@, row, target.content_id);
            if target.content_id is Some && !target.shared {
                applied_push(t, written, changes@.last());
            }
            assert(applied(t, changes@) =~= stored(t, key@, row));
        }
    }
    Ok((changes, put_result(etag)))
}

/// Two statements.
proof fn applied_two(t: Tables, changes: Seq<Change>)
    requires
        changes.len() == 2,
    ensures
        applied(t, changes) == apply(apply(t, changes[0]), changes[1]),
{
    let first = Seq::<Change>::empty().push(changes[0]);
    applied_push(t, Seq::empty(), changes[0]);
    applied_push(t, first, changes[1]);
    assert(changes =~= first.push(changes[1]));
}

/// Once a row is written under a key, an upload is referred to by that row or
/// from under another key.
pub proof fn reference_elsewhere(
    objects: Map<Seq<char>, ObjectRow>,
    key: Seq<char>,
    row: ObjectRow,
    replaced: Option<i64>,
)
    ensures
        replaced matches Some(id) ==> referenced(objects.insert(key, row), id) == (referenced(
            objects.remove(key),
            id,
        ) || row.content_id == Some(id)),
{
    match replaced {
        Some(id) => {
            let after = objects.insert(key, row);
            let rest = objects.remove(key);
            if referenced(after, id) {
                let k = choose|k: Seq<char>| #[trigger]
                    after.contains_key(k) && after[k].content_id == Some(id);
                if k != key {
                    assert(rest.contains_key(k) && rest[k].content_id == Some(id));
                }
            }
            if referenced(rest, id) {
                let k = choose|k: Seq<char>| #[trigger]
                    rest.contains_key(k) && rest[k].content_id == Some(id);
                assert(after.contains_key(k) && after[k].content_id == Some(id));
            }
            if row.content_id == Some(id) {
                assert(after.contains_key(key));
            }
        },
        None => {},
    }
}

/// Deletes an object, or nothing where there is none: the transaction.
pub fn delete_sync(key: &str, target: TargetFacts) -> (changes: Vec<Change>)
    ensures
        forall|t: Tables| #[trigger]
            target.of(t, key@) ==> commits(t, changes@) && run(t, changes@) == deleted(t, key@),
{
    let mut changes: Vec<Change> = Vec::new();
    changes.push(Change::DeleteObject { key: key.to_owned() });
    let ghost written = changes@;
    retire(&mut changes, target.content_id, target.shared);
    proof {
        assert(always_fit(changes@));
        assert forall|t: Tables| #[trigger] target.of(t, key@) implies commits(t, changes@) && run(
            t,
            changes@,
        ) == deleted(t, key@) by {
            fitting_commits(t, changes@);
            assert(written =~= Seq::<Change>::empty().push(written[0]));
            applied_push(t, Seq::empty(), written[0]);
            if target.content_id is Some && !target.shared {
                applied_push(t, written, changes@.last());
            }
            assert(applied(t, changes@) =~= deleted(t, key@));
        }
    }
    changes
}

/// The mode of a copy.
pub open spec fn copy_mode(create: bool) -> PutMode {
    if create {
        PutMode::Create
    } else {
        PutMode::Overwrite
    }
}

/// Puts an object under a second key, where the source is there and the
/// destination allows it: the transaction. The source is looked at first, also
/// when it is the destination.
pub fn copy_sync(
    from: &str,
    to: &str,
    create: bool,
    source: Option<StoredObject>,
    target: TargetFacts,
    now_ms: i64,
) -> (copy: Result<Vec<Change>, StoreError>)
    ensures
        copy matches Err(error) ==> {
            ||| source is None && (error matches StoreError::NotFound { path } && path@ == from@)
            ||| source is Some && refuses(copy_mode(create), target.etag) && is_refusal(
                error,
                copy_mode(create),
                to@,
            )
            ||| source is Some && !refuses(copy_mode(create), target.etag) && target.next_etag
                == i64::MAX && error is SequenceExhausted
        },
        copy is Ok <==> source is Some && !refuses(copy_mode(create), target.etag)
            && target.next_etag < i64::MAX,
        copy matches Ok(changes) ==> forall|t: Tables| #[trigger]
            target.of(t, to@) && stored_object(t, from@) == Some(source.unwrap()@) ==> commits(
                t,
                changes@,
            ) && run(t, changes@) == copied(t, from@, to@, now_ms),
{
    let source = match metadata(from, source) {
        Ok(object) => object,
        Err(error) => return Err(error),
    };
    let mode = if create {
        PutMode::Create
    } else {
        PutMode::Overwrite
    };
    match check_mode(to, &mode, target.etag) {
        Ok(()) => {},
        Err(error) => return Err(error),
    }
    let (etag, next) = match next_etag(target.next_etag) {
        Ok(taken) => taken,
        Err(error) => return Err(error),
    };
    let mut changes: Vec<Change> = Vec::new();
    changes.push(Change::NextEtag { next });
    changes.push(
        Change::CopyObject { from: from.to_owned(), to: to.to_owned(), etag, modified_ms: now_ms },
    );
    let ghost written = changes@;
    let kept = match (target.content_id, source.content_id) {
        (Some(replaced), Some(copied)) => replaced == copied,
        _ => false,
    };
    retire(&mut changes, target.content_id, target.shared || kept);
    proof {
        assert(always_fit(changes@));
        assert forall|t: Tables| #[trigger]
            target.of(t, to@) && stored_object(t, from@) == Some(source@) implies commits(
            t,
            changes@,
        ) && run(t, changes@) == copied(t, from@, to@, now_ms) by {
            fitting_commits(t, changes@);
            let row = ObjectRow { etag: t.next_etag, modified_ms: now_ms, ..t.objects[from@] };
            applied_two(t, written);
            reference_elsewhere(t.objects, to@, row, target.content_id);
            if target.content_id is Some && !(target.shared || kept) {
                applied_push(t, written, changes@.last());
            }
            assert(applied(t, changes@) =~= copied(t, from@, to@, now_ms));
        }
    }
    Ok(changes)
}

/// What a transaction reads of an upload row.
#[derive(Clone, Copy, Debug, PartialEq, Eq, Structural)]
pub struct UploadFacts {
    pub state: i64,
    pub touched_ms: i64,
}

/// The facts hold of the upload in the tables.
pub open spec fn upload_is(t: Tables, id: i64, upload: Option<UploadFacts>) -> bool {
    match upload {
        Some(upload) => t.uploads.contains_key(id) && t.uploads[id] == (UploadRow {
            state: upload.state,
            touched_ms: upload.touched_ms,
        }),
        None => !t.uploads.contains_key(id),
    }
}

/// What a transaction reads of an upload that may be reclaimed: its row, and the
/// part and number of up to three of its chunks.
#[derive(Debug)]
pub struct GarbageFacts {
    pub id: i64,
    pub upload: Option<UploadFacts>,
    pub chunks: Vec<(i64, i64)>,
}

impl GarbageFacts {
    /// The facts hold of the tables.
    pub open spec fn of(self, t: Tables) -> bool {
        &&& upload_is(t, self.id, self.upload)
        &&& self.chunks@.len() <= 3
        &&& self.chunks@.no_duplicates()
        &&& forall|i: int|
            0 <= i < self.chunks@.len() ==> t.chunks.contains_key(
                (self.id, (#[trigger] self.chunks@[i]).0, self.chunks@[i].1),
            )
        &&& self.chunks@.len() < 3 ==> forall|part: i64, chunk: i64| #[trigger]
            t.chunks.contains_key((self.id, part, chunk)) ==> self.chunks@.contains((part, chunk))
    }
}

/// The time before which an upload without progress has expired.
pub open spec fn cutoff_at(now_ms: i64) -> i64 {
    if now_ms < i64::MIN + UPLOAD_EXPIRY_MS {
        i64::MIN
    } else {
        (now_ms - UPLOAD_EXPIRY_MS) as i64
    }
}

/// The upload is to be reclaimed: it is retired, or active without progress
/// since the cutoff.
pub open spec fn reclaimable(t: Tables, id: i64, cutoff_ms: i64) -> bool {
    t.uploads.contains_key(id) && (t.uploads[id].state == RETIRED || (t.uploads[id].state == ACTIVE
        && t.uploads[id].touched_ms < cutoff_ms))
}

/// The chunk rows without some of one upload.
pub open spec fn without_chunks(
    chunks: Map<(i64, i64, i64), Seq<u8>>,
    id: i64,
    victims: Seq<(i64, i64)>,
) -> Map<(i64, i64, i64), Seq<u8>> {
    Map::new(
        |at: (i64, i64, i64)|
            chunks.contains_key(at) && !(at.0 == id && victims.contains((at.1, at.2))),
        |at: (i64, i64, i64)| chunks[at],
    )
}

/// The part rows without those of one upload.
pub open spec fn without_parts(
    parts: Map<(i64, i64), PartRow>,
    id: i64,
) -> Map<(i64, i64), PartRow> {
    Map::new(
        |at: (i64, i64)| parts.contains_key(at) && at.0 != id,
        |at: (i64, i64)| parts[at],
    )
}

/// The tables after one turn of reclaiming an upload of which `chunks` are seen:
/// no more than two chunks go, and with the last of them the whole upload.
pub open spec fn collected(
    t: Tables,
    id: i64,
    cutoff_ms: i64,
    chunks: Seq<(i64, i64)>,
) -> Tables {
    if !reclaimable(t, id, cutoff_ms) {
        t
    } else if chunks.len() > 2 {
        Tables {
            uploads: with_state(t.uploads, id, RETIRED),
            chunks: without_chunks(t.chunks, id, chunks.take(2)),
            ..t
        }
    } else {
        Tables {
            uploads: t.uploads.remove(id),
            parts: without_parts(t.parts, id),
            chunks: without_chunks(t.chunks, id, chunks),
            ..t
        }
    }
}

/// The time before which an upload without progress has expired.
pub fn garbage_cutoff(now_ms: i64) -> (cutoff_ms: i64)
    ensures
        cutoff_ms == cutoff_at(now_ms),
{
    if now_ms < i64::MIN + UPLOAD_EXPIRY_MS {
        i64::MIN
    } else {
        now_ms - UPLOAD_EXPIRY_MS
    }
}

/// The upload to reclaim next: a retired one before an expired one.
pub fn garbage_candidate(retired: Option<i64>, expired: Option<i64>) -> (candidate: Option<i64>)
    ensures
        candidate == if retired is Some {
            retired
        } else {
            expired
        },
{
    match retired {
        Some(id) => Some(id),
        None => expired,
    }
}

/// One turn of reclaiming an upload: the transaction. The row is looked at again
/// under the writer lock, since an active uploader may have progressed or
/// published in the meantime. No more than two chunks go, so that no write waits
/// behind a large retired object.
pub fn collect_garbage(facts: &GarbageFacts, cutoff_ms: i64) -> (changes: Vec<Change>)
    ensures
        forall|t: Tables| #[trigger]
            facts.of(t) ==> commits(t, changes@) && run(t, changes@) == collected(
                t,
                facts.id,
                cutoff_ms,
                facts.chunks@,
            ),
{
    let mut changes: Vec<Change> = Vec::new();
    let id: i64 = facts.id;
    let expired = match facts.upload {
        Some(upload) => upload.state == ACTIVE && upload.touched_ms < cutoff_ms,
        None => false,
    };
    let gone = match facts.upload {
        Some(upload) => upload.state == RETIRED || expired,
        None => false,
    };
    if !gone {
        return changes;
    }
    if expired {
        changes.push(Change::SetState { id, state: RETIRED });
    }
    let ghost marked = changes@;
    let count: usize = if facts.chunks.len() > 2 {
        2
    } else {
        facts.chunks.len()
    };
    proof {
        assert(marked.len() > 0 ==> marked =~= Seq::<Change>::empty().push(marked[0]));
        assert forall|t: Tables| #[trigger] facts.of(t) implies applied(t, marked) == (Tables {
            uploads: with_state(t.uploads, id, RETIRED),
            chunks: without_chunks(t.chunks, id, facts.chunks@.take(0)),
            ..t
        }) by {
            if expired {
                applied_push(t, Seq::empty(), marked[0]);
            }
            assert(applied(t, marked) =~= (Tables {
                uploads: with_state(t.uploads, id, RETIRED),
                chunks: without_chunks(t.chunks, id, facts.chunks@.take(0)),
                ..t
            }));
        }
    }
    let mut i: usize = 0;
    while i < count
        invariant
            0 <= i <= count <= facts.chunks@.len(),
            always_fit(changes@),
            forall|t: Tables| #[trigger]
                facts.of(t) ==> applied(t, changes@) == (Tables {
                    uploads: with_state(t.uploads, id, RETIRED),
                    chunks: without_chunks(t.chunks, id, facts.chunks@.take(i as int)),
                    ..t
                }),
        decreases count - i,
    {
        let (part, chunk) = facts.chunks[i];
        let ghost before_drop = changes@;
        changes.push(Change::DropChunk { id, part, chunk });
        proof {
            let seen = facts.chunks@.take(i as int);
            let next = facts.chunks@.take(i + 1);
            assert(next =~= seen.push((part, chunk)));
            assert forall|t: Tables| #[trigger] facts.of(t) implies applied(t, changes@) == (Tables {
                uploads: with_state(t.uploads, id, RETIRED),
                chunks: without_chunks(t.chunks, id, next),
                ..t
            }) by {
                applied_push(t, before_drop, changes@.last());
                assert forall|at: (i64, i64)| #[trigger]
                    next.contains(at) <==> seen.contains(at) || at == (part, chunk) by {
                    if seen.contains(at) {
                        let j = choose|j: int| 0 <= j < seen.len() && seen[j] == at;
                        assert(next[j] == at);
                    }
                    assert(next[i as int] == (part, chunk));
                }
                assert(without_chunks(t.chunks, id, seen).remove((id, part, chunk))
                    =~= without_chunks(t.chunks, id, next));
            }
        }
        i = i + 1;
    }
    if facts.chunks.len() <= 2 {
        let ghost emptied = changes@;
        changes.push(Change::DropParts { id });
        let ghost dropped = changes@;
        changes.push(Change::DropUpload { id });
        proof {
            assert(facts.chunks@.take(count as int) =~= facts.chunks@);
            assert forall|t: Tables| #[trigger] facts.of(t) implies applied(t, changes@) == collected(
                t,
                facts.id,
                cutoff_ms,
                facts.chunks@,
            ) by {
                applied_push(t, emptied, dropped.last());
                applied_push(t, dropped, changes@.last());
                assert(applied(t, changes@) =~= collected(t, facts.id, cutoff_ms, facts.chunks@));
            }
        }
    }
    proof {
        assert forall|t: Tables| #[trigger] facts.of(t) implies commits(t, changes@) && run(
            t,
            changes@,
        ) == collected(t, facts.id, cutoff_ms, facts.chunks@) by {
            fitting_commits(t, changes@);
        }
    }
    changes
}

/// The tables of a store file of a given layout version can be used.
pub fn check_format(version: i64) -> (checked: Result<(), StoreError>)
    ensures
        checked is Err <==> version > FORMAT_VERSION,
        checked matches Err(error) ==> error == (StoreError::NewerFormat { version }),
{
    if version > FORMAT_VERSION {
        Err(StoreError::NewerFormat { version })
    } else {
        Ok(())
    }
}

/// The object table is one of the first layout, which keeps neither sizes nor
/// uploads.
pub open spec fn lacks_size(columns: Seq<String>) -> bool {
    forall|i: int| 0 <= i < columns.len() ==> (#[trigger] columns[i])@ != "size"@
}

/// Whether the object table must be widened before it is used.
pub fn needs_widening(columns: &Vec<String>) -> (yes: bool)
    ensures
        yes == lacks_size(columns@),
{
    let mut i: usize = 0;
    while i < columns.len()
        invariant
            0 <= i <= columns@.len(),
            forall|j: int| 0 <= j < i ==> (#[trigger] columns@[j])@ != "size"@,
        decreases columns@.len() - i,
    {
        if same_text(columns[i].as_str(), "size") {
            assert(columns@[i as int]@ == "size"@);
            return false;
        }
        i = i + 1;
    }
    true
}

} // verus!
