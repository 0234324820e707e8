//! The store on a real database.
use celld_store::attributes::{
    decode_attributes, encode_attributes, Attribute, AttributePair, StoredAttribute,
};
use celld_store::clock::wall_ms;
use celld_store::error::StoreError;
use celld_store::listing::KeyQuery;
use celld_store::model::{Change, CHUNK_SIZE, FIRST_ETAG};
use celld_store::object::{object_meta, ObjectMeta, StoredObject};
use celld_store::page::{PageOptions, PageScan, PageStep};
use celld_store::read::{
    get_snapshot, ByteRange, CalendarTime, PartFacts, ReadAnswer, ReadOptions, ReadRequest,
    ReadSnapshot,
};
use celld_store::storage::{
    check_format, cleans_up, collect_garbage, copy_sync, delete_sync, garbage_candidate,
    garbage_cutoff, metadata, needs_widening, put_inline, row_metadata, GarbageFacts, Operation,
    PutMode, PutResult, TargetFacts, UploadFacts, CLEANUP_TIMEOUT_MS, WRITER_TIMEOUT_MS,
};
use celld_store::stream::{DirectoryListing, ListStream};
use celld_store::upload::{
    abort_upload, begin_upload, publish_upload, put_first, put_next, record_part, write_chunk,
    LocalUpload, PartChunk, PartWriter, PutEvent, PutStep,
};
use rusqlite::{Connection, OptionalExtension, TransactionBehavior};
use std::path::{Path, PathBuf};

const SCHEMA: &str = "
CREATE TABLE IF NOT EXISTS objects (
  key TEXT PRIMARY KEY, body BLOB NOT NULL, etag INTEGER NOT NULL,
  modified_ms INTEGER NOT NULL, attributes TEXT NOT NULL,
  size INTEGER, content_id INTEGER
);
CREATE TABLE IF NOT EXISTS store_sequence (
  singleton INTEGER PRIMARY KEY CHECK (singleton = 1), next_etag INTEGER NOT NULL
);
CREATE TABLE IF NOT EXISTS local_uploads (
  id INTEGER PRIMARY KEY AUTOINCREMENT,
  state INTEGER NOT NULL, touched_ms INTEGER NOT NULL
);
CREATE TABLE IF NOT EXISTS local_parts (
  upload INTEGER NOT NULL, part INTEGER NOT NULL, size INTEGER NOT NULL,
  offset INTEGER NOT NULL DEFAULT -1, PRIMARY KEY(upload,part)
);
CREATE TABLE IF NOT EXISTS local_chunks (
  upload INTEGER NOT NULL, part INTEGER NOT NULL, chunk INTEGER NOT NULL,
  body BLOB NOT NULL, PRIMARY KEY(upload,part,chunk)
);";

const META_COLUMNS: &str = "key,COALESCE(size,length(body)),etag,modified_ms,attributes,content_id";

#[derive(Clone)]
struct Store {
    database: PathBuf,
}

/// A read that holds its snapshot until it is dropped.
struct OpenRead {
    connection: Connection,
    answer: ReadAnswer,
}

/// An upload and the store that it belongs to.
struct Upload {
    store: Store,
    key: String,
    handle: LocalUpload,
}

/// A part that has its number and waits to be written.
struct DelayedPart {
    store: Store,
    id: i64,
    part: usize,
    data: Vec<u8>,
}

fn row(row: &rusqlite::Row<'_>) -> rusqlite::Result<StoredObject> {
    Ok(row_metadata(
        row.get(0)?,
        row.get(1)?,
        row.get(2)?,
        row.get(3)?,
        row.get(4)?,
        row.get(5)?,
    ))
}

fn stored_row(connection: &Connection, key: &str) -> Option<StoredObject> {
    connection
        .query_row(
            &format!("SELECT {META_COLUMNS} FROM objects WHERE key=?1"),
            [key],
            row,
        )
        .optional()
        .unwrap()
}

fn target(connection: &Connection, key: &str) -> TargetFacts {
    let found: Option<(i64, Option<i64>)> = connection
        .query_row(
            "SELECT etag,content_id FROM objects WHERE key=?1",
            [key],
            |r| Ok((r.get(0)?, r.get(1)?)),
        )
        .optional()
        .unwrap();
    let content_id = found.and_then(|(_, id)| id);
    let shared = connection
        .query_row(
            "SELECT EXISTS(SELECT 1 FROM objects WHERE content_id=?1 AND key<>?2)",
            (content_id, key),
            |r| r.get(0),
        )
        .unwrap();
    let next_etag = connection
        .query_row(
            "SELECT next_etag FROM store_sequence WHERE singleton=1",
            [],
            |r| r.get(0),
        )
        .unwrap();
    TargetFacts {
        etag: found.map(|(etag, _)| etag),
        content_id,
        shared,
        next_etag,
    }
}

fn upload_row(connection: &Connection, id: i64) -> Option<UploadFacts> {
    connection
        .query_row(
            "SELECT state,touched_ms FROM local_uploads WHERE id=?1",
            [id],
            |r| {
                Ok(UploadFacts {
                    state: r.get(0)?,
                    touched_ms: r.get(1)?,
                })
            },
        )
        .optional()
        .unwrap()
}

fn apply(connection: &Connection, change: &Change) -> rusqlite::Result<usize> {
    let c = connection;
    match change {
        Change::NextEtag { next } => c.execute(
            "UPDATE store_sequence SET next_etag=?1 WHERE singleton=1",
            [next],
        ),
        Change::WriteObject {
            key,
            body,
            etag,
            modified_ms,
            attributes,
            size,
            content_id,
        } => c.execute(
            "INSERT INTO objects(key,body,etag,modified_ms,attributes,size,content_id)
             VALUES(?1,?2,?3,?4,?5,?6,?7) ON CONFLICT(key) DO UPDATE SET body=excluded.body,
             etag=excluded.etag,modified_ms=excluded.modified_ms,attributes=excluded.attributes,
             size=excluded.size,content_id=excluded.content_id",
            (key, body, etag, modified_ms, attributes, size, content_id),
        ),
        Change::CopyObject {
            from,
            to,
            etag,
            modified_ms,
        } => c.execute(
            "INSERT INTO objects(key,body,etag,modified_ms,attributes,size,content_id)
             SELECT ?1,body,?2,?3,attributes,size,content_id FROM objects WHERE key=?4
             ON CONFLICT(key) DO UPDATE SET body=excluded.body,etag=excluded.etag,
             modified_ms=excluded.modified_ms,attributes=excluded.attributes,
             size=excluded.size,content_id=excluded.content_id",
            (to, etag, modified_ms, from),
        ),
        Change::DeleteObject { key } => c.execute("DELETE FROM objects WHERE key=?1", [key]),
        Change::AddUpload { touched_ms } => c.execute(
            "INSERT INTO local_uploads(state,touched_ms) VALUES(0,?1)",
            [touched_ms],
        ),
        Change::SetState { id, state } => c.execute(
            "UPDATE local_uploads SET state=?2 WHERE id=?1",
            (id, state),
        ),
        Change::Touch { id, touched_ms } => c.execute(
            "UPDATE local_uploads SET touched_ms=?2 WHERE id=?1",
            (id, touched_ms),
        ),
        Change::AddChunk {
            id,
            part,
            chunk,
            body,
        } => c.execute(
            "INSERT INTO local_chunks(upload,part,chunk,body) VALUES(?1,?2,?3,?4)",
            (id, part, chunk, body),
        ),
        Change::AddPart { id, part, size } => c.execute(
            "INSERT INTO local_parts(upload,part,size) VALUES(?1,?2,?3)",
            (id, part, size),
        ),
        Change::SetOffset { id, part, offset } => c.execute(
            "UPDATE local_parts SET offset=?3 WHERE upload=?1 AND part=?2",
            (id, part, offset),
        ),
        Change::DropChunk { id, part, chunk } => c.execute(
            "DELETE FROM local_chunks WHERE upload=?1 AND part=?2 AND chunk=?3",
            (id, part, chunk),
        ),
        Change::DropParts { id } => c.execute("DELETE FROM local_parts WHERE upload=?1", [id]),
        Change::DropUpload { id } => c.execute("DELETE FROM local_uploads WHERE id=?1", [id]),
    }
}

/// The stored attributes of a row, as their JSON text says.
fn parse_attributes(text: &str) -> Result<Vec<StoredAttribute>, String> {
    let value: serde_json::Value = serde_json::from_str(text).map_err(|e| e.to_string())?;
    let list = value.as_array().ok_or("no list")?;
    list.iter()
        .map(|entry| {
            let text = |name: &str| entry.get(name).and_then(|v| v.as_str());
            Ok(StoredAttribute {
                kind: text("kind").ok_or("no kind")?.to_string(),
                name: text("name").map(str::to_string),
                value: text("value").ok_or("no value")?.to_string(),
            })
        })
        .collect()
}

/// The JSON text of some attributes.
fn attributes_text(pairs: &Vec<AttributePair>) -> Result<String, StoreError> {
    let stored = encode_attributes(pairs)?;
    let list = stored
        .iter()
        .map(|s| {
            let mut entry = serde_json::Map::new();
            entry.insert("kind".into(), s.kind.clone().into());
            entry.insert("name".into(), s.name.clone().into());
            entry.insert("value".into(), s.value.clone().into());
            serde_json::Value::Object(entry)
        })
        .collect();
    Ok(serde_json::Value::Array(list).to_string())
}

fn plain() -> ReadOptions {
    ReadOptions {
        if_match: None,
        if_none_match: None,
        if_modified_since: None,
        if_unmodified_since: None,
        range: None,
        head: false,
    }
}

fn page_options(
    delimiter: Option<&str>,
    max_keys: usize,
    page_token: Option<String>,
    offset: Option<&str>,
) -> PageOptions {
    PageOptions {
        offset: offset.map(str::to_string),
        delimiter: delimiter.map(str::to_string),
        max_keys: Some(max_keys),
        page_token,
    }
}

fn locations(objects: &[ObjectMeta]) -> Vec<String> {
    objects.iter().map(|o| o.location.clone()).collect()
}

fn count_chunks(connection: &Connection) -> i64 {
    connection
        .query_row("SELECT count(*) FROM local_chunks", [], |r| r.get(0))
        .unwrap()
}

impl Store {
    fn open(database: &Path) -> Result<Store, StoreError> {
        let store = Store {
            database: database.to_path_buf(),
        };
        let mut connection = store.connect();
        connection
            .pragma_update(None, "journal_mode", "WAL")
            .unwrap();
        let tx = connection
            .transaction_with_behavior(TransactionBehavior::Immediate)
            .unwrap();
        let version: i64 = tx
            .pragma_query_value(None, "user_version", |r| r.get(0))
            .unwrap();
        check_format(version)?;
        tx.execute_batch(SCHEMA).unwrap();
        tx.execute(
            "INSERT OR IGNORE INTO store_sequence(singleton,next_etag) VALUES(1,?1)",
            [FIRST_ETAG],
        )
        .unwrap();
        let columns = {
            let mut statement = tx.prepare("PRAGMA table_info(objects)").unwrap();
            let columns = statement
                .query_map([], |r| r.get::<_, String>(1))
                .unwrap()
                .collect::<Result<Vec<_>, _>>()
                .unwrap();
            columns
        };
        if needs_widening(&columns) {
            tx.execute_batch(
                "ALTER TABLE objects ADD COLUMN size INTEGER;
                 ALTER TABLE objects ADD COLUMN content_id INTEGER;",
            )
            .unwrap();
        }
        tx.execute_batch("PRAGMA user_version = 2;").unwrap();
        tx.commit().unwrap();
        store.cleanup_after(Operation::Open);
        Ok(store)
    }

    fn connect(&self) -> Connection {
        Connection::open(&self.database).unwrap()
    }

    /// Runs one transaction: reads what it needs, decides, and writes.
    fn transact<T>(
        &self,
        decide: impl FnOnce(&Connection) -> Result<(Vec<Change>, T), StoreError>,
    ) -> Result<T, StoreError> {
        let mut connection = self.connect();
        let tx = connection
            .transaction_with_behavior(TransactionBehavior::Immediate)
            .unwrap();
        let (changes, answer) = decide(&tx)?;
        for change in &changes {
            apply(&tx, change).unwrap();
        }
        tx.commit().unwrap();
        Ok(answer)
    }

    fn cleanup_after(&self, operation: Operation) {
        if cleans_up(operation) {
            self.cleanup();
        }
    }

    fn cleanup(&self) {
        let connection = self.connect();
        let cutoff = garbage_cutoff(wall_ms());
        let one = |sql: &str| -> Option<i64> {
            connection
                .query_row(sql, [cutoff], |r| r.get(0))
                .optional()
                .unwrap()
        };
        let retired = one("SELECT id FROM local_uploads WHERE state=2 AND ?1=?1 LIMIT 1");
        let expired =
            one("SELECT id FROM local_uploads WHERE state=0 AND touched_ms<?1 LIMIT 1");
        let Some(id) = garbage_candidate(retired, expired) else {
            return;
        };
        self.transact(|tx| {
            let mut statement = tx
                .prepare("SELECT part,chunk FROM local_chunks WHERE upload=?1 LIMIT 3")
                .unwrap();
            let chunks = statement
                .query_map([id], |r| Ok((r.get(0)?, r.get(1)?)))
                .unwrap()
                .collect::<Result<Vec<(i64, i64)>, _>>()
                .unwrap();
            let facts = GarbageFacts {
                id,
                upload: upload_row(tx, id),
                chunks,
            };
            Ok((collect_garbage(&facts, cutoff), ()))
        })
        .unwrap();
    }

    fn put_opts(
        &self,
        key: &str,
        body: Vec<u8>,
        attributes: Vec<AttributePair>,
        mode: PutMode,
    ) -> Result<PutResult, StoreError> {
        let mut step = put_first(body.len());
        let mut answer: Option<Result<PutResult, StoreError>> = None;
        let mut payload = Some(body);
        loop {
            let event = match step {
                PutStep::Inline => {
                    let text = attributes_text(&attributes)?;
                    let body = payload.take().unwrap();
                    answer = Some(self.transact(|tx| {
                        put_inline(key, body, text, &mode, target(tx, key), wall_ms())
                    }));
                    self.cleanup_after(Operation::Put);
                    PutEvent::Done
                }
                PutStep::Begin => PutEvent::Begun { id: self.begin() },
                PutStep::WritePart { id } => {
                    match self.write_part(id, 0, vec![payload.take().unwrap()]) {
                        Ok(()) => PutEvent::Done,
                        Err(error) => {
                            answer = Some(Err(error));
                            PutEvent::Failed
                        }
                    }
                }
                PutStep::Publish { id } => {
                    let result = self.publish(id, 1, key, &attributes, &mode);
                    let event = if result.is_ok() {
                        PutEvent::Done
                    } else {
                        PutEvent::Failed
                    };
                    answer = Some(result);
                    event
                }
                PutStep::Abort { id } => {
                    self.abort(id);
                    PutEvent::Done
                }
                PutStep::Finish => return answer.unwrap(),
            };
            step = put_next(step, event);
        }
    }

    fn put(&self, key: &str, body: Vec<u8>) -> Result<PutResult, StoreError> {
        self.put_opts(key, body, Vec::new(), PutMode::Overwrite)
    }

    fn delete(&self, key: &str) {
        self.transact(|tx| Ok((delete_sync(key, target(tx, key)), ())))
            .unwrap();
        self.cleanup_after(Operation::Delete);
    }

    fn copy(&self, from: &str, to: &str, create: bool) -> Result<(), StoreError> {
        self.transact(|tx| {
            let source = stored_row(tx, from);
            copy_sync(from, to, create, source, target(tx, to), wall_ms())
                .map(|changes| (changes, ()))
        })?;
        self.cleanup_after(Operation::Copy);
        Ok(())
    }

    fn begin(&self) -> i64 {
        let begun = self.transact(|tx| {
            let last: i64 = tx
                .query_row(
                    "SELECT COALESCE(MAX(seq),0) FROM sqlite_sequence WHERE name='local_uploads'",
                    [],
                    |r| r.get(0),
                )
                .unwrap();
            Ok((begin_upload(wall_ms()), last + 1))
        });
        self.cleanup_after(Operation::BeginUpload);
        begun.unwrap()
    }

    fn write_one(&self, id: i64, part: i64, chunk: PartChunk) -> Result<(), StoreError> {
        self.transact(|tx| {
            write_chunk(
                id,
                part,
                chunk.chunk,
                chunk.body,
                upload_row(tx, id),
                wall_ms(),
            )
            .map(|changes| (changes, ()))
        })?;
        self.cleanup_after(Operation::WriteChunk);
        Ok(())
    }

    fn write_part(&self, id: i64, part: usize, pieces: Vec<Vec<u8>>) -> Result<(), StoreError> {
        let part = part as i64;
        let length: usize = pieces.iter().map(Vec::len).sum();
        let mut writer = PartWriter::new(id, part, length as u64)?;
        for piece in &pieces {
            let mut from = 0;
            while from < piece.len() {
                let (count, full) = writer.take(piece, from);
                from += count;
                if let Some(chunk) = full {
                    self.write_one(id, part, chunk)?;
                }
            }
        }
        if let Some(chunk) = writer.finish() {
            self.write_one(id, part, chunk)?;
        }
        self.transact(|tx| {
            record_part(id, part, length as i64, upload_row(tx, id), wall_ms())
                .map(|changes| (changes, ()))
        })?;
        self.cleanup_after(Operation::RecordPart);
        Ok(())
    }

    fn publish(
        &self,
        id: i64,
        parts: usize,
        key: &str,
        attributes: &Vec<AttributePair>,
        mode: &PutMode,
    ) -> Result<PutResult, StoreError> {
        let text = attributes_text(attributes)?;
        let result = self.transact(|tx| {
            let mut statement = tx
                .prepare("SELECT part,size FROM local_parts WHERE upload=?1 ORDER BY part")
                .unwrap();
            let sizes = statement
                .query_map([id], |r| Ok((r.get(0)?, r.get(1)?)))
                .unwrap()
                .collect::<Result<Vec<(i64, i64)>, _>>()
                .unwrap();
            let now = wall_ms();
            publish_upload(
                id,
                parts,
                key,
                text,
                mode,
                upload_row(tx, id),
                &sizes,
                target(tx, key),
                now,
                now,
            )
        })?;
        self.cleanup_after(Operation::Publish);
        Ok(result)
    }

    fn abort(&self, id: i64) {
        self.transact(|tx| Ok((abort_upload(id, upload_row(tx, id)), ())))
            .unwrap();
        self.cleanup_after(Operation::Abort);
    }

    fn upload(&self, key: &str) -> Upload {
        Upload {
            store: self.clone(),
            key: key.to_string(),
            handle: LocalUpload::new(self.begin()),
        }
    }

    fn get_opts(&self, key: &str, options: &ReadOptions) -> Result<OpenRead, StoreError> {
        let connection = self.connect();
        connection.execute_batch("BEGIN DEFERRED").unwrap();
        let found = stored_row(&connection, key);
        let stored = match &found {
            Some(object) => parse_attributes(&object.attributes),
            None => Ok(Vec::new()),
        };
        let answer = get_snapshot(key, found, stored, options)?;
        Ok(OpenRead { connection, answer })
    }

    fn get(&self, key: &str) -> Result<OpenRead, StoreError> {
        self.get_opts(key, &plain())
    }

    fn head(&self, key: &str) -> Result<ObjectMeta, StoreError> {
        let options = ReadOptions {
            head: true,
            ..plain()
        };
        Ok(self.get_opts(key, &options)?.answer.meta)
    }

    fn rows(connection: &Connection, query: &KeyQuery) -> Vec<StoredObject> {
        let upper = if query.upper.is_some() {
            "key<?2"
        } else {
            "?2 IS NULL"
        };
        let sql = format!(
            "SELECT {META_COLUMNS} FROM objects WHERE key>=?1 AND {upper}
             AND (?3 IS NULL OR key>?3) ORDER BY key LIMIT ?4"
        );
        let mut statement = connection.prepare(&sql).unwrap();
        let rows = statement
            .query_map(
                (&query.lower, &query.upper, &query.after, query.limit as i64),
                row,
            )
            .unwrap()
            .collect::<Result<Vec<_>, _>>()
            .unwrap();
        rows
    }

    fn page(
        &self,
        prefix: &str,
        options: PageOptions,
    ) -> Result<(Vec<String>, Vec<ObjectMeta>, Option<String>), StoreError> {
        let connection = self.connect();
        connection.execute_batch("BEGIN DEFERRED").unwrap();
        let mut page = PageScan::new(prefix, options);
        loop {
            let Some(query) = page.query() else {
                return Ok((page.common_prefixes, page.objects, None));
            };
            let next = Store::rows(&connection, &query).pop();
            match page.accept(next)? {
                PageStep::Continue => {}
                PageStep::Seek { from, upper } => {
                    let sql = if upper.is_some() {
                        "SELECT key FROM objects WHERE key>=?1 AND key<?2 ORDER BY key DESC LIMIT 1"
                    } else {
                        "SELECT key FROM objects WHERE key>=?1 AND ?2 IS NULL ORDER BY key DESC LIMIT 1"
                    };
                    let last = connection
                        .query_row(sql, (&from, &upper), |r| r.get(0))
                        .unwrap();
                    page.skip_to(last);
                }
                PageStep::Done { page_token } => {
                    return Ok((page.common_prefixes, page.objects, page_token));
                }
            }
        }
    }

    fn list(&self, prefix: Option<&str>, after: Option<&str>) -> Vec<String> {
        let mut stream = ListStream::new(prefix, after.map(str::to_string));
        let mut keys = Vec::new();
        while let Some(query) = stream.query() {
            let batch = Store::rows(&self.connect(), &query);
            keys.extend(locations(&stream.accept(batch).unwrap()));
        }
        keys
    }

    fn directory(&self, prefix: Option<&str>) -> (Vec<String>, Vec<String>) {
        let mut listing = DirectoryListing::new(prefix);
        while let Some(options) = listing.next_page() {
            let (groups, objects, token) = self.page(&listing.prefix.clone(), options).unwrap();
            listing.accept(groups, objects, token);
        }
        (listing.common_prefixes, locations(&listing.objects))
    }
}

impl OpenRead {
    /// The next bytes of the payload, from the snapshot of the read.
    fn next(&mut self) -> Result<Option<Vec<u8>>, StoreError> {
        let Some(payload) = &mut self.answer.payload else {
            return Ok(None);
        };
        fetch(&self.connection, payload)
    }

    fn bytes(mut self) -> Vec<u8> {
        let mut all = Vec::new();
        while let Some(bytes) = self.next().unwrap() {
            assert!(bytes.len() <= CHUNK_SIZE);
            all.extend(bytes);
        }
        all
    }
}

fn fetch(
    connection: &Connection,
    payload: &mut ReadSnapshot,
) -> Result<Option<Vec<u8>>, StoreError> {
    let (bytes, expected): (Vec<u8>, u64) = match payload.next() {
        ReadRequest::Done => return Ok(None),
        ReadRequest::Inline { position, length } => {
            let bytes = connection
                .query_row(
                    "SELECT substr(body,?1,?2) FROM objects WHERE key=?3",
                    (position as i64 + 1, length as i64, &payload.key),
                    |r| r.get(0),
                )
                .unwrap();
            (bytes, length)
        }
        ReadRequest::Part { id, position } => {
            let found = connection
                .query_row(
                    "SELECT part,offset,size FROM local_parts WHERE upload=?1 AND offset<=?2
                     AND size>0 ORDER BY offset DESC LIMIT 1",
                    (id, position as i64),
                    |r| {
                        Ok(PartFacts {
                            part: r.get(0)?,
                            offset: r.get(1)?,
                            size: r.get(2)?,
                        })
                    },
                )
                .unwrap();
            let request = payload.locate(found)?;
            let bytes = connection
                .query_row(
                    "SELECT substr(body,?1,?2) FROM local_chunks WHERE upload=?3 AND part=?4
                     AND chunk=?5",
                    (
                        request.within as i64 + 1,
                        request.length as i64,
                        id,
                        request.part,
                        request.chunk as i64,
                    ),
                    |r| r.get(0),
                )
                .unwrap();
            (bytes, request.length)
        }
    };
    payload.accept(expected, &bytes)?;
    Ok(Some(bytes))
}

impl Upload {
    fn put_part(&mut self, data: &[u8]) -> Result<DelayedPart, StoreError> {
        let part = self.handle.put_part()?;
        Ok(DelayedPart {
            store: self.store.clone(),
            id: self.handle.id,
            part,
            data: data.to_vec(),
        })
    }

    fn complete(&mut self) -> Result<PutResult, StoreError> {
        let parts = self.handle.complete()?;
        let result = self.store.publish(
            self.handle.id,
            parts,
            &self.key,
            &Vec::new(),
            &PutMode::Overwrite,
        );
        self.handle.settle(result.is_ok());
        result
    }

    fn abort(&mut self) {
        if self.handle.abort() {
            self.store.abort(self.handle.id);
            self.handle.settle(true);
        }
    }
}

impl DelayedPart {
    fn run(self) -> Result<(), StoreError> {
        self.store.write_part(self.id, self.part, vec![self.data])
    }
}

fn scratch() -> (tempfile::TempDir, PathBuf) {
    let dir = tempfile::tempdir().unwrap();
    let database = dir.path().join("objects.sqlite3");
    (dir, database)
}

#[test]
fn incomplete_and_aborted_uploads_never_replace_the_visible_object() {
    let (_dir, database) = scratch();
    let store = Store::open(&database).unwrap();
    let original = store.put("media", b"original".to_vec()).unwrap();
    let mut upload = store.upload("media");
    let delayed = upload.put_part(b"first").unwrap();
    upload.put_part(b"second").unwrap().run().unwrap();
    assert!(upload.complete().is_err());
    assert_eq!(store.head("media").unwrap().e_tag, original.e_tag);
    delayed.run().unwrap();
    upload.abort();
    assert!(upload.complete().is_err());
    assert_eq!(store.get("media").unwrap().bytes(), b"original");

    let mut upload = store.upload("media");
    let delayed = upload.put_part(b"cannot resurrect").unwrap();
    upload.abort();
    assert!(delayed.run().is_err());
    assert_eq!(store.head("media").unwrap().e_tag, original.e_tag);
}

#[test]
fn snapshot_and_shared_copy_survive_overwrite_delete_and_complete_reclamation() {
    let (_dir, database) = scratch();
    let store = Store::open(&database).unwrap();
    let bytes = vec![0x5a; 19 * 1024 * 1024 + 17];
    store.put("old", bytes.clone()).unwrap();
    store.copy("old", "copy", false).unwrap();
    let mut old_reader = store.get("old").unwrap();
    let ranged_reader = store
        .get_opts(
            "old",
            &ReadOptions {
                range: Some(ByteRange::Bounded(1024 * 1024 - 3, 1024 * 1024 + 11)),
                ..plain()
            },
        )
        .unwrap();
    store.put("old", b"new".to_vec()).unwrap();
    assert_eq!(store.head("copy").unwrap().size, bytes.len() as u64);
    store.delete("copy");
    assert!(matches!(store.head("copy"), Err(StoreError::NotFound { .. })));
    // Foreground reclamation is bounded to two chunks per successful write.
    let connection = Connection::open(&database).unwrap();
    assert_eq!(count_chunks(&connection), 18);
    for i in 0..10 {
        store
            .put(&format!("later/{i}"), b"metadata".to_vec())
            .unwrap();
    }
    assert_eq!(count_chunks(&connection), 0);
    assert_eq!(ranged_reader.bytes(), bytes[0..14]);
    let mut total = 0;
    while let Some(chunk) = old_reader.next().unwrap() {
        assert!(chunk.len() <= 1024 * 1024);
        assert!(chunk.iter().all(|b| *b == 0x5a));
        total += chunk.len();
    }
    assert_eq!(total, bytes.len());
    assert_eq!(store.get("old").unwrap().bytes(), b"new");
}

#[test]
fn legacy_inline_database_migrates_without_changing_key_etag_or_attributes() {
    let (_dir, database) = scratch();
    let location = object_store::path::Path::from("escaped/a%z");
    let key = location.as_ref();
    assert_eq!(key, "escaped/a%25z");
    let original = vec![0x7b; 3 * 1024 * 1024 + 13];
    let connection = Connection::open(&database).unwrap();
    connection
        .execute_batch(
            "CREATE TABLE objects(key TEXT PRIMARY KEY,body BLOB NOT NULL,
        etag INTEGER NOT NULL,modified_ms INTEGER NOT NULL,attributes TEXT NOT NULL);
        CREATE TABLE store_sequence(singleton INTEGER PRIMARY KEY,next_etag INTEGER NOT NULL);
        INSERT INTO store_sequence VALUES(1,43);",
        )
        .unwrap();
    connection
        .execute(
            "INSERT INTO objects VALUES(?1,?2,42,1000,?3)",
            (
                key,
                &original,
                r#"[{"kind":"content-type","name":null,"value":"audio/test"}]"#,
            ),
        )
        .unwrap();
    drop(connection);
    let store = Store::open(&database).unwrap();
    let head = store.head(key).unwrap();
    assert_eq!(head.location, key);
    assert_eq!(head.e_tag, "42");
    assert_eq!(head.size, original.len() as u64);
    let ranged = store
        .get_opts(
            key,
            &ReadOptions {
                range: Some(ByteRange::Bounded(
                    3 * 1024 * 1024,
                    original.len() as u64,
                )),
                ..plain()
            },
        )
        .unwrap();
    assert_eq!(ranged.answer.attributes.len(), 1);
    assert!(matches!(
        ranged.answer.attributes[0].attribute,
        Attribute::ContentType
    ));
    assert_eq!(ranged.answer.attributes[0].value, "audio/test");
    assert_eq!(ranged.bytes(), &original[3 * 1024 * 1024..]);
    let mut stream = store.get(key).unwrap();
    let mut count = 0;
    while let Some(bytes) = stream.next().unwrap() {
        assert!(bytes.len() <= 1024 * 1024);
        count += bytes.len();
    }
    assert_eq!(count, original.len());
    let replacement = store.put(key, b"next".to_vec()).unwrap();
    assert_eq!(replacement.e_tag, "43");
}

#[test]
fn expired_upload_is_fenced_and_reclaimed_but_active_upload_survives_reopen() {
    let (_dir, database) = scratch();
    let store = Store::open(&database).unwrap();
    let mut upload = store.upload("staging");
    upload
        .put_part(&vec![9; 2 * 1024 * 1024])
        .unwrap()
        .run()
        .unwrap();
    let reopened = Store::open(&database).unwrap();
    assert!(matches!(
        reopened.head("staging"),
        Err(StoreError::NotFound { .. })
    ));
    let connection = Connection::open(&database).unwrap();
    assert_eq!(count_chunks(&connection), 2);
    connection
        .execute("UPDATE local_uploads SET touched_ms=0 WHERE state=0", [])
        .unwrap();
    let _reopened = Store::open(&database).unwrap();
    assert_eq!(count_chunks(&connection), 0);
    assert!(upload.put_part(b"late").unwrap().run().is_err());
    assert!(upload.complete().is_err());
}

#[test]
fn late_pages_and_large_common_prefix_keep_exact_order_and_key_boundaries() {
    let (_dir, database) = scratch();
    let store = Store::open(&database).unwrap();
    let mut connection = Connection::open(&database).unwrap();
    let tx = connection.transaction().unwrap();
    for i in 0..10_000 {
        tx.execute(
            "INSERT INTO objects(key,body,etag,modified_ms,attributes,size) VALUES(?1,X'',1,0,'[]',0)",
            [format!("many/group/{i:05}")],
        )
        .unwrap();
    }
    for key in [
        "many/z",
        "many0/other",
        "many/é/one",
        "many/é/two",
        "many/ê",
    ] {
        tx.execute(
            "INSERT INTO objects(key,body,etag,modified_ms,attributes,size) VALUES(?1,X'',1,0,'[]',0)",
            [key],
        )
        .unwrap();
    }
    tx.commit().unwrap();
    let first = store
        .page("many/", page_options(Some("/"), 1, None, None))
        .unwrap();
    assert_eq!(first.0, vec!["many/group"]);
    let second = store
        .page("many/", page_options(Some("/"), 2, first.2, None))
        .unwrap();
    assert_eq!(locations(&second.1), ["many/z"]);
    assert_eq!(second.0, vec!["many/é"]);
    let last = store
        .page("many/", page_options(Some("/"), 2, second.2, None))
        .unwrap();
    assert_eq!(locations(&last.1), ["many/ê"]);
    assert!(last.2.is_none());
    let page = store
        .page(
            "many/group/",
            page_options(None, 2, None, Some("many/group/09996")),
        )
        .unwrap();
    assert_eq!(
        locations(&page.1),
        ["many/group/09997", "many/group/09998"]
    );
}

#[test]
fn create_missing_parent_and_reject_future_schema_without_mutation() {
    let dir = tempfile::tempdir().unwrap();
    let new = tempfile::tempdir_in(dir.path()).unwrap();
    let nested = tempfile::tempdir_in(new.path()).unwrap();
    let database = nested.path().join("objects.sqlite3");
    assert!(Store::open(&database).is_ok());
    let connection = Connection::open(&database).unwrap();
    connection.pragma_update(None, "user_version", 999).unwrap();
    assert!(matches!(
        Store::open(&database),
        Err(StoreError::NewerFormat { version: 999 })
    ));
    assert_eq!(
        connection
            .pragma_query_value(None, "user_version", |r| r.get::<_, i64>(0))
            .unwrap(),
        999
    );
}

#[test]
fn conditional_writes_have_one_winner_and_stale_etags_never_return() {
    let (_dir, database) = scratch();
    let store = Store::open(&database).unwrap();
    let created = store
        .put_opts("race", b"a".to_vec(), Vec::new(), PutMode::Create)
        .unwrap();
    assert_eq!(created.e_tag, "1");
    assert!(matches!(
        store.put_opts("race", b"b".to_vec(), Vec::new(), PutMode::Create),
        Err(StoreError::AlreadyExists { .. })
    ));
    let update = PutMode::Update(Some(created.e_tag.clone()));
    let updated = store
        .put_opts("race", b"c".to_vec(), Vec::new(), update.clone())
        .unwrap();
    assert_eq!(updated.e_tag, "2");
    assert!(matches!(
        store.put_opts("race", b"d".to_vec(), Vec::new(), update.clone()),
        Err(StoreError::Precondition { .. })
    ));
    assert!(matches!(
        store.put_opts("race", b"e".to_vec(), Vec::new(), PutMode::Update(None)),
        Err(StoreError::Precondition { .. })
    ));
    store.delete("race");
    assert!(matches!(
        store.put_opts("race", b"f".to_vec(), Vec::new(), update.clone()),
        Err(StoreError::Precondition { .. })
    ));
    assert_eq!(store.put("race", b"recreated".to_vec()).unwrap().e_tag, "3");
    assert!(matches!(
        store.put_opts("race", b"g".to_vec(), Vec::new(), update),
        Err(StoreError::Precondition { .. })
    ));
    assert_eq!(store.get("race").unwrap().bytes(), b"recreated");
}

#[test]
fn copies_share_and_outlive_their_source() {
    let (_dir, database) = scratch();
    let store = Store::open(&database).unwrap();
    let body: Vec<u8> = (0..2 * CHUNK_SIZE + 5).map(|i| (i % 251) as u8).collect();
    store.put("source", body.clone()).unwrap();
    assert!(matches!(
        store.copy("absent", "source", false),
        Err(StoreError::NotFound { path }) if path == "absent"
    ));
    assert!(matches!(
        store.copy("absent", "absent", true),
        Err(StoreError::NotFound { .. })
    ));
    store.copy("source", "copy", true).unwrap();
    assert!(matches!(
        store.copy("source", "copy", true),
        Err(StoreError::AlreadyExists { path }) if path == "copy"
    ));
    // A copy onto itself keeps its content.
    store.copy("copy", "copy", false).unwrap();
    store.put("source", b"small".to_vec()).unwrap();
    for i in 0..5 {
        store.put(&format!("later/{i}"), Vec::new()).unwrap();
    }
    assert_eq!(store.get("copy").unwrap().bytes(), body);
    store.delete("copy");
    for i in 0..5 {
        store.put(&format!("later/{i}"), Vec::new()).unwrap();
    }
    assert_eq!(count_chunks(&store.connect()), 0);
}

#[test]
fn parts_publish_in_call_order_whatever_order_they_arrive_in() {
    let (_dir, database) = scratch();
    let store = Store::open(&database).unwrap();
    let mut upload = store.upload("media");
    let head = vec![9; 5 * 1024 * 1024];
    let a = upload.put_part(&head).unwrap();
    let empty = upload.put_part(b"").unwrap();
    let b = upload.put_part(b"tail").unwrap();
    b.run().unwrap();
    empty.run().unwrap();
    a.run().unwrap();
    let result = upload.complete().unwrap();
    assert!(upload.put_part(b"late").is_err());
    assert!(matches!(upload.complete(), Err(StoreError::UploadClosed)));
    let mut expected = head;
    expected.extend_from_slice(b"tail");
    let meta = store.head("media").unwrap();
    assert_eq!(meta.e_tag, result.e_tag);
    assert_eq!(meta.size, expected.len() as u64);
    assert_eq!(store.get("media").unwrap().bytes(), expected);
    for (start, end) in [
        (0, 17),
        (1024 * 1024 - 3, 1024 * 1024 + 11),
        (5 * 1024 * 1024 - 1, 5 * 1024 * 1024 + 4),
    ] {
        let ranged = store
            .get_opts(
                "media",
                &ReadOptions {
                    range: Some(ByteRange::Bounded(start, end)),
                    ..plain()
                },
            )
            .unwrap();
        assert_eq!((ranged.answer.start, ranged.answer.end), (start, end));
        assert_eq!(
            ranged.bytes(),
            expected[start as usize..end as usize]
        );
    }
    let suffix = store
        .get_opts(
            "media",
            &ReadOptions {
                range: Some(ByteRange::Suffix(4)),
                ..plain()
            },
        )
        .unwrap();
    assert_eq!(suffix.bytes(), b"tail");
}

#[test]
fn an_upload_takes_ten_thousand_parts_and_no_more() {
    let mut upload = LocalUpload::new(1);
    for part in 0..10_000 {
        assert_eq!(upload.put_part().unwrap(), part);
    }
    assert!(matches!(upload.put_part(), Err(StoreError::UploadFull)));
    assert_eq!(upload.complete().unwrap(), 10_000);
    assert!(upload.abort());
    upload.settle(false);
    assert!(upload.abort());
    upload.settle(true);
    assert!(!upload.abort());
}

#[test]
fn reads_are_refused_in_one_order() {
    let (_dir, database) = scratch();
    let store = Store::open(&database).unwrap();
    assert!(matches!(
        store.get("nothing"),
        Err(StoreError::NotFound { path }) if path == "nothing"
    ));
    store.put("object", b"0123456789".to_vec()).unwrap();
    let with = |change: &dyn Fn(&mut ReadOptions)| {
        let mut options = plain();
        change(&mut options);
        store.get_opts("object", &options)
    };
    assert!(with(&|o| o.if_match = Some("7, 1 ".into())).is_ok());
    assert!(with(&|o| o.if_match = Some("*".into())).is_ok());
    let said = |change: &dyn Fn(&mut ReadOptions)| match with(change) {
        Ok(_) => panic!("the read was served"),
        Err(error) => error.message(),
    };
    assert!(matches!(
        with(&|o| o.if_match = Some("7".into())),
        Err(StoreError::ConditionFailed { path, .. }) if path == "object"
    ));
    assert_eq!(
        said(&|o| o.if_match = Some("7".into())),
        "1 does not match 7"
    );
    assert!(matches!(
        with(&|o| o.if_none_match = Some("9,1".into())),
        Err(StoreError::NotModified { path, .. }) if path == "object"
    ));
    assert_eq!(
        said(&|o| o.if_none_match = Some("9,1".into())),
        "1 matches 9,1"
    );
    let before_1970 = CalendarTime {
        seconds: -1,
        nanos: 999_000_000,
    };
    let at = |seconds: i64, nanos: u32| Some(CalendarTime { seconds, nanos });
    assert!(said(&|o| o.if_unmodified_since = Some(before_1970))
        .starts_with("1969-12-31 23:59:59.999 UTC < "));
    assert!(said(&|o| o.if_modified_since = at(4_102_444_800, 0))
        .starts_with("2100-01-01 00:00:00 UTC >= "));
    assert!(with(&|o| o.if_none_match = Some("9".into())).is_ok());
    assert!(matches!(
        with(&|o| o.if_unmodified_since = Some(before_1970)),
        Err(StoreError::ConditionFailed { .. })
    ));
    assert!(matches!(
        with(&|o| o.if_modified_since = at(wall_ms() / 1000 + 1, 0)),
        Err(StoreError::NotModified { .. })
    ));
    assert!(with(&|o| o.if_modified_since = at(0, 0)).is_ok());
    store
        .connect()
        .execute("UPDATE objects SET modified_ms=1000", [])
        .unwrap();
    assert!(with(&|o| o.if_modified_since = at(0, 999_999_999)).is_ok());
    assert!(with(&|o| o.if_unmodified_since = at(1, 0)).is_ok());
    assert!(with(&|o| o.if_unmodified_since = at(1, 1)).is_ok());
    assert_eq!(
        said(&|o| o.if_modified_since = at(1, 0)),
        "1970-01-01 00:00:01 UTC >= 1970-01-01 00:00:01 UTC"
    );
    assert_eq!(
        said(&|o| o.if_modified_since = at(1, 1)),
        "1970-01-01 00:00:01.000000001 UTC >= 1970-01-01 00:00:01 UTC"
    );
    assert_eq!(
        said(&|o| o.if_unmodified_since = at(0, 999_999_999)),
        "1970-01-01 00:00:00.999999999 UTC < 1970-01-01 00:00:01 UTC"
    );
    let reason = |range: ByteRange| match with(&|o| o.range = Some(range)) {
        Err(StoreError::BadRange { reason }) => reason,
        _ => panic!("the range was served"),
    };
    assert_eq!(
        reason(ByteRange::Bounded(11, 20)),
        "Wanted range starting at 11, but object was only 10 bytes long"
    );
    assert_eq!(
        reason(ByteRange::Bounded(5, 5)),
        "Range started at 5 and ended at 5"
    );
    assert_eq!(
        reason(ByteRange::Offset(10)),
        "Wanted range starting at 10, but object was only 10 bytes long"
    );
    let read = |range: ByteRange| with(&|o| o.range = Some(range)).unwrap().bytes();
    assert_eq!(read(ByteRange::Bounded(2, 99)), b"23456789");
    assert_eq!(read(ByteRange::Offset(7)), b"789");
    assert_eq!(read(ByteRange::Suffix(99)), b"0123456789");
    let head = with(&|o| o.head = true).unwrap();
    assert!(head.answer.payload.is_none());
    assert_eq!(head.answer.meta.size, 10);
    assert!(head.bytes().is_empty());
    let connection = store.connect();
    connection
        .execute(
            "UPDATE objects SET attributes='[{\"kind\":\"odd\",\"name\":null,\"value\":\"\"}]'",
            [],
        )
        .unwrap();
    match store.get("object") {
        Err(error) => assert_eq!(error.message(), "unknown stored attribute \"odd\""),
        Ok(_) => panic!("an unknown attribute was read"),
    }
    connection
        .execute("UPDATE objects SET attributes='no list'", [])
        .unwrap();
    assert!(matches!(
        store.get("object"),
        Err(StoreError::UnreadableAttributes { .. })
    ));
}

#[test]
fn attributes_come_back_as_they_were_put() {
    let (_dir, database) = scratch();
    let store = Store::open(&database).unwrap();
    let pair = |attribute: Attribute, value: &str| AttributePair {
        attribute,
        value: value.to_string(),
    };
    let pairs = vec![
        pair(Attribute::ContentDisposition, "inline"),
        pair(Attribute::ContentEncoding, "gzip"),
        pair(Attribute::ContentLanguage, "en"),
        pair(Attribute::ContentType, "audio/mpeg"),
        pair(Attribute::CacheControl, "no-store"),
        pair(Attribute::StorageClass, "Standard"),
        pair(Attribute::Metadata("title".into()), "Radio \u{6771}"),
    ];
    store
        .put_opts("rich", b"x".to_vec(), pairs.clone(), PutMode::Overwrite)
        .unwrap();
    let read = store.get("rich").unwrap().answer.attributes;
    assert_eq!(format!("{read:?}"), format!("{pairs:?}"));
    let odd = vec![pair(Attribute::Unsupported("Odd".into()), "x")];
    assert!(matches!(
        store.put_opts("odd", b"x".to_vec(), odd, PutMode::Overwrite),
        Err(StoreError::UnsupportedAttribute)
    ));
    let nameless = vec![StoredAttribute {
        kind: "metadata".into(),
        name: None,
        value: "v".into(),
    }];
    match &decode_attributes(&nameless).unwrap()[0].attribute {
        Attribute::Metadata(name) => assert_eq!(name, ""),
        other => panic!("{other:?}"),
    }
}

#[test]
fn listings_are_ordered_paged_and_grouped() {
    let (_dir, database) = scratch();
    let store = Store::open(&database).unwrap();
    for i in (0..211).rev() {
        store
            .put(&format!("study/list/{i:04}"), b"value".to_vec())
            .unwrap();
    }
    store
        .put("study/list-other/x", b"excluded".to_vec())
        .unwrap();
    let expected: Vec<String> = (0..211).map(|i| format!("study/list/{i:04}")).collect();
    assert_eq!(store.list(Some("study/list"), None), expected);
    assert_eq!(
        store.list(Some("study/list"), Some("study/list/0100")),
        expected[101..]
    );
    assert_eq!(store.list(None, None).len(), 212);
    let mut token = None;
    let mut all = Vec::new();
    let mut pages = 0;
    loop {
        let (_, objects, next) = store
            .page("study/list/", page_options(None, 7, token, None))
            .unwrap();
        assert!(objects.len() <= 7);
        all.extend(locations(&objects));
        pages += 1;
        token = next;
        if token.is_none() {
            break;
        }
    }
    assert_eq!(all, expected);
    assert_eq!(pages, 31);
    let (groups, objects) = store.directory(Some("study"));
    assert_eq!(groups, vec!["study/list-other", "study/list"]);
    assert!(objects.is_empty());
    let (groups, objects) = store.directory(Some("study/list"));
    assert!(groups.is_empty());
    assert_eq!(objects, expected);
    let none = store
        .page("study/list/", page_options(None, 0, None, None))
        .unwrap();
    assert!(none.0.is_empty() && none.1.is_empty() && none.2.is_none());
}

#[test]
fn a_cursor_is_a_position_and_stable_keys_are_never_hidden() {
    let (_dir, database) = scratch();
    let store = Store::open(&database).unwrap();
    for key in ["b", "d", "f", "h"] {
        store
            .put(&format!("study/mutation/{key}"), b"value".to_vec())
            .unwrap();
    }
    let first = store
        .page("study/mutation/", page_options(None, 2, None, None))
        .unwrap();
    store.delete("study/mutation/d");
    store.delete("study/mutation/f");
    for key in ["a", "e", "z"] {
        store
            .put(&format!("study/mutation/{key}"), b"new".to_vec())
            .unwrap();
    }
    let second = store
        .page("study/mutation/", page_options(None, 20, first.2, None))
        .unwrap();
    assert_eq!(
        locations(&second.1),
        ["e", "h", "z"].map(|k| format!("study/mutation/{k}"))
    );
    let (_, objects) = store.directory(Some("study/mutation"));
    assert_eq!(objects.len(), 5);
    assert!(store
        .page("study/escaped/", page_options(Some("/"), 1, None, None))
        .unwrap()
        .0
        .is_empty());
}

#[test]
fn keys_that_are_no_paths_are_told_apart() {
    let stored = |key: &str| StoredObject {
        key: key.to_string(),
        size: 1,
        etag: 5,
        modified_ms: -3,
        attributes: "[]".to_string(),
        content_id: None,
    };
    let meta = object_meta(&stored("/a/b/")).unwrap();
    assert_eq!(meta.location, "a/b");
    assert_eq!(meta.last_modified_ms, 0);
    assert_eq!(meta.e_tag, "5");
    for key in ["a//b", "a/./b", "a/../b", "a/\u{7}/b"] {
        assert!(matches!(
            object_meta(&stored(key)),
            Err(StoreError::InvalidPath { path, .. }) if path == key
        ));
    }
    let mut stream = ListStream::new(None, None);
    assert!(stream
        .accept(vec![stored("fine"), stored("a//b")])
        .is_err());
    assert!(stream.query().is_none());
}

#[test]
fn exhausted_and_overflowing_numbers_are_errors() {
    let facts = TargetFacts {
        etag: None,
        content_id: None,
        shared: false,
        next_etag: i64::MAX,
    };
    let mode = PutMode::Overwrite;
    assert!(matches!(
        put_inline("k", Vec::new(), "[]".into(), &mode, facts, 0),
        Err(StoreError::SequenceExhausted)
    ));
    let active = Some(UploadFacts {
        state: 0,
        touched_ms: 0,
    });
    let facts = TargetFacts {
        next_etag: 1,
        ..facts
    };
    let huge = vec![(0, i64::MAX), (1, 1)];
    assert!(matches!(
        publish_upload(1, 2, "k", "[]".into(), &mode, active, &huge, facts, 0, 0),
        Err(StoreError::SizeOverflow)
    ));
    let gap = vec![(0, 1), (2, 1)];
    assert!(matches!(
        publish_upload(1, 2, "k", "[]".into(), &mode, active, &gap, facts, 0, 0),
        Err(StoreError::MissingParts)
    ));
    assert!(matches!(
        publish_upload(1, 2, "k", "[]".into(), &mode, None, &gap, facts, 0, 0),
        Err(StoreError::UploadGone)
    ));
    assert!(PartWriter::new(1, 0, i64::MAX as u64 + 1).is_err());
    assert_eq!(garbage_cutoff(86_400_001), 1);
    assert_eq!(garbage_cutoff(i64::MIN), i64::MIN);
}

#[test]
fn broken_layouts_and_short_chunks_are_errors() {
    let mut payload = ReadSnapshot {
        key: "k".into(),
        content_id: Some(3),
        position: 10,
        end: 20,
    };
    let found = PartFacts {
        part: 0,
        offset: 0,
        size: 10,
    };
    assert!(matches!(payload.locate(found), Err(StoreError::BadLayout)));
    let found = PartFacts {
        part: 0,
        offset: 0,
        size: 15,
    };
    let request = payload.locate(found).unwrap();
    assert_eq!((request.chunk, request.within, request.length), (0, 10, 5));
    assert!(matches!(
        payload.accept(request.length, &vec![0; 4]),
        Err(StoreError::Truncated)
    ));
    payload.accept(request.length, &vec![0; 5]).unwrap();
    assert_eq!(payload.position, 15);
}

#[test]
fn refusals_have_their_messages() {
    let path = String::from("p");
    let said = |error: StoreError| error.message();
    assert_eq!(
        said(StoreError::NotFound { path: path.clone() }),
        "the object does not exist"
    );
    assert_eq!(
        said(StoreError::AlreadyExists { path: path.clone() }),
        "the object already exists"
    );
    assert_eq!(
        said(StoreError::Precondition { path }),
        "the ETag does not match"
    );
    assert_eq!(
        said(StoreError::NewerFormat { version: 999 }),
        "local store format 999 is newer than this Celld supports"
    );
    assert_eq!(said(StoreError::BadLayout), "invalid object chunk layout");
    assert_eq!(said(StoreError::Truncated), "truncated object chunk");
    assert_eq!(
        said(StoreError::UploadGone),
        "multipart upload was completed, aborted, or expired"
    );
    assert!(metadata("k", None).is_err());
}

#[test]
fn every_write_of_a_new_store_has_a_greater_etag() {
    let (_dir, database) = scratch();
    let store = Store::open(&database).unwrap();
    let mut etags = vec![store.put("a", b"1".to_vec()).unwrap().e_tag];
    assert_eq!(etags[0], FIRST_ETAG.to_string());
    etags.push(store.put("a", b"2".to_vec()).unwrap().e_tag);
    store.delete("a");
    etags.push(store.put("a", b"1".to_vec()).unwrap().e_tag);
    store.copy("a", "b", true).unwrap();
    etags.push(store.head("b").unwrap().e_tag);
    let mut upload = store.upload("a");
    upload.put_part(b"3").unwrap().run().unwrap();
    etags.push(upload.complete().unwrap().e_tag);
    assert!(store
        .put_opts("a", b"4".to_vec(), Vec::new(), PutMode::Create)
        .is_err());
    let reopened = Store::open(&database).unwrap();
    etags.push(reopened.put("c", Vec::new()).unwrap().e_tag);
    assert_eq!(etags, ["1", "2", "3", "4", "5", "6"]);
}

#[test]
fn reclaiming_follows_what_frees_or_stores_content() {
    for operation in [
        Operation::Open,
        Operation::Put,
        Operation::Delete,
        Operation::Copy,
        Operation::WriteChunk,
        Operation::Publish,
        Operation::Abort,
    ] {
        assert!(cleans_up(operation), "{operation:?}");
    }
    assert!(!cleans_up(Operation::BeginUpload));
    assert!(!cleans_up(Operation::RecordPart));
    assert_eq!((WRITER_TIMEOUT_MS, CLEANUP_TIMEOUT_MS), (30_000, 0));
}

/// Whether a transaction goes through; one that does not is rolled back.
fn commits(store: &Store, changes: &[Change]) -> bool {
    let mut connection = store.connect();
    let tx = connection
        .transaction_with_behavior(TransactionBehavior::Immediate)
        .unwrap();
    let fits = changes.iter().all(|change| apply(&tx, change).is_ok());
    if fits {
        tx.commit().unwrap();
    }
    fits
}

#[test]
fn a_row_that_is_there_fails_its_transaction_and_stays() {
    let (_dir, database) = scratch();
    let store = Store::open(&database).unwrap();
    let id = store.begin();
    let upload = || upload_row(&store.connect(), id);
    let chunk = |body: &[u8], now_ms: i64| {
        write_chunk(id, 0, 0, body.to_vec(), upload(), now_ms).unwrap()
    };
    let part = |size: i64, now_ms: i64| record_part(id, 0, size, upload(), now_ms).unwrap();
    let rows = || {
        let connection = store.connect();
        let body: Vec<u8> = connection
            .query_row("SELECT body FROM local_chunks", [], |r| r.get(0))
            .unwrap();
        let size: Option<i64> = connection
            .query_row("SELECT size FROM local_parts", [], |r| r.get(0))
            .optional()
            .unwrap();
        (body, size, upload().unwrap().touched_ms)
    };
    assert!(commits(&store, &chunk(b"first", 10)));
    assert!(!commits(&store, &chunk(b"other", 20)));
    assert_eq!(rows(), (b"first".to_vec(), None, 10));
    assert!(commits(&store, &part(5, 30)));
    assert!(!commits(&store, &part(6, 40)));
    assert_eq!(rows(), (b"first".to_vec(), Some(5), 30));

    store
        .connect()
        .execute(
            "UPDATE sqlite_sequence SET seq=?1 WHERE name='local_uploads'",
            [i64::MAX],
        )
        .unwrap();
    assert!(!commits(&store, &begin_upload(50)));
}

#[test]
fn a_directory_of_many_pages_is_the_whole_listing() {
    let (_dir, database) = scratch();
    let store = Store::open(&database).unwrap();
    let connection = store.connect();
    connection.execute_batch("BEGIN IMMEDIATE").unwrap();
    for i in 0..300 {
        for key in [
            format!("d/{i:03}"),
            format!("d/{i:03}/a"),
            format!("d/{i:03}/b/c"),
            format!("e/{i:03}"),
        ] {
            connection
                .execute(
                    "INSERT INTO objects(key,body,etag,modified_ms,attributes,size)
                     VALUES(?1,X'',1,0,'[]',0)",
                    [key],
                )
                .unwrap();
        }
    }
    connection.execute_batch("COMMIT").unwrap();
    let expected: Vec<String> = (0..300).map(|i| format!("d/{i:03}")).collect();
    assert_eq!(store.directory(Some("d")), (expected.clone(), expected));
    assert_eq!(
        store.directory(None),
        (vec!["d".to_string(), "e".to_string()], Vec::new())
    );
    assert_eq!(store.directory(Some("f")), (Vec::new(), Vec::new()));
}
