//! Transfers between namespaces.
use celld_store::attributes::{Attribute, AttributePair};
use celld_store::transfer::audit::{
    audit_root, check_node_size, is_node_key, root_state, JsonAt, RootAudit, RootFacts,
};
use celld_store::transfer::copy::{
    check_absent, copy_route, CopyReader, CopyRoute, DestinationHead, PART_BYTES,
};
use celld_store::transfer::failure::TransferError;
use celld_store::transfer::namespace::{
    bucket_facts, check_present, key, namespace_path, overlaps, store_spec, BucketFacts,
    Inventory, Listed, StoreSpec,
};
use celld_store::transfer::options::{command, parse, Command, Mode, Options, UsageError};
use celld_store::transfer::record::{attributes, Fingerprint, ObjectRecord, ReadMeta};
use celld_store::transfer::run::{Manifest, Phase, Summary, TransferRun};
use celld_store::transfer::steps::{copy_next, CopyEvent, CopyStep};
use celld_store::transfer::verify::Verification;
use std::collections::BTreeMap;

#[derive(Clone)]
struct Object {
    body: Vec<u8>,
    pairs: Vec<AttributePair>,
    etag: u64,
}

/// A namespace in memory.
struct Namespace {
    facts: BucketFacts,
    objects: BTreeMap<String, Object>,
    writes: u64,
}

impl Namespace {
    fn new(name: &str) -> Namespace {
        Namespace {
            facts: BucketFacts {
                backend: "memory".into(),
                name: name.into(),
                prefix: "fleet/".into(),
            },
            objects: BTreeMap::new(),
            writes: 0,
        }
    }

    fn path(&self, logical: &str) -> String {
        key(&self.facts.prefix, logical).unwrap()
    }

    fn put(&mut self, logical: &str, body: &[u8], pairs: Vec<AttributePair>) {
        self.writes += 1;
        let object = Object {
            body: body.to_vec(),
            pairs,
            etag: self.writes,
        };
        self.objects.insert(self.path(logical), object);
    }

    fn delete(&mut self, logical: &str) {
        let path = self.path(logical);
        self.objects.remove(&path);
    }

    fn get(&self, logical: &str) -> &Object {
        &self.objects[&self.path(logical)]
    }

    fn inventory(&self) -> Result<Inventory, TransferError> {
        assert_eq!(namespace_path(&self.facts.prefix).unwrap(), "fleet");
        let mut inventory = Inventory::new(&self.facts.prefix);
        for (location, object) in self.objects.iter().rev() {
            let listed = Listed {
                key: String::new(),
                size: object.body.len() as u64,
                e_tag: Some(object.etag.to_string()),
                version: None,
                modified_s: object.etag as i64,
                modified_ns: 0,
            };
            inventory.accept(location, listed)?;
        }
        Ok(inventory)
    }

    fn fingerprint(&self, logical: &str) -> Result<ObjectRecord, TransferError> {
        let object = self.get(logical);
        let meta = ReadMeta {
            size: object.body.len() as u64,
            e_tag: Some(object.etag.to_string()),
            version: None,
            modified_ms: object.etag as i64,
        };
        let mut fingerprint = Fingerprint::new(logical, meta, &object.pairs)?;
        for bytes in object.body.chunks(100_003) {
            fingerprint.accept(&bytes.to_vec());
        }
        fingerprint.finish()
    }

    /// A verification that has read every object.
    fn read_all(
        &self,
        records: &Vec<ObjectRecord>,
        source: bool,
    ) -> Result<Verification, TransferError> {
        let mut verification = Verification::new(self.inventory()?, records, source)?;
        while let Some(index) = verification.next() {
            let actual = self.fingerprint(&records[index].key)?;
            verification.accept(&records[index], &actual)?;
        }
        Ok(verification)
    }
}

/// Reads an object to its end, and cuts its parts where an upload takes them.
fn read_source(
    object: &Object,
    mut reader: CopyReader,
    mut upload: Option<&mut Vec<Vec<u8>>>,
) -> Result<Vec<u8>, TransferError> {
    for bytes in object.body.chunks(1_000_003) {
        let bytes = bytes.to_vec();
        reader.accept(&bytes)?;
        let Some(parts) = upload.as_mut() else {
            reader.keep(&bytes);
            continue;
        };
        let mut from = 0;
        while from < bytes.len() {
            let (count, part) = reader.cut(&bytes, from);
            from += count;
            if let Some(part) = part {
                assert_eq!(part.len(), PART_BYTES);
                parts.push(part);
            }
        }
    }
    reader.finish()
}

/// Copies an object, where one step may be made to fail: the steps that were taken
/// and, where the copy stopped for it, why.
fn copy_steps(
    source: &Namespace,
    destination: &mut Namespace,
    record: &ObjectRecord,
    fail: Option<CopyStep>,
) -> (Vec<CopyStep>, Option<TransferError>) {
    let object = source.get(&record.key).clone();
    let size = object.body.len() as u64;
    let occupied = destination
        .objects
        .contains_key(&destination.path(&record.key));
    let mut reader = None;
    let mut upload: Option<Vec<Vec<u8>>> = None;
    let mut rest = Vec::new();
    let mut failure = None;
    let mut steps = vec![CopyStep::Open];
    loop {
        let step = *steps.last().unwrap();
        let done = if Some(step) == fail {
            Ok(CopyEvent::Failed)
        } else {
            match step {
                CopyStep::Open => CopyReader::new(record, size, &object.pairs).map(|opened| {
                    reader = Some(opened);
                    CopyEvent::Opened { size }
                }),
                CopyStep::Gather | CopyStep::Send => {
                    read_source(&object, reader.take().unwrap(), upload.as_mut()).map(|left| {
                        rest = left;
                        CopyEvent::Ended { rest: rest.len() }
                    })
                }
                CopyStep::Create => {
                    assert!(!occupied);
                    destination.put(&record.key, &rest, object.pairs.clone());
                    Ok(CopyEvent::Done)
                }
                CopyStep::Look => {
                    let head = if occupied {
                        DestinationHead::Found
                    } else {
                        DestinationHead::NotFound
                    };
                    check_absent(&record.key, head).map(|()| CopyEvent::Done)
                }
                CopyStep::Begin => {
                    upload = Some(Vec::new());
                    Ok(CopyEvent::Done)
                }
                CopyStep::PutRest => {
                    upload.as_mut().unwrap().push(rest.clone());
                    Ok(CopyEvent::Done)
                }
                CopyStep::Complete => {
                    let body = upload.take().unwrap().concat();
                    destination.put(&record.key, &body, object.pairs.clone());
                    Ok(CopyEvent::Done)
                }
                CopyStep::Abort => {
                    assert!(upload.take().is_some());
                    Ok(CopyEvent::Done)
                }
                CopyStep::Written | CopyStep::Failed => return (steps, failure),
            }
        };
        let event = done.unwrap_or_else(|error| {
            failure = Some(error);
            CopyEvent::Failed
        });
        steps.push(copy_next(step, event));
    }
}

fn copy_object(
    source: &Namespace,
    destination: &mut Namespace,
    record: &ObjectRecord,
) -> Result<(), TransferError> {
    let (steps, failure) = copy_steps(source, destination, record, None);
    match failure {
        Some(error) => Err(error),
        None => {
            assert_eq!(steps.last(), Some(&CopyStep::Written));
            Ok(())
        }
    }
}

fn run(
    source: &Namespace,
    destination: &mut Namespace,
    options: Options,
    manifest: &mut Option<Manifest>,
) -> Result<Summary, TransferError> {
    let mut run = TransferRun::new(options)?;
    assert_eq!(
        run.destination_must_exist(),
        run.options.mode == Mode::Verify
    );
    loop {
        match run.phase {
            Phase::Open => run.opened(&source.facts, &destination.facts)?,
            Phase::ListDestination => run.listed_destination(destination.inventory()?)?,
            Phase::LookForManifest => run.looked_for_manifest(manifest.is_some())?,
            Phase::ReadManifest => run.read_manifest(manifest.clone().unwrap())?,
            Phase::ListSource => run.listed_source(&source.inventory()?)?,
            Phase::RecordSource => {
                let logical = run.source_keys[run.index].clone();
                run.recorded_source(source.fingerprint(&logical)?);
            }
            Phase::VerifySnapshot => {
                let verification = source.read_all(&run.records, true)?;
                run.verified_snapshot(verification, &source.inventory()?)?;
            }
            Phase::WriteManifest => {
                *manifest = Some(run.manifest());
                run.wrote_manifest()?;
            }
            Phase::CheckExisting => {
                let place = run.expected()?;
                let logical = run.records[place].key.clone();
                run.checked_existing(place, &destination.fingerprint(&logical)?)?;
            }
            Phase::Copy => {
                if let Some(place) = run.next_copy() {
                    let logical = run.records[place].key.clone();
                    copy_object(source, destination, &run.records[place])?;
                    run.copied_one(&destination.fingerprint(&logical)?)?;
                }
            }
            Phase::VerifySource => {
                let verification = source.read_all(&run.records, true)?;
                run.verified_source(verification, &source.inventory()?)?;
            }
            Phase::VerifyDestination => {
                let verification = destination.read_all(&run.records, false)?;
                run.verified_destination(verification, &destination.inventory()?)?;
            }
            Phase::Done => return Ok(run.summary()),
        }
    }
}

fn pair(attribute: Attribute, value: &str) -> AttributePair {
    AttributePair {
        attribute,
        value: value.to_string(),
    }
}

fn seed(namespace: &mut Namespace) {
    let envelope = r#"{"custom":{"Title":"Radio sample","owner":"\u6771\u4eac"},"http":{"cacheExpiry":1893456000000},"checksums":{},"storageClass":"Standard"}"#;
    let rich = vec![
        pair(Attribute::ContentType, "audio/mpeg"),
        pair(Attribute::ContentLanguage, "en"),
        pair(Attribute::ContentDisposition, "inline; filename=sample.mp3"),
        pair(Attribute::CacheControl, "public, max-age=3600"),
        pair(Attribute::Metadata("celld_r2".into()), envelope),
    ];
    let flat = vec![pair(
        Attribute::Metadata("title".into()),
        "Legacy Radio sample",
    )];
    let legacy = vec![pair(Attribute::Metadata("celld-r2".into()), envelope)];
    // An 8 MiB boundary crossing exercises bounded multipart transfer.
    let audio: Vec<u8> = (0..PART_BYTES + 101)
        .map(|index| (index.wrapping_mul(31) ^ (index >> 7)) as u8)
        .collect();
    namespace.put(
        "deploy/current.json",
        br#"{"version":"same-version","prefix":"deploy/radio/same-version"}"#,
        Vec::new(),
    );
    namespace.put(
        "nodes/radio.json",
        br#"{"node":"radio","expires_ms":1,"log":{"state":"sealed","epoch":4,"ensemble":[],"tiered":17}}"#,
        Vec::new(),
    );
    namespace.put(
        "cells/radio/own.json",
        br#"{"node":"radio","epoch":7}"#,
        Vec::new(),
    );
    namespace.put("r2/audio/東京 100%/sample.mp3", &audio, rich);
    namespace.put("r2/audio/empty", b"", Vec::new());
    namespace.put("r2/audio/legacy-flat", b"legacy flat metadata", flat);
    namespace.put(
        "cells/radio/ltx/0000/0000000000000001-0000000000000001.ltx",
        b"opaque LTX-shaped migration fixture; runtime LTX tests are separate",
        Vec::new(),
    );
    namespace.put("r2/audio/legacy-envelope", b"legacy envelope", legacy);
}

fn opts(resume: bool) -> Options {
    Options {
        mode: Mode::Copy,
        source: "sqlite:///source.sqlite3".into(),
        destination: "sqlite:///destination.sqlite3".into(),
        manifest: "transfer-manifest".into(),
        resume,
    }
}

#[test]
fn local_copy_resume_and_mismatch_refusal() {
    let mut source = Namespace::new("source");
    let mut destination = Namespace::new("destination");
    let mut manifest = None;
    seed(&mut source);
    let summary = run(&source, &mut destination, opts(false), &mut manifest).unwrap();
    assert_eq!(summary.objects, 8);
    assert_eq!(summary.copied, 8);
    assert_eq!(summary.bytes, 8_388_992);
    assert!(run(&source, &mut destination, opts(false), &mut manifest)
        .unwrap_err()
        .message()
        .contains("not empty"));
    let resumed = run(&source, &mut destination, opts(true), &mut manifest).unwrap();
    assert_eq!(resumed.copied, 0);
    assert_eq!(resumed.already_verified, 8);
    assert_eq!(resumed.bytes, 0);

    destination.delete("r2/audio/empty");
    assert_eq!(
        run(&source, &mut destination, opts(true), &mut manifest)
            .unwrap()
            .copied,
        1
    );
    destination.delete("r2/audio/legacy-flat");
    let one = run(&source, &mut destination, opts(true), &mut manifest).unwrap();
    assert_eq!((one.copied, one.already_verified, one.bytes), (1, 7, 20));
    destination.put("unexpected", b"retain me", Vec::new());
    assert!(run(&source, &mut destination, opts(true), &mut manifest)
        .unwrap_err()
        .message()
        .contains("unexpected destination key"));
    destination.delete("unexpected");
    destination.put("deploy/current.json", b"different", Vec::new());
    assert!(run(&source, &mut destination, opts(true), &mut manifest)
        .unwrap_err()
        .message()
        .contains("content mismatch"));
    assert_eq!(destination.get("deploy/current.json").body, b"different");
}

#[test]
fn source_drift_is_refused() {
    let mut source = Namespace::new("source");
    let mut destination = Namespace::new("destination");
    let mut manifest = None;
    source.put("one", b"before", Vec::new());
    run(&source, &mut destination, opts(false), &mut manifest).unwrap();
    source.put("one", b"after", Vec::new());
    assert!(matches!(
        run(&source, &mut destination, opts(true), &mut manifest),
        Err(TransferError::ContentMismatch { key }) if key == "one"
    ));
    source.put("one", b"before", Vec::new());
    assert!(matches!(
        run(&source, &mut destination, opts(true), &mut manifest),
        Err(TransferError::GenerationChanged { key }) if key == "one"
    ));
    source.put("two", b"more", Vec::new());
    assert!(matches!(
        run(&source, &mut destination, opts(true), &mut manifest),
        Err(TransferError::KeysetDiffers { source: true })
    ));
}

#[test]
fn a_verification_copies_nothing() {
    let mut source = Namespace::new("source");
    let mut destination = Namespace::new("destination");
    let mut manifest = None;
    seed(&mut source);
    run(&source, &mut destination, opts(false), &mut manifest).unwrap();
    let verify = || Options {
        mode: Mode::Verify,
        ..opts(false)
    };
    let summary = run(&source, &mut destination, verify(), &mut manifest).unwrap();
    assert_eq!((summary.copied, summary.already_verified), (0, 8));
    assert_eq!(summary.bytes, 0);
    destination.delete("r2/audio/empty");
    let written = destination.writes;
    assert!(matches!(
        run(&source, &mut destination, verify(), &mut manifest),
        Err(TransferError::KeysetDiffers { source: false })
    ));
    assert_eq!(destination.writes, written);
    destination.put(
        "r2/audio/empty",
        b"",
        vec![pair(Attribute::ContentType, "x")],
    );
    assert!(matches!(
        run(&source, &mut destination, verify(), &mut manifest),
        Err(TransferError::AttributeMismatch { key }) if key == "r2/audio/empty"
    ));
}

#[test]
fn a_fresh_copy_refuses_what_it_cannot_trust() {
    let mut source = Namespace::new("source");
    let mut destination = Namespace::new("destination");
    let same = Options {
        destination: opts(false).source,
        ..opts(false)
    };
    assert!(matches!(
        run(&source, &mut destination, same, &mut None),
        Err(TransferError::SameSpecs)
    ));
    assert!(matches!(
        run(&source, &mut destination, opts(false), &mut None),
        Err(TransferError::EmptySource)
    ));
    source.put("one", b"1", Vec::new());
    let mut found = Some(Manifest {
        format_version: 1,
        source: opts(true).source,
        destination: opts(true).destination,
        objects: Vec::new(),
    });
    assert!(matches!(
        run(&source, &mut destination, opts(false), &mut found),
        Err(TransferError::ManifestExists)
    ));
    found.as_mut().unwrap().format_version = 2;
    assert!(matches!(
        run(&source, &mut destination, opts(true), &mut found),
        Err(TransferError::ManifestFormat)
    ));
    found.as_mut().unwrap().format_version = 1;
    found.as_mut().unwrap().source = "other".into();
    assert!(matches!(
        run(&source, &mut destination, opts(true), &mut found),
        Err(TransferError::ManifestForeign)
    ));
    let mut inside = Namespace::new("source");
    inside.facts.prefix = "fleet/inner/".into();
    assert!(matches!(
        run(&source, &mut inside, opts(false), &mut None),
        Err(TransferError::Overlap)
    ));
    let record = source.fingerprint("one").unwrap();
    source.put("two", b"2", Vec::new());
    let mut doubled = Some(Manifest {
        format_version: 1,
        source: opts(true).source,
        destination: opts(true).destination,
        objects: vec![record.clone(), record],
    });
    assert!(matches!(
        run(&source, &mut destination, opts(true), &mut doubled),
        Err(TransferError::DuplicateRecords)
    ));
    assert_eq!(destination.writes, 0);
}

#[test]
fn fingerprints_are_of_the_bytes() {
    let meta = |size: u64| ReadMeta {
        size,
        e_tag: Some("7".into()),
        version: None,
        modified_ms: 5,
    };
    let mut fingerprint = Fingerprint::new("k", meta(3), &Vec::new()).unwrap();
    fingerprint.accept(&b"a".to_vec());
    fingerprint.accept(&b"bc".to_vec());
    let record = fingerprint.finish().unwrap();
    assert_eq!(
        record.sha256,
        "ba7816bf8f01cfea414140de5dae2223b00361a396177a9cb410ff61f20015ad"
    );
    assert_eq!(record.source_etag.as_deref(), Some("7"));
    let empty = Fingerprint::new("k", meta(0), &Vec::new()).unwrap();
    assert_eq!(
        empty.finish().unwrap().sha256,
        "e3b0c44298fc1c149afbf4c8996fb92427ae41e4649b934ca495991b7852b855"
    );
    let short = Fingerprint::new("k", meta(1), &Vec::new()).unwrap();
    assert!(matches!(
        short.finish(),
        Err(TransferError::SizeMismatch { .. })
    ));
}

#[test]
fn attributes_are_recorded_in_one_order() {
    let forward = vec![
        pair(Attribute::Metadata("b".into()), "2"),
        pair(Attribute::ContentType, "t"),
        pair(Attribute::Metadata("a".into()), "1"),
    ];
    let backward: Vec<AttributePair> = forward.iter().rev().cloned().collect();
    let recorded = attributes(&forward).unwrap();
    let kinds: Vec<_> = recorded
        .iter()
        .map(|s| (s.kind.as_str(), s.name.as_deref(), s.value.as_str()))
        .collect();
    assert_eq!(
        kinds,
        [
            ("content-type", None, "t"),
            ("metadata", Some("a"), "1"),
            ("metadata", Some("b"), "2"),
        ]
    );
    assert_eq!(
        format!("{recorded:?}"),
        format!("{:?}", attributes(&backward).unwrap())
    );
    let odd = vec![pair(Attribute::Unsupported("Odd(1)".into()), "")];
    assert_eq!(
        attributes(&odd).unwrap_err().message(),
        "unsupported object attribute Odd(1); refusing lossy copy"
    );
}

#[test]
fn copies_stop_where_the_source_is_not_the_recorded_one() {
    let mut source = Namespace::new("source");
    source.put("one", b"0123456789", Vec::new());
    let record = source.fingerprint("one").unwrap();
    let none = Vec::new();
    assert!(matches!(
        CopyReader::new(&record, 9, &none),
        Err(TransferError::SourceChanged { .. })
    ));
    let other = vec![pair(Attribute::ContentType, "x")];
    assert!(matches!(
        CopyReader::new(&record, 10, &other),
        Err(TransferError::SourceChanged { .. })
    ));
    let odd = vec![pair(Attribute::Unsupported("Odd".into()), "x")];
    assert!(matches!(
        CopyReader::new(&record, 10, &odd),
        Err(TransferError::UnsupportedAttribute { .. })
    ));
    let mut reader = CopyReader::new(&record, 10, &none).unwrap();
    assert!(matches!(
        reader.accept(&vec![0; 11]),
        Err(TransferError::SourceExceeded { .. })
    ));
    assert_eq!((reader.count, reader.pending.len()), (11, 0));
    let mut reader = CopyReader::new(&record, 10, &none).unwrap();
    let wrong = b"0123456780".to_vec();
    reader.accept(&wrong).unwrap();
    reader.keep(&wrong);
    assert!(matches!(
        reader.finish(),
        Err(TransferError::SourceContent { .. })
    ));
    assert_eq!(copy_route(PART_BYTES as u64), CopyRoute::Create);
    assert_eq!(copy_route(PART_BYTES as u64 + 1), CopyRoute::Parts);
    assert!(check_absent("k", DestinationHead::Found).is_err());
    assert_eq!(
        check_absent("k", DestinationHead::Failed)
            .unwrap_err()
            .message(),
        "destination key exists or could not be checked: \"k\""
    );
}

#[test]
fn listings_stay_in_their_namespace() {
    let listed = || Listed {
        key: String::new(),
        size: 1,
        e_tag: None,
        version: None,
        modified_s: 0,
        modified_ns: 0,
    };
    let mut inventory = Inventory::new("p/");
    inventory.accept("p/b", listed()).unwrap();
    inventory.accept("p/a", listed()).unwrap();
    assert_eq!(inventory.entries[0].key, "a");
    assert!(inventory.contains("b") && !inventory.contains("p/b"));
    assert!(matches!(
        inventory.accept("q/a", listed()),
        Err(TransferError::OutsideNamespace)
    ));
    assert!(matches!(
        inventory.accept("p/", listed()),
        Err(TransferError::EmptyKey)
    ));
    assert!(matches!(
        inventory.accept("p/a", listed()),
        Err(TransferError::DuplicateKey { key }) if key == "a"
    ));
    assert_eq!(namespace_path("p//").unwrap(), "p");
    assert_eq!(namespace_path("").unwrap(), "");
    assert!(matches!(
        key("p/", "a//b"),
        Err(TransferError::InvalidPath { path, reason })
            if path == "p/a//b" && reason == "Path \"p/a//b\" contained empty path segment"
    ));
    assert_eq!(key("p/", "a%20b").unwrap(), "p/a%20b");
    let facts = |prefix: &str| BucketFacts {
        backend: "az".into(),
        name: "n".into(),
        prefix: prefix.into(),
    };
    assert!(overlaps(&facts(""), &facts("a/")));
    assert!(!overlaps(&facts("a/"), &facts("b/")));
}

#[test]
fn changes_during_a_verification_are_seen() {
    let mut namespace = Namespace::new("n");
    namespace.put("one", b"1", Vec::new());
    let records = vec![namespace.fingerprint("one").unwrap()];
    let begin = |namespace: &Namespace| {
        let mut verification =
            Verification::new(namespace.inventory().unwrap(), &records, true).unwrap();
        assert_eq!(verification.next(), Some(0));
        verification
            .accept(&records[0], &namespace.fingerprint("one").unwrap())
            .unwrap();
        assert_eq!(verification.next(), None);
        verification
    };
    let verification = begin(&namespace);
    assert!(verification.finish(&namespace.inventory().unwrap()).is_ok());
    let verification = begin(&namespace);
    namespace.put("two", b"2", Vec::new());
    assert!(matches!(
        verification.finish(&namespace.inventory().unwrap()),
        Err(TransferError::KeysetChanged)
    ));
    namespace.delete("two");
    let verification = begin(&namespace);
    namespace.put("one", b"1", Vec::new());
    assert!(matches!(
        verification.finish(&namespace.inventory().unwrap()),
        Err(TransferError::ObjectChanged { key }) if key == "one"
    ));
}

#[test]
fn stores_are_named_by_their_specifications() {
    assert!(matches!(
        store_spec("sqlite:///a/b"),
        Ok(StoreSpec::Local(path)) if path == "/a/b"
    ));
    assert!(matches!(store_spec("az://radio/x"), Ok(StoreSpec::Azure)));
    assert!(matches!(
        store_spec("s3://radio"),
        Err(TransferError::UnsupportedStore)
    ));
    assert!(matches!(
        store_spec("sqlite:/a"),
        Err(TransferError::BadSpec { .. })
    ));
    let lies = |spec: &str| {
        let facts = bucket_facts(spec).unwrap();
        (facts.backend, facts.name, facts.prefix)
    };
    let texts = |a: &str, b: &str, c: &str| (a.to_string(), b.to_string(), c.to_string());
    assert_eq!(lies("sqlite:///a/b"), texts("sqlite", "/a/b", ""));
    assert_eq!(lies("az://radio"), texts("az", "radio", ""));
    assert_eq!(lies("az://radio/"), texts("az", "radio", ""));
    assert_eq!(lies("az://radio/fleet/one/"), texts("az", "radio", "fleet/one/"));
    assert!(matches!(
        bucket_facts("s3://radio"),
        Err(TransferError::UnsupportedStore)
    ));
    let local = store_spec("sqlite:///a/b").unwrap();
    assert_eq!(
        check_present(&local, true, false).unwrap_err().message(),
        "source SQLite database does not exist: /a/b"
    );
    assert!(check_present(&local, false, false).is_ok());
    assert!(check_present(&local, true, true).is_ok());
    assert!(check_present(&StoreSpec::Azure, true, false).is_ok());
}

fn words(line: &str) -> Vec<String> {
    line.split(' ').filter(|w| !w.is_empty()).map(str::to_string).collect()
}

#[test]
fn command_lines_are_read() {
    let full = "copy --source a --destination b --manifest m --quiesced";
    let options = parse(&words(full)).unwrap().unwrap();
    assert_eq!(options.mode, Mode::Copy);
    assert_eq!(
        (options.source, options.destination, options.manifest),
        ("a".to_string(), "b".to_string(), "m".to_string())
    );
    assert!(!options.resume);
    let again = parse(&words(&format!("{full} --resume --source c")))
        .unwrap()
        .unwrap();
    assert!(again.resume);
    assert_eq!(again.source, "c");
    for help in ["", "--help", "-h", "help copy"] {
        assert!(parse(&words(help)).unwrap().is_none());
    }
    let said = |line: &str| parse(&words(line)).unwrap_err().message();
    assert_eq!(said("move"), "unknown command \"move\"; use --help");
    assert_eq!(said("copy --source"), "--source requires a value");
    assert_eq!(said("copy --fast"), "unknown option \"--fast\"; use --help");
    assert_eq!(
        said("copy --source a"),
        "copy requires --quiesced; stop both namespaces' writers first"
    );
    assert_eq!(said("verify --resume"), "--resume applies only to copy");
    assert_eq!(said("verify"), "missing --source");
    assert_eq!(said("verify --source a"), "missing --destination");
    assert_eq!(
        said("verify --source a --destination b"),
        "missing --manifest"
    );
    assert!(matches!(
        command(&words("audit --source az://radio")),
        Ok(Command::Audit { source }) if source == "az://radio"
    ));
    assert!(matches!(
        command(&words("audit az://radio x")),
        Err(UsageError::AuditUsage)
    ));
    assert!(matches!(command(&Vec::new()), Ok(Command::Help)));
    assert!(matches!(command(&words(full)), Ok(Command::Transfer(_))));
}

#[test]
fn folded_roots_are_sealed_absent_or_need_a_look() {
    let state = |text: &str| audit_root(&text.as_bytes().to_vec()).state;
    let sealed = r#"{"node":"radio","expires_ms":1,"log":{"state":"sealed","epoch":4,"ensemble":[],"tiered":17}}"#;
    assert_eq!(state(sealed), "sealed");
    assert_eq!(state(r#"{"node":"radio","expires_ms":1}"#), "absent");
    assert_eq!(
        state(r#"{"node":"radio","expires_ms":1,"log":null}"#),
        "absent"
    );
    assert_eq!(
        state(r#"{"node":"radio","expires_ms":1,"log":{"state":"open","epoch":4,"ensemble":[],"tiered":0}}"#),
        "open"
    );
    for text in [
        "no json",
        "[]",
        r#"{"node":1,"expires_ms":1}"#,
        r#"{"node":"radio","expires_ms":-1}"#,
        r#"{"node":"radio","expires_ms":1,"log":{"state":"sealed"}}"#,
        r#"{"node":"radio","expires_ms":1,"log":{"state":1,"epoch":4,"ensemble":[],"tiered":17}}"#,
        r#"{"node":"radio","expires_ms":1,"log":{"state":"sealed","epoch":4,"ensemble":{},"tiered":17}}"#,
    ] {
        assert_eq!(state(text), "malformed", "{text}");
    }
    let root = audit_root(&b"[]".to_vec());
    assert!(root.node.is_none() && root.expires_ms.is_none());
    assert!(root.epoch.is_none() && root.tiered.is_none());
    let root = audit_root(&br#"{"node":"radio","expires_ms":3,"log":null}"#.to_vec());
    assert!(matches!(root.node, Some(JsonAt::Text(node)) if node == "radio"));
    assert!(matches!(root.expires_ms, Some(JsonAt::Unsigned(3))));
    assert!(root.epoch.is_none() && root.tiered.is_none());
    let odd = br#"{"node":"radio","expires_ms":3,"log":{"epoch":[1, 2],"tiered":{"a":-1}}}"#;
    let root = audit_root(&odd.to_vec());
    assert_eq!(root.state, "malformed");
    assert!(matches!(root.epoch, Some(JsonAt::Array(json)) if json == "[1,2]"));
    assert!(matches!(root.tiered, Some(JsonAt::Other(json)) if json == r#"{"a":-1}"#));
    let root = root_state(RootFacts {
        node: JsonAt::Text("radio".into()),
        expires_ms: JsonAt::Unsigned(1),
        log: JsonAt::Other("{}".into()),
        epoch: JsonAt::Unsigned(4),
        tiered: JsonAt::Unsigned(17),
        ensemble: JsonAt::Array("[]".into()),
        state: JsonAt::Missing,
    });
    assert_eq!(root.state, "malformed");
    assert!(matches!(root.tiered, Some(JsonAt::Unsigned(17))));
    assert!(is_node_key("nodes/radio.json"));
    assert!(!is_node_key("nodes/radio") && !is_node_key("cells/nodes/x.json"));
    assert!(check_node_size("nodes/a.json", 1024 * 1024).is_ok());
    assert_eq!(
        check_node_size("nodes/a.json", 1024 * 1024 + 1)
            .unwrap_err()
            .message(),
        "unexpectedly large node record \"nodes/a.json\""
    );
}

#[test]
fn a_copy_that_reads_back_differently_is_refused() {
    let mut source = Namespace::new("source");
    let mut destination = Namespace::new("destination");
    source.put("one", b"1", Vec::new());
    let mut run = TransferRun::new(opts(false)).unwrap();
    run.opened(&source.facts, &destination.facts).unwrap();
    run.listed_destination(destination.inventory().unwrap())
        .unwrap();
    run.looked_for_manifest(false).unwrap();
    run.listed_source(&source.inventory().unwrap()).unwrap();
    run.recorded_source(source.fingerprint("one").unwrap());
    let verification = source.read_all(&run.records, true).unwrap();
    source.put("two", b"2", Vec::new());
    assert!(matches!(
        run.verified_snapshot(verification, &source.inventory().unwrap()),
        Err(TransferError::KeysetChanged)
    ));
    source.delete("two");
    let verification = source.read_all(&run.records, true).unwrap();
    run.verified_snapshot(verification, &source.inventory().unwrap())
        .unwrap();
    assert_eq!(run.manifest().objects.len(), 1);
    run.wrote_manifest().unwrap();
    assert_eq!(run.next_copy(), Some(0));
    destination.put("one", b"x", Vec::new());
    assert!(matches!(
        run.copied_one(&destination.fingerprint("one").unwrap()),
        Err(TransferError::ContentMismatch { key }) if key == "one"
    ));
    assert_eq!(run.copied, 0);
    destination.put("one", b"1", vec![pair(Attribute::ContentType, "t")]);
    assert!(matches!(
        run.copied_one(&destination.fingerprint("one").unwrap()),
        Err(TransferError::AttributeMismatch { .. })
    ));
    destination.put("one", b"1", Vec::new());
    run.copied_one(&destination.fingerprint("one").unwrap())
        .unwrap();
    assert_eq!(run.copied, 1);
}

/// An audit of a namespace, with every record read.
fn audited(namespace: &Namespace) -> Result<RootAudit, TransferError> {
    let mut audit = RootAudit::new(namespace.inventory()?);
    while let Some(place) = audit.next()? {
        let bytes = namespace.get(&audit.listed.entries[place].key).body.clone();
        audit.accept(&bytes);
    }
    Ok(audit)
}

#[test]
fn an_audit_reads_every_node_record_and_nothing_else() {
    let mut namespace = Namespace::new("n");
    assert!(audited(&namespace).unwrap().folded_roots_sealed_or_absent());
    namespace.put("deploy/current.json", b"{}", Vec::new());
    namespace.put(
        "nodes/bad.json",
        br#"{"node":"bad","expires_ms":2,"log":{"state":"sealed","epoch":4,"tiered":17}}"#,
        Vec::new(),
    );
    namespace.put(
        "nodes/radio.json",
        br#"{"node":"radio","expires_ms":1,"log":{"state":"sealed","epoch":4,"ensemble":[],"tiered":17}}"#,
        Vec::new(),
    );
    namespace.put("nodes/readme.txt", b"no record", Vec::new());
    namespace.put("r2/nodes/a.json", b"no record", Vec::new());
    let audit = audited(&namespace).unwrap();
    let roots: Vec<_> = audit
        .node_roots
        .iter()
        .map(|node| (node.key.as_str(), node.root.state.as_str()))
        .collect();
    assert_eq!(
        roots,
        [("nodes/bad.json", "malformed"), ("nodes/radio.json", "sealed")]
    );
    let radio = &audit.node_roots[1].root;
    assert!(matches!(&radio.node, Some(JsonAt::Text(node)) if node == "radio"));
    assert!(matches!(radio.expires_ms, Some(JsonAt::Unsigned(1))));
    assert!(matches!(radio.epoch, Some(JsonAt::Unsigned(4))));
    assert!(matches!(radio.tiered, Some(JsonAt::Unsigned(17))));
    assert_eq!(audit.unsealed, ["nodes/bad.json"]);
    assert!(!audit.folded_roots_sealed_or_absent());
    namespace.delete("nodes/bad.json");
    assert!(audited(&namespace).unwrap().folded_roots_sealed_or_absent());
    namespace.put("nodes/z.json", &vec![b' '; 1024 * 1024 + 1], Vec::new());
    assert!(matches!(
        audited(&namespace),
        Err(TransferError::LargeNodeRecord { key }) if key == "nodes/z.json"
    ));
}

#[test]
fn a_copy_that_fails_shows_nothing_and_leaves_no_upload() {
    let mut source = Namespace::new("source");
    source.put("small", b"0123456789", Vec::new());
    source.put("part", &vec![1; PART_BYTES], Vec::new());
    source.put("parts", &vec![2; 2 * PART_BYTES], Vec::new());
    source.put("large", &vec![3; PART_BYTES + 1], Vec::new());
    let path = |logical: &str, fail: Option<CopyStep>| {
        let mut destination = Namespace::new("destination");
        let record = source.fingerprint(logical).unwrap();
        let (steps, failure) = copy_steps(&source, &mut destination, &record, fail);
        assert!(failure.is_none());
        assert_eq!(destination.objects.len(), usize::from(fail.is_none()));
        steps
    };
    let created = [
        CopyStep::Open,
        CopyStep::Gather,
        CopyStep::Create,
        CopyStep::Written,
    ];
    assert_eq!(path("small", None), created);
    assert_eq!(path("part", None), created);
    let sent = [
        CopyStep::Open,
        CopyStep::Look,
        CopyStep::Begin,
        CopyStep::Send,
        CopyStep::PutRest,
        CopyStep::Complete,
        CopyStep::Written,
    ];
    assert_eq!(path("large", None), sent);
    assert_eq!(
        path("parts", None),
        [
            CopyStep::Open,
            CopyStep::Look,
            CopyStep::Begin,
            CopyStep::Send,
            CopyStep::Complete,
            CopyStep::Written,
        ]
    );
    for (at, step) in created[..3].iter().enumerate() {
        let mut steps = created[..=at].to_vec();
        steps.push(CopyStep::Failed);
        assert_eq!(path("small", Some(*step)), steps);
    }
    for (at, step) in sent[..6].iter().enumerate() {
        let mut steps = sent[..=at].to_vec();
        if at >= 3 {
            steps.push(CopyStep::Abort);
        }
        steps.push(CopyStep::Failed);
        assert_eq!(path("large", Some(*step)), steps);
    }

    let mut destination = Namespace::new("destination");
    let record = source.fingerprint("large").unwrap();
    source.put("large", &vec![4; PART_BYTES + 1], Vec::new());
    let (steps, failure) = copy_steps(&source, &mut destination, &record, None);
    assert!(matches!(failure, Some(TransferError::SourceContent { .. })));
    assert_eq!(
        steps[3..],
        [CopyStep::Send, CopyStep::Abort, CopyStep::Failed]
    );
    destination.put("large", b"taken", Vec::new());
    let (steps, failure) = copy_steps(&source, &mut destination, &record, None);
    assert!(matches!(
        failure,
        Some(TransferError::DestinationExists { .. })
    ));
    assert_eq!(steps[1..], [CopyStep::Look, CopyStep::Failed]);
    assert_eq!(destination.get("large").body, b"taken");
}

#[test]
fn a_step_of_a_copy_takes_only_its_own_event() {
    let ended = CopyEvent::Ended { rest: 1 };
    assert_eq!(copy_next(CopyStep::Open, CopyEvent::Done), CopyStep::Failed);
    assert_eq!(copy_next(CopyStep::Create, ended), CopyStep::Failed);
    assert_eq!(copy_next(CopyStep::Send, CopyEvent::Done), CopyStep::Abort);
    assert_eq!(copy_next(CopyStep::Complete, ended), CopyStep::Abort);
    for event in [ended, CopyEvent::Done, CopyEvent::Failed] {
        assert_eq!(copy_next(CopyStep::Abort, event), CopyStep::Failed);
        assert_eq!(copy_next(CopyStep::Failed, event), CopyStep::Failed);
        assert_eq!(copy_next(CopyStep::Written, event), CopyStep::Written);
    }
}

#[test]
fn the_order_of_options_does_not_matter() {
    let said = |line: &str| format!("{:?}", parse(&words(line)));
    let first = said("copy --source a --destination b --manifest m --quiesced --resume");
    for line in [
        "copy --resume --manifest m --quiesced --destination b --source a",
        "copy --quiesced --resume --destination b --source a --manifest m",
    ] {
        assert_eq!(said(line), first);
    }
    assert_eq!(
        said("verify --manifest m --resume"),
        said("verify --resume --manifest m")
    );
    // A value that comes again is another matter: the last one counts.
    assert_ne!(
        said("copy --source a --source b --destination c --manifest m --quiesced"),
        said("copy --source b --source a --destination c --manifest m --quiesced")
    );
}
