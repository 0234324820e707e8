//! The course of a transfer: what is looked at, in which order, and what stops it.
use crate::text::{
    before, before_is_irreflexive, before_is_total, before_is_transitive, same_text, text_before,
    views,
};
use crate::transfer::failure::TransferError;
use crate::transfer::namespace::{
    has_key, keys_ascend, overlap, overlaps, BucketFacts, Inventory, ListedView,
};
use crate::transfer::options::{Mode, Options};
use crate::transfer::record::{same_bytes, same_content, ObjectRecord, RecordView};
use crate::transfer::verify::{
    at_rest, distinct_keys, entry_keys, keys_come_once, matching_keysets_are_equal, record_keys,
    record_matches, record_views, tells_unrest, Sighting, Verification,
};
use vstd::prelude::*;

verus! {

/// The format of the manifest.
pub const MANIFEST_VERSION: u32 = 1;

/// What a transfer leaves on disk before it writes to the destination.
#[derive(Clone, Debug)]
pub struct Manifest {
    pub format_version: u32,
    pub source: String,
    pub destination: String,
    pub objects: Vec<ObjectRecord>,
}

/// The records in order of their keys, by their places.
pub open spec fn is_index(order: Seq<usize>, records: Seq<RecordView>) -> bool {
    &&& forall|i: int| 0 <= i < order.len() ==> (#[trigger] order[i]) < records.len()
    &&& forall|i: int, j: int|
        0 <= i < j < order.len() ==> before(
            records[(#[trigger] order[i]) as int].key,
            records[(#[trigger] order[j]) as int].key,
        )
}

/// Every one of the first `n` records has its place in the index.
pub open spec fn indexes(order: Seq<usize>, n: int) -> bool {
    &&& forall|i: int| 0 <= i < order.len() ==> (#[trigger] order[i]) < n
    &&& forall|k: usize| k < n ==> #[trigger] order.contains(k)
}

/// Where the first record that does not come before a key stands in an index.
fn index_position(order: &Vec<usize>, records: &Vec<ObjectRecord>, key: &str) -> (at: usize)
    requires
        is_index(order@, record_views(records@)),
    ensures
        at <= order@.len(),
        forall|i: int|
            0 <= i < at ==> before(
                record_views(records@)[(#[trigger] order@[i]) as int].key,
                key@,
            ),
        forall|i: int|
            at <= i < order@.len() ==> !before(
                record_views(records@)[(#[trigger] order@[i]) as int].key,
                key@,
            ),
{
    let ghost all = record_views(records@);
    let mut low: usize = 0;
    let mut high: usize = order.len();
    while low < high
        invariant
            low <= high <= order@.len(),
            forall|i: int| 0 <= i < low ==> before(all[(#[trigger] order@[i]) as int].key, key@),
            forall|i: int|
                high <= i < order@.len() ==> !before(all[(#[trigger] order@[i]) as int].key, key@),
        decreases high - low,
    {
        let middle: usize = low + (high - low) / 2;
        let place: usize = order[middle];
        assert(order@[middle as int] < all.len());
        let ghost found = all[place as int].key;
        assert(found == records@[place as int].key@);
        if text_before(records[place].key.as_str(), key) {
            assert forall|i: int| 0 <= i < middle + 1 implies before(
                all[(#[trigger] order@[i]) as int].key,
                key@,
            ) by {
                if i < middle {
                    assert(before(all[order@[i] as int].key, all[order@[middle as int] as int].key));
                    before_is_transitive(all[order@[i] as int].key, found, key@);
                }
            }
            low = middle + 1;
        } else {
            assert forall|i: int| middle <= i < order@.len() implies !before(
                all[(#[trigger] order@[i]) as int].key,
                key@,
            ) by {
                if i > middle && before(all[order@[i] as int].key, key@) {
                    assert(before(all[order@[middle as int] as int].key, all[order@[i] as int].key));
                    before_is_transitive(found, all[order@[i] as int].key, key@);
                }
            }
            high = middle;
        }
    }
    low
}

/// The place of the record of a key.
pub fn find_record(order: &Vec<usize>, records: &Vec<ObjectRecord>, key: &str) -> (found: Option<
    usize,
>)
    requires
        is_index(order@, record_views(records@)),
        indexes(order@, records@.len() as int),
    ensures
        match found {
            Some(place) => place < records@.len() && records@[place as int]@.key == key@,
            None => forall|i: int|
                0 <= i < records@.len() ==> (#[trigger] records@[i])@.key != key@,
        },
{
    let ghost all = record_views(records@);
    let at: usize = index_position(order, records, key);
    if at < order.len() {
        let place: usize = order[at];
        assert(order@[at as int] < all.len());
        if same_text(records[place].key.as_str(), key) {
            return Some(place);
        }
    }
    proof {
        assert forall|k: int| 0 <= k < records@.len() implies (#[trigger] records@[k])@.key
            != key@ by {
            assert(k < records.len());
            assert(order@.contains(k as usize));
            let i = choose|i: int| 0 <= i < order@.len() && order@[i] == k as usize;
            assert(all[order@[i] as int] == records@[k]@);
            if records@[k]@.key == key@ {
                before_is_irreflexive(key@);
                if i > at {
                    assert(before(all[order@[at as int] as int].key, all[order@[i] as int].key));
                }
                assert(i == at);
            }
        }
    }
    None
}

/// The records in order of their keys; none where two have one key.
pub fn index_records(records: &Vec<ObjectRecord>) -> (order: Option<Vec<usize>>)
    ensures
        order is Some <==> distinct_keys(record_views(records@)),
        order matches Some(order) ==> is_index(order@, record_views(records@)) && indexes(
            order@,
            records@.len() as int,
        ),
{
    let ghost all = record_views(records@);
    let mut order: Vec<usize> = Vec::new();
    let mut n: usize = 0;
    while n < records.len()
        invariant
            0 <= n <= records@.len(),
            is_index(order@, all),
            indexes(order@, n as int),
            forall|i: int, j: int|
                0 <= i < j < n ==> (#[trigger] all[i]).key != (#[trigger] all[j]).key,
        decreases records@.len() - n,
    {
        let at: usize = index_position(&order, records, records[n].key.as_str());
        let ghost key = all[n as int].key;
        assert(key == records@[n as int].key@);
        if at < order.len() {
            let place: usize = order[at];
            assert(order@[at as int] < n);
            if same_text(records[place].key.as_str(), records[n].key.as_str()) {
                assert(all[place as int].key == all[n as int].key);
                return None;
            }
        }
        let ghost earlier = order@;
        proof {
            assert forall|k: int| 0 <= k < n implies (#[trigger] all[k]).key != key by {
                assert(earlier.contains(k as usize));
                let i = choose|i: int| 0 <= i < earlier.len() && earlier[i] == k as usize;
                assert(all[earlier[i] as int] == all[k]);
                if all[k].key == key {
                    before_is_irreflexive(key);
                    if i > at {
                        assert(before(
                            all[earlier[at as int] as int].key,
                            all[earlier[i] as int].key,
                        ));
                    }
                    assert(i == at);
                }
            }
        }
        order.insert(at, n);
        proof {
            let later = order@;
            assert(later =~= earlier.insert(at as int, n));
            assert forall|i: int, j: int| 0 <= i < j < later.len() implies before(
                all[(#[trigger] later[i]) as int].key,
                all[(#[trigger] later[j]) as int].key,
            ) by {
                if i == at {
                    let next = earlier[j - 1];
                    assert(later[j] == next);
                    assert(next < n);
                    assert(all[next as int].key != key);
                    before_is_total(key, all[next as int].key);
                } else if j == at {
                    assert(later[i] == earlier[i]);
                } else {
                    let x = if i < at {
                        i
                    } else {
                        i - 1
                    };
                    let y = if j < at {
                        j
                    } else {
                        j - 1
                    };
                    assert(later[i] == earlier[x] && later[j] == earlier[y]);
                }
            }
            assert forall|k: usize| k < n + 1 implies #[trigger] later.contains(k) by {
                if k == n {
                    assert(later[at as int] == n);
                } else {
                    assert(earlier.contains(k));
                    let i = choose|i: int| 0 <= i < earlier.len() && earlier[i] == k;
                    if i < at {
                        assert(later[i] == k);
                    } else {
                        assert(later[i + 1] == k);
                    }
                }
            }
            assert forall|i: int| 0 <= i < later.len() implies (#[trigger] later[i]) < n + 1 by {
                if i < at {
                    assert(later[i] == earlier[i]);
                } else if i > at {
                    assert(later[i] == earlier[i - 1]);
                }
            }
        }
        n = n + 1;
    }
    Some(order)
}

/// What a transfer does next.
#[derive(Clone, Copy, Debug, PartialEq, Eq, Structural)]
pub enum Phase {
    /// Open both namespaces.
    Open,
    /// List the destination.
    ListDestination,
    /// Look whether the manifest is there already.
    LookForManifest,
    /// Read the manifest.
    ReadManifest,
    /// List the source.
    ListSource,
    /// Read the source object with the next key.
    RecordSource,
    /// Verify the source against the records.
    VerifySnapshot,
    /// Write the manifest, and make sure that it stays.
    WriteManifest,
    /// Read the destination object with the next key that was there before.
    CheckExisting,
    /// Copy the next object that the destination lacks.
    Copy,
    /// Verify the source once more.
    VerifySource,
    /// Verify the destination.
    VerifyDestination,
    /// Nothing: the transfer is verified.
    Done,
}

/// The manifest is on disk by this phase.
pub open spec fn is_secured(phase: Phase) -> bool {
    match phase {
        Phase::CheckExisting => true,
        Phase::Copy => true,
        Phase::VerifySource => true,
        Phase::VerifyDestination => true,
        Phase::Done => true,
        _ => false,
    }
}

/// How many of the first `n` records have no object among the entries.
pub open spec fn missing(
    records: Seq<RecordView>,
    entries: Seq<ListedView>,
    n: nat,
) -> nat
    decreases n,
{
    if n == 0 {
        0
    } else if has_key(entries, records[n - 1].key) {
        missing(records, entries, (n - 1) as nat)
    } else {
        missing(records, entries, (n - 1) as nat) + 1
    }
}

/// The first `n` entries all have records.
pub open spec fn all_expected(
    records: Seq<RecordView>,
    entries: Seq<ListedView>,
    n: int,
) -> bool {
    forall|i: int|
        0 <= i < n ==> exists|j: int|
            0 <= j < records.len() && (#[trigger] records[j]).key == (#[trigger] entries[i]).key
}

/// A transfer in its course.
pub struct TransferRun {
    pub options: Options,
    pub phase: Phase,
    /// What the destination held before.
    pub existing: Inventory,
    pub source_keys: Vec<String>,
    pub records: Vec<ObjectRecord>,
    pub order: Vec<usize>,
    pub index: usize,
    pub copied: usize,
    /// The manifest has been read, or written and made sure of.
    pub secured: Ghost<bool>,
    /// What was seen of the source since the last copy.
    pub source_seen: Ghost<Option<Sighting>>,
    /// What was seen of the destination since the last copy.
    pub destination_seen: Ghost<Option<Sighting>>,
}

/// What a transfer that is verified tells of itself.
#[derive(Clone, Debug)]
pub struct Summary {
    pub source: String,
    pub destination: String,
    pub manifest: String,
    pub objects: usize,
    /// The bytes of the objects that were copied.
    pub bytes: u64,
    pub copied: usize,
    pub already_verified: usize,
}

/// The sizes of those of the first `n` records together that have no object among
/// the entries.
pub open spec fn missing_bytes(
    records: Seq<RecordView>,
    entries: Seq<ListedView>,
    n: nat,
) -> int
    decreases n,
{
    if n == 0 {
        0
    } else if has_key(entries, records[n - 1].key) {
        missing_bytes(records, entries, (n - 1) as nat)
    } else {
        missing_bytes(records, entries, (n - 1) as nat) + records[n - 1].size
    }
}

/// The bytes that a transfer has copied once it is done: those of the objects that
/// the destination lacked, and none where it only verifies.
pub open spec fn copied_bytes(
    mode: Mode,
    records: Seq<RecordView>,
    entries: Seq<ListedView>,
) -> int {
    if mode is Copy {
        missing_bytes(records, entries, records.len())
    } else {
        0
    }
}

/// A fresh copy, which starts without a manifest.
pub open spec fn is_fresh(options: Options) -> bool {
    options.mode is Copy && !options.resume
}

/// The texts are in order, none twice.
pub open spec fn texts_ascend(texts: Seq<Seq<char>>) -> bool {
    forall|i: int, j: int|
        0 <= i < j < texts.len() ==> before(#[trigger] texts[i], #[trigger] texts[j])
}

/// A verification has seen the namespace of the records.
pub open spec fn has_shown(
    seen: Option<Sighting>,
    records: Seq<RecordView>,
    source: bool,
) -> bool {
    seen matches Some(sighting) && sighting.shows(records, source)
}

/// The verification is one of the records, and every object has been read.
pub open spec fn has_read_all(
    verification: Verification,
    records: Seq<RecordView>,
    source: bool,
) -> bool {
    &&& verification.wf()
    &&& verification.source == source
    &&& verification.records@ == records
    &&& verification.index == records.len()
}

impl TransferRun {
    /// The records, as views.
    pub open spec fn recorded(self) -> Seq<RecordView> {
        record_views(self.records@)
    }

    /// The records are those of the first keys of the source, in their order.
    pub open spec fn follows_source(self) -> bool {
        let keys = views(self.source_keys@);
        &&& texts_ascend(keys)
        &&& self.recorded().len() <= keys.len()
        &&& record_keys(self.recorded()) == keys.take(self.recorded().len() as int)
    }

    /// What holds of a transfer in its course: the manifest is on disk before the
    /// destination is touched, every key that was at the destination before has
    /// its record, only missing objects have been counted as copied, and a
    /// transfer that is done has seen both namespaces to be those of the records
    /// since the last copy. A fresh copy records exactly the keys of the source.
    pub open spec fn wf(self) -> bool {
        let records = self.recorded();
        &&& self.existing.wf()
        &&& is_secured(self.phase) ==> {
            &&& self.secured@
            &&& is_index(self.order@, records)
            &&& indexes(self.order@, records.len() as int)
            &&& distinct_keys(records)
        }
        &&& !is_secured(self.phase) ==> self.copied == 0
        &&& self.phase is Open || self.phase is ListDestination || self.phase is LookForManifest
            || self.phase is ReadManifest || self.phase is ListSource ==> self.records@.len() == 0
        &&& self.phase is LookForManifest || self.phase is ListSource || self.phase is RecordSource
            || self.phase is WriteManifest ==> is_fresh(self.options)
        &&& self.phase is VerifySnapshot && !is_fresh(self.options) ==> self.secured@
        &&& self.phase is RecordSource ==> self.index == self.records@.len()
            && self.index < self.source_keys@.len()
        &&& self.phase is CheckExisting ==> self.index < self.existing@.len() && all_expected(
            records,
            self.existing@,
            self.index as int,
        ) && self.copied == 0
        &&& self.phase is Copy ==> self.options.mode is Copy && self.index <= records.len()
            && self.copied == missing(records, self.existing@, self.index as nat) && all_expected(
            records,
            self.existing@,
            self.existing@.len() as int,
        )
        &&& self.phase is VerifySource || self.phase is VerifyDestination || self.phase is Done ==> {
            &&& self.copied == if self.options.mode is Copy {
                missing(records, self.existing@, records.len())
            } else {
                0
            }
            &&& all_expected(records, self.existing@, self.existing@.len() as int)
        }
        &&& self.phase is VerifyDestination || self.phase is Done ==> has_shown(
            self.source_seen@,
            records,
            true,
        )
        &&& self.phase is Done ==> has_shown(self.destination_seen@, records, false)
        &&& self.phase is ReadManifest ==> !is_fresh(self.options)
        &&& is_fresh(self.options) ==> self.follows_source() && (self.phase is VerifySnapshot
            || self.phase is WriteManifest || is_secured(self.phase) ==> records.len()
            == self.source_keys@.len())
    }

    /// A transfer that has done nothing yet.
    pub fn new(options: Options) -> (run: Result<TransferRun, TransferError>)
        ensures
            run is Err <==> options.source@ == options.destination@,
            run matches Err(error) ==> error is SameSpecs,
            run matches Ok(run) ==> {
                &&& run.wf()
                &&& run.options == options
                &&& run.phase is Open
                &&& run.records@.len() == 0
                &&& run.copied == 0
            },
    {
        if same_text(options.source.as_str(), options.destination.as_str()) {
            return Err(TransferError::SameSpecs);
        }
        proof {
            let keys = Seq::<Seq<char>>::empty();
            assert(views(Seq::<String>::empty()) =~= keys);
            assert(record_keys(record_views(Seq::<ObjectRecord>::empty())) =~= keys.take(0));
        }
        Ok(
            TransferRun {
                options,
                phase: Phase::Open,
                existing: Inventory::new(""),
                source_keys: Vec::new(),
                records: Vec::new(),
                order: Vec::new(),
                index: 0,
                copied: 0,
                secured: Ghost(false),
                source_seen: Ghost(None),
                destination_seen: Ghost(None),
            },
        )
    }

    /// Whether the destination must be there already.
    pub fn destination_must_exist(&self) -> (yes: bool)
        ensures
            yes == (self.options.mode is Verify),
    {
        self.options.mode == Mode::Verify
    }

    /// Takes where the namespaces lie.
    pub fn opened(&mut self, source: &BucketFacts, destination: &BucketFacts) -> (next: Result<
        (),
        TransferError,
    >)
        requires
            old(self).wf(),
            old(self).phase is Open,
        ensures
            final(self).wf(),
            next is Err <==> overlap(*source, *destination),
            next matches Err(error) ==> error is Overlap && *final(self) == *old(self),
            next is Ok ==> *final(self) == (TransferRun {
                phase: Phase::ListDestination,
                ..*old(self)
            }),
    {
        if overlaps(source, destination) {
            return Err(TransferError::Overlap);
        }
        self.phase = Phase::ListDestination;
        Ok(())
    }

    /// Takes what the destination holds: nothing, for a fresh copy.
    pub fn listed_destination(&mut self, existing: Inventory) -> (next: Result<(), TransferError>)
        requires
            old(self).wf(),
            old(self).phase is ListDestination,
            existing.wf(),
        ensures
            final(self).wf(),
            next is Err <==> is_fresh(old(self).options) && existing@.len() > 0,
            next matches Err(error) ==> error is DestinationNotEmpty && *final(self) == *old(self),
            next is Ok ==> *final(self) == (TransferRun {
                existing,
                phase: if is_fresh(old(self).options) {
                    Phase::LookForManifest
                } else {
                    Phase::ReadManifest
                },
                ..*old(self)
            }),
    {
        let fresh = self.options.mode == Mode::Copy && !self.options.resume;
        if fresh && existing.entries.len() > 0 {
            return Err(TransferError::DestinationNotEmpty);
        }
        self.existing = existing;
        self.phase = if fresh {
            Phase::LookForManifest
        } else {
            Phase::ReadManifest
        };
        Ok(())
    }

    /// Takes whether a manifest is there, which no fresh copy may find.
    pub fn looked_for_manifest(&mut self, exists: bool) -> (next: Result<(), TransferError>)
        requires
            old(self).wf(),
            old(self).phase is LookForManifest,
        ensures
            final(self).wf(),
            next is Err <==> exists,
            next matches Err(error) ==> error is ManifestExists && *final(self) == *old(self),
            next is Ok ==> *final(self) == (TransferRun { phase: Phase::ListSource, ..*old(self) }),
    {
        if exists {
            return Err(TransferError::ManifestExists);
        }
        self.phase = Phase::ListSource;
        Ok(())
    }

    /// Takes the manifest of an earlier run, which must be of this transfer.
    pub fn read_manifest(&mut self, manifest: Manifest) -> (next: Result<(), TransferError>)
        requires
            old(self).wf(),
            old(self).phase is ReadManifest,
        ensures
            final(self).wf(),
            ({
                let foreign = manifest.source@ != old(self).options.source@
                    || manifest.destination@ != old(self).options.destination@;
                match next {
                    Ok(()) => manifest.format_version == MANIFEST_VERSION && !foreign
                        && *final(self) == (TransferRun {
                        records: manifest.objects,
                        secured: Ghost(true),
                        phase: Phase::VerifySnapshot,
                        ..*old(self)
                    }),
                    Err(TransferError::ManifestFormat) => manifest.format_version
                        != MANIFEST_VERSION,
                    Err(TransferError::ManifestForeign) => manifest.format_version
                        == MANIFEST_VERSION && foreign,
                    Err(_) => false,
                }
            }),
            next is Err ==> *final(self) == *old(self),
    {
        if manifest.format_version != MANIFEST_VERSION {
            return Err(TransferError::ManifestFormat);
        }
        if !same_text(manifest.source.as_str(), self.options.source.as_str()) || !same_text(
            manifest.destination.as_str(),
            self.options.destination.as_str(),
        ) {
            return Err(TransferError::ManifestForeign);
        }
        self.records = manifest.objects;
        self.secured = Ghost(true);
        self.phase = Phase::VerifySnapshot;
        Ok(())
    }

    /// Takes what the source holds, which must be something.
    pub fn listed_source(&mut self, listed: &Inventory) -> (next: Result<(), TransferError>)
        requires
            old(self).wf(),
            old(self).phase is ListSource,
            listed.wf(),
        ensures
            final(self).wf(),
            next is Err <==> listed@.len() == 0,
            next matches Err(error) ==> error is EmptySource && *final(self) == *old(self),
            next is Ok ==> {
                &&& views(final(self).source_keys@) == entry_keys(listed@)
                &&& *final(self) == (TransferRun {
                    source_keys: final(self).source_keys,
                    index: 0,
                    phase: Phase::RecordSource,
                    ..*old(self)
                })
            },
    {
        if listed.entries.len() == 0 {
            return Err(TransferError::EmptySource);
        }
        let mut keys: Vec<String> = Vec::new();
        let mut i: usize = 0;
        while i < listed.entries.len()
            invariant
                0 <= i <= listed@.len(),
                views(keys@) == entry_keys(listed@).take(i as int),
            decreases listed@.len() - i,
        {
            let ghost seen = keys@;
            keys.push(listed.entries[i].key.clone());
            i = i + 1;
            assert(views(keys@) =~= entry_keys(listed@).take(i as int));
        }
        assert(entry_keys(listed@).take(listed@.len() as int) =~= entry_keys(listed@));
        assert(views(keys@).len() == keys@.len());
        proof {
            let all = entry_keys(listed@);
            assert forall|i: int, j: int| 0 <= i < j < all.len() implies before(
                #[trigger] all[i],
                #[trigger] all[j],
            ) by {
                assert(before(listed@[i].key, listed@[j].key));
            }
            assert(record_keys(self.recorded()) =~= all.take(0));
        }
        self.source_keys = keys;
        self.index = 0;
        self.phase = Phase::RecordSource;
        Ok(())
    }

    /// Takes the record of the source object with the next key.
    pub fn recorded_source(&mut self, record: ObjectRecord)
        requires
            old(self).wf(),
            old(self).phase is RecordSource,
            record@.key == old(self).source_keys@[old(self).index as int]@,
        ensures
            final(self).wf(),
            *final(self) == (TransferRun {
                records: final(self).records,
                index: (old(self).index + 1) as usize,
                phase: if old(self).index + 1 < old(self).source_keys@.len() {
                    Phase::RecordSource
                } else {
                    Phase::VerifySnapshot
                },
                ..*old(self)
            }),
            final(self).records@ == old(self).records@.push(record),
    {
        assert(self.index < self.source_keys.len());
        let ghost earlier = self.recorded();
        self.records.push(record);
        self.index = self.index + 1;
        proof {
            let all = self.recorded();
            assert(all =~= earlier.push(record@));
            assert(record_keys(all) =~= record_keys(earlier).push(record@.key));
            assert(record_keys(all) =~= views(self.source_keys@).take(all.len() as int));
        }
        if self.index >= self.source_keys.len() {
            self.phase = Phase::VerifySnapshot;
        }
    }

    /// Goes on to the destination, once the manifest is on disk: its records may
    /// not name a key twice.
    fn start_checking(&mut self) -> (next: Result<(), TransferError>)
        requires
            old(self).existing.wf(),
            old(self).secured@,
            old(self).copied == 0,
            old(self).phase is VerifySnapshot || old(self).phase is WriteManifest && is_fresh(
                old(self).options,
            ),
            is_fresh(old(self).options) ==> old(self).follows_source() && old(self).records@.len()
                == old(self).source_keys@.len(),
        ensures
            final(self).wf(),
            next is Err <==> !distinct_keys(old(self).recorded()),
            next matches Err(error) ==> error is DuplicateRecords && *final(self) == *old(self),
            next is Ok ==> *final(self) == (TransferRun {
                order: final(self).order,
                index: 0,
                phase: phase_from(
                    old(self).options.mode,
                    old(self).existing@.len(),
                ),
                ..*old(self)
            }),
    {
        let order = match index_records(&self.records) {
            Some(order) => order,
            None => return Err(TransferError::DuplicateRecords),
        };
        self.order = order;
        self.index = 0;
        self.phase = if self.existing.entries.len() > 0 {
            Phase::CheckExisting
        } else if self.options.mode == Mode::Copy {
            Phase::Copy
        } else {
            Phase::VerifySource
        };
        Ok(())
    }

    /// Takes a verification that has read the whole source, and the second listing
    /// that ends it.
    pub fn verified_snapshot(&mut self, verification: Verification, after: &Inventory) -> (next: Result<
        (),
        TransferError,
    >)
        requires
            old(self).wf(),
            old(self).phase is VerifySnapshot,
            has_read_all(verification, old(self).recorded(), true),
            after.wf(),
        ensures
            final(self).wf(),
            !at_rest(verification.listed@, after@) ==> {
                &&& next matches Err(error)
                &&& tells_unrest(error, verification.listed@, after@)
            },
            next is Err ==> *final(self) == *old(self),
            at_rest(verification.listed@, after@) && is_fresh(old(self).options) ==> next is Ok
                && *final(self) == (TransferRun { phase: Phase::WriteManifest, ..*old(self) }),
            at_rest(verification.listed@, after@) && !is_fresh(old(self).options) ==> {
                &&& next is Err <==> !distinct_keys(old(self).recorded())
                &&& next matches Err(error) ==> error is DuplicateRecords
                &&& next is Ok ==> *final(self) == (TransferRun {
                    order: final(self).order,
                    index: 0,
                    phase: phase_from(old(self).options.mode, old(self).existing@.len()),
                    ..*old(self)
                })
            },
    {
        match verification.finish(after) {
            Ok(()) => {},
            Err(error) => return Err(error),
        }
        if self.options.mode == Mode::Copy && !self.options.resume {
            self.phase = Phase::WriteManifest;
            return Ok(());
        }
        self.start_checking()
    }

    /// The manifest of this transfer.
    pub fn manifest(&self) -> (manifest: Manifest)
        ensures
            manifest.format_version == MANIFEST_VERSION,
            manifest.source@ == self.options.source@,
            manifest.destination@ == self.options.destination@,
            record_views(manifest.objects@) == self.recorded(),
    {
        let mut objects: Vec<ObjectRecord> = Vec::new();
        let mut i: usize = 0;
        while i < self.records.len()
            invariant
                0 <= i <= self.records@.len(),
                record_views(objects@) == self.recorded().take(i as int),
            decreases self.records@.len() - i,
        {
            objects.push(self.records[i].copy());
            i = i + 1;
            assert(record_views(objects@) =~= self.recorded().take(i as int));
        }
        assert(self.recorded().take(self.records@.len() as int) =~= self.recorded());
        Manifest {
            format_version: MANIFEST_VERSION,
            source: self.options.source.clone(),
            destination: self.options.destination.clone(),
            objects,
        }
    }

    /// Takes that the manifest is on disk.
    pub fn wrote_manifest(&mut self) -> (next: Result<(), TransferError>)
        requires
            old(self).wf(),
            old(self).phase is WriteManifest,
        ensures
            final(self).wf(),
            next is Err <==> !distinct_keys(old(self).recorded()),
            next matches Err(error) ==> error is DuplicateRecords && *final(self) == (TransferRun {
                secured: Ghost(true),
                ..*old(self)
            }),
            next is Ok ==> *final(self) == (TransferRun {
                order: final(self).order,
                secured: Ghost(true),
                index: 0,
                phase: phase_from(old(self).options.mode, old(self).existing@.len()),
                ..*old(self)
            }),
    {
        self.secured = Ghost(true);
        self.start_checking()
    }

    /// The record of the next key that was at the destination before, which must
    /// have one.
    pub fn expected(&self) -> (place: Result<usize, TransferError>)
        requires
            self.wf(),
            self.phase is CheckExisting,
        ensures
            match place {
                Ok(place) => place < self.records@.len() && self.records@[place as int]@.key
                    == self.existing@[self.index as int].key,
                Err(TransferError::UnexpectedKey { key }) => key@ == self.existing@[self.index as int].key
                    && forall|i: int|
                    0 <= i < self.records@.len() ==> (#[trigger] self.records@[i])@.key != key@,
                Err(_) => false,
            },
    {
        assert(self.existing@[self.index as int].key
            == self.existing.entries@[self.index as int].key@);
        let key = self.existing.entries[self.index].key.as_str();
        match find_record(&self.order, &self.records, key) {
            Some(place) => Ok(place),
            None => Err(
                TransferError::UnexpectedKey { key: self.existing.entries[self.index].key.clone() },
            ),
        }
    }

    /// Takes the object under that key, which must be the one of the record at
    /// `place`.
    pub fn checked_existing(&mut self, place: usize, actual: &ObjectRecord) -> (next: Result<
        (),
        TransferError,
    >)
        requires
            old(self).wf(),
            old(self).phase is CheckExisting,
            place < old(self).records@.len(),
            old(self).records@[place as int]@.key == old(self).existing@[old(self).index as int].key,
        ensures
            final(self).wf(),
            ({
                let record = old(self).records@[place as int]@;
                let same = same_bytes(record, actual@) && record.attributes == actual@.attributes;
                match next {
                    Ok(()) => same && *final(self) == if old(self).index + 1
                        < old(self).existing@.len() {
                        TransferRun { index: (old(self).index + 1) as usize, ..*old(self) }
                    } else {
                        TransferRun {
                            index: 0,
                            phase: if old(self).options.mode is Copy {
                                Phase::Copy
                            } else {
                                Phase::VerifySource
                            },
                            ..*old(self)
                        }
                    },
                    Err(TransferError::ContentMismatch { key }) => !same_bytes(record, actual@)
                        && key@ == record.key,
                    Err(TransferError::AttributeMismatch { key }) => same_bytes(record, actual@)
                        && record.attributes != actual@.attributes && key@ == record.key,
                    Err(_) => false,
                }
            }),
            next is Err ==> *final(self) == *old(self),
    {
        match same_content(&self.records[place], actual) {
            Ok(()) => {},
            Err(error) => return Err(error),
        }
        proof {
            let records = self.recorded();
            let n = self.index as int;
            assert(records[place as int].key == self.existing@[n].key);
            assert(all_expected(records, self.existing@, n + 1));
        }
        assert(self.index < self.existing.entries.len());
        if self.index + 1 < self.existing.entries.len() {
            self.index = self.index + 1;
        } else {
            self.index = 0;
            self.phase = if self.options.mode == Mode::Copy {
                Phase::Copy
            } else {
                Phase::VerifySource
            };
        }
        Ok(())
    }

    /// The next object to copy: one whose key was not at the destination before.
    /// Where none is left, the verification begins.
    pub fn next_copy(&mut self) -> (place: Option<usize>)
        requires
            old(self).wf(),
            old(self).phase is Copy,
        ensures
            final(self).wf(),
            *final(self) == (TransferRun {
                index: match place {
                    Some(place) => place,
                    None => old(self).records.len(),
                },
                phase: if place is Some {
                    Phase::Copy
                } else {
                    Phase::VerifySource
                },
                ..*old(self)
            }),
            match place {
                Some(place) => {
                    &&& old(self).index <= place < final(self).records@.len()
                    &&& !has_key(final(self).existing@, final(self).records@[place as int]@.key)
                    &&& forall|i: int|
                        old(self).index <= i < place ==> has_key(
                            final(self).existing@,
                            (#[trigger] final(self).records@[i])@.key,
                        )
                },
                None => forall|i: int|
                    old(self).index <= i < final(self).records@.len() ==> has_key(
                        final(self).existing@,
                        (#[trigger] final(self).records@[i])@.key,
                    ),
            },
    {
        let ghost all = self.recorded();
        while self.index < self.records.len()
            invariant
                self.wf(),
                old(self).index <= self.index <= self.records@.len(),
                *self == (TransferRun { index: self.index, ..*old(self) }),
                forall|i: int|
                    old(self).index <= i < self.index ==> has_key(
                        self.existing@,
                        (#[trigger] self.records@[i])@.key,
                    ),
            decreases self.records@.len() - self.index,
        {
            let ghost n = self.index as int;
            assert(all[n].key == self.records@[n].key@);
            if !self.existing.contains(self.records[self.index].key.as_str()) {
                return Some(self.index);
            }
            assert(missing(all, self.existing@, (n + 1) as nat) == missing(
                all,
                self.existing@,
                n as nat,
            ));
            self.index = self.index + 1;
        }
        self.phase = Phase::VerifySource;
        None
    }

    /// Takes the object that was copied last, as the destination gives it back: it
    /// must be the one of its record.
    pub fn copied_one(&mut self, actual: &ObjectRecord) -> (next: Result<(), TransferError>)
        requires
            old(self).wf(),
            old(self).phase is Copy,
            old(self).index < old(self).records@.len(),
            !has_key(old(self).existing@, old(self).records@[old(self).index as int]@.key),
        ensures
            final(self).wf(),
            ({
                let record = old(self).records@[old(self).index as int]@;
                match next {
                    Ok(()) => record_matches(record, actual@, false) && *final(self) == (
                    TransferRun {
                        index: (old(self).index + 1) as usize,
                        copied: (old(self).copied + 1) as usize,
                        source_seen: Ghost(None),
                        destination_seen: Ghost(None),
                        ..*old(self)
                    }),
                    Err(TransferError::ContentMismatch { key }) => !same_bytes(record, actual@)
                        && key@ == record.key,
                    Err(TransferError::AttributeMismatch { key }) => same_bytes(record, actual@)
                        && record.attributes != actual@.attributes && key@ == record.key,
                    Err(_) => false,
                }
            }),
            next is Err ==> *final(self) == *old(self),
    {
        match same_content(&self.records[self.index], actual) {
            Ok(()) => {},
            Err(error) => return Err(error),
        }
        proof {
            missing_is_bounded(self.recorded(), self.existing@, self.index as nat);
            assert(self.index < self.records.len());
        }
        self.index = self.index + 1;
        self.copied = self.copied + 1;
        self.source_seen = Ghost(None);
        self.destination_seen = Ghost(None);
        Ok(())
    }

    /// Takes a verification that has read the whole source once more, and the
    /// second listing that ends it.
    pub fn verified_source(&mut self, verification: Verification, after: &Inventory) -> (next: Result<
        (),
        TransferError,
    >)
        requires
            old(self).wf(),
            old(self).phase is VerifySource,
            has_read_all(verification, old(self).recorded(), true),
            after.wf(),
        ensures
            final(self).wf(),
            next is Ok <==> at_rest(verification.listed@, after@),
            next is Ok ==> *final(self) == (TransferRun {
                source_seen: Ghost(Some(verification.sighting(after@))),
                phase: Phase::VerifyDestination,
                ..*old(self)
            }),
            next matches Err(error) ==> tells_unrest(error, verification.listed@, after@)
                && *final(self) == *old(self),
    {
        let ghost seen = verification.sighting(after@);
        match verification.finish(after) {
            Ok(()) => {},
            Err(error) => return Err(error),
        }
        self.source_seen = Ghost(Some(seen));
        self.phase = Phase::VerifyDestination;
        Ok(())
    }

    /// Takes a verification that has read the whole destination, and the second
    /// listing that ends it.
    pub fn verified_destination(
        &mut self,
        verification: Verification,
        after: &Inventory,
    ) -> (next: Result<(), TransferError>)
        requires
            old(self).wf(),
            old(self).phase is VerifyDestination,
            has_read_all(verification, old(self).recorded(), false),
            after.wf(),
        ensures
            final(self).wf(),
            next is Ok <==> at_rest(verification.listed@, after@),
            next is Ok ==> *final(self) == (TransferRun {
                destination_seen: Ghost(Some(verification.sighting(after@))),
                phase: Phase::Done,
                ..*old(self)
            }),
            next matches Err(error) ==> tells_unrest(error, verification.listed@, after@)
                && *final(self) == *old(self),
    {
        let ghost seen = verification.sighting(after@);
        match verification.finish(after) {
            Ok(()) => {},
            Err(error) => return Err(error),
        }
        self.destination_seen = Ghost(Some(seen));
        self.phase = Phase::Done;
        Ok(())
    }

    /// What a transfer that is verified tells of itself.
    pub fn summary(&self) -> (summary: Summary)
        requires
            self.wf(),
            self.phase is Done,
            copied_bytes(self.options.mode, self.recorded(), self.existing@) <= u64::MAX,
        ensures
            summary.source@ == self.options.source@,
            summary.destination@ == self.options.destination@,
            summary.manifest@ == self.options.manifest@,
            summary.objects == self.records@.len(),
            summary.bytes == copied_bytes(self.options.mode, self.recorded(), self.existing@),
            summary.copied == self.copied,
            summary.already_verified == self.existing@.len(),
            self.options.mode is Copy ==> summary.copied + summary.already_verified
                == summary.objects,
            summary.copied == 0 ==> summary.bytes == 0,
            self.options.mode is Verify ==> summary.copied == 0,
    {
        let ghost all = self.recorded();
        let copies = self.options.mode == Mode::Copy;
        let mut bytes: u64 = 0;
        let mut i: usize = 0;
        while copies && i < self.records.len()
            invariant
                0 <= i <= self.records@.len(),
                !copies ==> bytes == 0,
                copies ==> bytes == missing_bytes(all, self.existing@, i as nat),
            decreases self.records@.len() - i,
        {
            assert(all[i as int].key == self.records@[i as int].key@);
            if !self.existing.contains(self.records[i].key.as_str()) {
                proof {
                    missing_bytes_grow(all, self.existing@, (i + 1) as nat, all.len());
                }
                bytes = bytes + self.records[i].size;
            }
            i = i + 1;
        }
        proof {
            copied_and_existing_are_all(all, self.existing@);
            nothing_missing_is_no_bytes(all, self.existing@, all.len());
        }
        Summary {
            source: self.options.source.clone(),
            destination: self.options.destination.clone(),
            manifest: self.options.manifest.clone(),
            objects: self.records.len(),
            bytes,
            copied: self.copied,
            already_verified: self.existing.entries.len(),
        }
    }
}

/// The phase behind the manifest.
pub open spec fn phase_from(mode: Mode, existing: nat) -> Phase {
    if existing > 0 {
        Phase::CheckExisting
    } else if mode is Copy {
        Phase::Copy
    } else {
        Phase::VerifySource
    }
}

proof fn missing_is_bounded(records: Seq<RecordView>, entries: Seq<ListedView>, n: nat)
    ensures
        missing(records, entries, n) <= n,
    decreases n,
{
    if n > 0 {
        missing_is_bounded(records, entries, (n - 1) as nat);
    }
}

proof fn missing_bytes_grow(
    records: Seq<RecordView>,
    entries: Seq<ListedView>,
    m: nat,
    n: nat,
)
    requires
        m <= n,
    ensures
        missing_bytes(records, entries, m) <= missing_bytes(records, entries, n),
    decreases n,
{
    if m < n {
        missing_bytes_grow(records, entries, m, (n - 1) as nat);
    }
}

proof fn nothing_missing_is_no_bytes(records: Seq<RecordView>, entries: Seq<ListedView>, n: nat)
    ensures
        missing(records, entries, n) == 0 ==> missing_bytes(records, entries, n) == 0,
    decreases n,
{
    if n > 0 {
        nothing_missing_is_no_bytes(records, entries, (n - 1) as nat);
    }
}

/// The missing records are those of the keys that are not among the entries.
proof fn missing_counts(records: Seq<RecordView>, entries: Seq<ListedView>, n: nat)
    requires
        distinct_keys(records),
        n <= records.len(),
    ensures
        ({
            let keys = record_keys(records).take(n as int).to_set();
            let there = entry_keys(entries).to_set();
            &&& keys.finite()
            &&& keys.difference(there).finite()
            &&& keys.difference(there).len() == missing(records, entries, n)
        }),
    decreases n,
{
    let all = record_keys(records);
    let there = entry_keys(entries).to_set();
    let keys = all.take(n as int).to_set();
    if n == 0 {
        assert(keys =~= Set::<Seq<char>>::empty());
        assert(keys.difference(there) =~= Set::<Seq<char>>::empty());
    } else {
        missing_counts(records, entries, (n - 1) as nat);
        let shorter = all.take(n - 1);
        let rest = shorter.to_set();
        let key = all[n - 1];
        assert(all.take(n as int) =~= shorter.push(key));
        assert(keys =~= rest.insert(key)) by {
            assert forall|k: Seq<char>| keys.contains(k) <==> rest.insert(key).contains(k) by {
                let seq = all.take(n as int);
                if keys.contains(k) {
                    let i = choose|i: int| 0 <= i < seq.len() && seq[i] == k;
                    if i < n - 1 {
                        assert(shorter[i] == k);
                    }
                }
                if rest.contains(k) {
                    let i = choose|i: int| 0 <= i < shorter.len() && shorter[i] == k;
                    assert(seq[i] == k);
                }
                assert(seq[n - 1] == key);
            }
        }
        assert(!rest.contains(key)) by {
            if rest.contains(key) {
                let i = choose|i: int| 0 <= i < shorter.len() && shorter[i] == key;
                assert(records[i].key == records[n - 1].key);
            }
        }
        assert(there.contains(key) <==> has_key(entries, key)) by {
            if has_key(entries, key) {
                let i = choose|i: int| 0 <= i < entries.len() && (#[trigger] entries[i]).key == key;
                assert(entry_keys(entries)[i] == key);
            }
            if there.contains(key) {
                let i = choose|i: int|
                    0 <= i < entry_keys(entries).len() && entry_keys(entries)[i] == key;
                assert(entries[i].key == key);
            }
        }
        if there.contains(key) {
            assert(keys.difference(there) =~= rest.difference(there));
        } else {
            assert(keys.difference(there) =~= rest.difference(there).insert(key));
            assert(!rest.difference(there).contains(key));
        }
    }
}

/// Where every key that was there before has its record, the objects copied and
/// those that were there are all the objects of the manifest.
pub proof fn copied_and_existing_are_all(records: Seq<RecordView>, entries: Seq<ListedView>)
    requires
        distinct_keys(records),
        keys_ascend(entries),
        all_expected(records, entries, entries.len() as int),
    ensures
        missing(records, entries, records.len()) + entries.len() == records.len(),
{
    let a = record_keys(records);
    let b = entry_keys(entries);
    missing_counts(records, entries, records.len());
    assert(a.take(records.len() as int) =~= a);
    keys_come_once(records, entries);
    a.unique_seq_to_set();
    b.unique_seq_to_set();
    let x = a.to_set();
    let y = b.to_set();
    assert(y.subset_of(x)) by {
        assert forall|k: Seq<char>| y.contains(k) implies x.contains(k) by {
            let i = choose|i: int| 0 <= i < b.len() && b[i] == k;
            assert(entries[i].key == k);
            let j = choose|j: int|
                0 <= j < records.len() && (#[trigger] records[j]).key == entries[i].key;
            assert(a[j] == k);
        }
    }
    assert(x.intersect(y) =~= y);
    assert(x.difference(y).len() + x.intersect(y).len() == x.len()) by {
        assert(x =~= x.difference(y).union(y));
        assert(x.difference(y).disjoint(y));
        vstd::set_lib::lemma_set_disjoint_lens(x.difference(y), y);
    }
}

/// No object is copied before the manifest that names it is on disk.
pub proof fn manifest_comes_first(run: TransferRun)
    requires
        run.wf(),
        run.phase is Copy || run.copied > 0,
    ensures
        run.secured@,
{
}

/// A transfer is done only once both namespaces have been seen, behind its last
/// copy, to be those of the manifest: the same keys, none missing and none left
/// over, and under each key the recorded bytes and attributes, in the source of
/// the recorded generation too. What was at the destination before is part of it.
pub proof fn done_is_verified(run: TransferRun)
    requires
        run.wf(),
        run.phase is Done,
    ensures
        distinct_keys(run.recorded()),
        run.source_seen@ matches Some(seen) && is_exactly(seen, run.recorded(), true),
        run.destination_seen@ matches Some(seen) && is_exactly(seen, run.recorded(), false),
        all_expected(run.recorded(), run.existing@, run.existing@.len() as int),
{
    matching_keysets_are_equal(run.source_seen@.unwrap().listed, run.recorded());
    matching_keysets_are_equal(run.destination_seen@.unwrap().listed, run.recorded());
}

/// The namespace that was seen holds the objects of the records and no other.
pub open spec fn is_exactly(seen: Sighting, records: Seq<RecordView>, source: bool) -> bool {
    &&& forall|i: int| 0 <= i < records.len() ==> has_key(seen.listed, (#[trigger] records[i]).key)
    &&& forall|i: int|
        0 <= i < seen.listed.len() ==> exists|j: int|
            0 <= j < records.len() && (#[trigger] records[j]).key == (
            #[trigger] seen.listed[i]).key
    &&& seen.actual.len() == records.len()
    &&& forall|i: int|
        0 <= i < records.len() ==> record_matches(records[i], #[trigger] seen.actual[i], source)
    &&& at_rest(seen.listed, seen.after)
}

/// The manifest of a fresh copy names every key that the source listed, and no
/// other, each once.
pub proof fn fresh_manifest_is_complete(run: TransferRun)
    requires
        run.wf(),
        is_fresh(run.options),
        run.phase is WriteManifest || is_secured(run.phase),
    ensures
        record_keys(run.recorded()) == views(run.source_keys@),
        distinct_keys(run.recorded()),
{
    let records = run.recorded();
    let keys = views(run.source_keys@);
    assert(keys.take(records.len() as int) =~= keys);
    assert forall|i: int, j: int| 0 <= i < j < records.len() implies (#[trigger] records[i]).key != (
    #[trigger] records[j]).key by {
        assert(record_keys(records)[i] == keys[i] && record_keys(records)[j] == keys[j]);
        before_is_irreflexive(keys[i]);
    }
}

} // verus!
