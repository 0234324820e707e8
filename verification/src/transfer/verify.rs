//! Verification of a namespace against the records of a manifest.
use crate::text::{before, before_is_irreflexive, same_text};
use crate::transfer::failure::TransferError;
use crate::transfer::namespace::{has_key, keys_ascend, Inventory, Listed, ListedView};
use crate::transfer::record::{
    same_bytes, same_content, same_name, same_record, ObjectRecord, RecordView,
};
use vstd::prelude::*;
use vstd::set_lib::lemma_subset_equality;

verus! {

/// Records, as views.
pub open spec fn record_views(records: Seq<ObjectRecord>) -> Seq<RecordView> {
    records.map_values(|r: ObjectRecord| r@)
}

/// As many keys are listed as there are records, and every record's key is.
pub open spec fn keyset_matches(entries: Seq<ListedView>, records: Seq<RecordView>) -> bool {
    &&& entries.len() == records.len()
    &&& forall|i: int| 0 <= i < records.len() ==> has_key(entries, (#[trigger] records[i]).key)
}

/// The object is the one of the record: the same bytes and attributes and, in the
/// source, of the same generation.
pub open spec fn record_matches(record: RecordView, actual: RecordView, source: bool) -> bool {
    if source {
        record == actual
    } else {
        same_bytes(record, actual) && record.attributes == actual.attributes
    }
}

/// The refusal tells how an object is not the one of its record: by its bytes, or
/// else by its attributes, or else by its generation.
pub open spec fn tells_mismatch(
    error: TransferError,
    record: RecordView,
    actual: RecordView,
    source: bool,
) -> bool {
    match error {
        TransferError::ContentMismatch { key } => !same_bytes(record, actual) && key@
            == record.key,
        TransferError::AttributeMismatch { key } => same_bytes(record, actual)
            && record.attributes != actual.attributes && key@ == record.key,
        TransferError::GenerationChanged { key } => source && same_bytes(record, actual)
            && record.attributes == actual.attributes && record != actual && key@ == record.key,
        _ => false,
    }
}

/// The objects, one by one, are those of the first records.
pub open spec fn all_match(
    records: Seq<RecordView>,
    actual: Seq<RecordView>,
    source: bool,
) -> bool {
    &&& actual.len() <= records.len()
    &&& forall|i: int|
        0 <= i < actual.len() ==> record_matches(records[i], #[trigger] actual[i], source)
}

/// The object has not been written between two listings.
pub open spec fn unchanged(earlier: ListedView, now: ListedView) -> bool {
    &&& earlier.e_tag == now.e_tag
    &&& earlier.version == now.version
    &&& earlier.size == now.size
    &&& earlier.modified_s == now.modified_s
    &&& earlier.modified_ns == now.modified_ns
}

/// The listings have the same keys.
pub open spec fn same_keys(earlier: Seq<ListedView>, now: Seq<ListedView>) -> bool {
    earlier.len() == now.len() && forall|i: int|
        0 <= i < earlier.len() ==> (#[trigger] earlier[i]).key == now[i].key
}

/// Between two listings nothing came or went, and nothing was written.
pub open spec fn at_rest(earlier: Seq<ListedView>, now: Seq<ListedView>) -> bool {
    same_keys(earlier, now) && forall|i: int|
        0 <= i < now.len() ==> unchanged(earlier[i], #[trigger] now[i])
}

/// The refusal tells how a namespace was not at rest between two listings: keys
/// came or went, or else the first object that was written.
pub open spec fn tells_unrest(
    error: TransferError,
    earlier: Seq<ListedView>,
    now: Seq<ListedView>,
) -> bool {
    match error {
        TransferError::KeysetChanged => !same_keys(earlier, now),
        TransferError::ObjectChanged { key } => same_keys(earlier, now) && exists|i: int|
            {
                &&& 0 <= i < now.len()
                &&& !unchanged(earlier[i], #[trigger] now[i])
                &&& key@ == now[i].key
                &&& forall|j: int| 0 <= j < i ==> unchanged(earlier[j], #[trigger] now[j])
            },
        _ => false,
    }
}

/// What a verification saw: a listing, every object, and a second listing.
#[verifier::ext_equal]
pub struct Sighting {
    pub listed: Seq<ListedView>,
    pub actual: Seq<RecordView>,
    pub after: Seq<ListedView>,
}

impl Sighting {
    /// The namespace that was seen is the one of the records: it has their keys,
    /// every object is the one of its record, and it was at rest all the while.
    pub open spec fn shows(self, records: Seq<RecordView>, source: bool) -> bool {
        &&& keys_ascend(self.listed)
        &&& keyset_matches(self.listed, records)
        &&& self.actual.len() == records.len()
        &&& all_match(records, self.actual, source)
        &&& at_rest(self.listed, self.after)
    }
}

/// Whether the objects of a namespace are those of the records, as far as they
/// have been read.
pub struct Verification {
    pub source: bool,
    pub listed: Inventory,
    pub index: usize,
    /// The records.
    pub records: Ghost<Seq<RecordView>>,
    /// The objects read so far.
    pub actual: Ghost<Seq<RecordView>>,
}

/// Whether the object is the one of the record.
pub fn check_record(record: &ObjectRecord, actual: &ObjectRecord, source: bool) -> (checked: Result<
    (),
    TransferError,
>)
    ensures
        checked is Ok <==> record_matches(record@, actual@, source),
        checked is Ok ==> record.size == actual.size && record.sha256@ == actual.sha256@,
        checked matches Err(error) ==> tells_mismatch(error, record@, actual@, source),
{
    match same_content(record, actual) {
        Ok(()) => {},
        Err(error) => return Err(error),
    }
    if source && !same_record(record, actual) {
        return Err(TransferError::GenerationChanged { key: record.key.clone() });
    }
    Ok(())
}

impl Verification {
    /// The namespace lists the keys of the records, and the objects read so far are
    /// those of the first records.
    pub open spec fn wf(self) -> bool {
        &&& self.listed.wf()
        &&& keyset_matches(self.listed@, self.records@)
        &&& self.actual@.len() == self.index
        &&& all_match(self.records@, self.actual@, self.source)
    }

    /// What the verification has seen, with a second listing.
    pub open spec fn sighting(self, after: Seq<ListedView>) -> Sighting {
        Sighting { listed: self.listed@, actual: self.actual@, after }
    }

    /// Begins with the listing of the namespace.
    pub fn new(listed: Inventory, records: &Vec<ObjectRecord>, source: bool) -> (begun: Result<
        Verification,
        TransferError,
    >)
        requires
            listed.wf(),
        ensures
            match begun {
                Ok(begun) => {
                    &&& keyset_matches(listed@, record_views(records@))
                    &&& begun.wf()
                    &&& begun.source == source
                    &&& begun.index == 0
                    &&& begun.listed == listed
                    &&& begun.records@ == record_views(records@)
                },
                Err(error) => !keyset_matches(listed@, record_views(records@)) && error == (
                TransferError::KeysetDiffers { source }),
            },
    {
        if listed.entries.len() != records.len() {
            return Err(TransferError::KeysetDiffers { source });
        }
        let ghost views = record_views(records@);
        let mut i: usize = 0;
        while i < records.len()
            invariant
                0 <= i <= records@.len(),
                forall|j: int| 0 <= j < i ==> has_key(listed@, (#[trigger] views[j]).key),
            decreases records@.len() - i,
        {
            if !listed.contains(records[i].key.as_str()) {
                assert(!has_key(listed@, views[i as int].key));
                return Err(TransferError::KeysetDiffers { source });
            }
            i = i + 1;
        }
        Ok(
            Verification {
                source,
                listed,
                index: 0,
                records: Ghost(views),
                actual: Ghost(Seq::empty()),
            },
        )
    }

    /// The next object to read, by the place of its record.
    pub fn next(&self) -> (index: Option<usize>)
        requires
            self.wf(),
        ensures
            index == if self.index < self.records@.len() {
                Some(self.index)
            } else {
                None
            },
    {
        if self.index < self.listed.entries.len() {
            Some(self.index)
        } else {
            None
        }
    }

    /// Takes the object that was read for the next record.
    pub fn accept(&mut self, record: &ObjectRecord, actual: &ObjectRecord) -> (taken: Result<
        (),
        TransferError,
    >)
        requires
            old(self).wf(),
            old(self).index < old(self).records@.len(),
            record@ == old(self).records@[old(self).index as int],
        ensures
            final(self).wf(),
            final(self).source == old(self).source,
            final(self).listed == old(self).listed,
            final(self).records == old(self).records,
            taken is Ok <==> record_matches(record@, actual@, old(self).source),
            taken is Ok ==> final(self).actual@ == old(self).actual@.push(actual@),
            taken matches Err(error) ==> *final(self) == *old(self) && tells_mismatch(
                error,
                record@,
                actual@,
                old(self).source,
            ),
    {
        match check_record(record, actual, self.source) {
            Ok(()) => {},
            Err(error) => return Err(error),
        }
        assert(self.index < self.listed.entries.len());
        self.index = self.index + 1;
        self.actual = Ghost(self.actual@.push(actual@));
        Ok(())
    }

    /// Ends with a second listing: nothing came or went, and nothing was written
    /// in the meantime.
    pub fn finish(self, after: &Inventory) -> (done: Result<(), TransferError>)
        requires
            self.wf(),
            after.wf(),
            self.index == self.records@.len(),
        ensures
            done is Ok <==> at_rest(self.listed@, after@),
            done is Ok ==> self.sighting(after@).shows(self.records@, self.source),
            done matches Err(error) ==> tells_unrest(error, self.listed@, after@),
    {
        if self.listed.entries.len() != after.entries.len() {
            return Err(TransferError::KeysetChanged);
        }
        let mut i: usize = 0;
        while i < after.entries.len()
            invariant
                0 <= i <= after@.len() == self.listed@.len(),
                forall|j: int| 0 <= j < i ==> (#[trigger] self.listed@[j]).key == after@[j].key,
            decreases after@.len() - i,
        {
            assert(self.listed@[i as int].key == self.listed.entries@[i as int].key@);
            assert(after@[i as int].key == after.entries@[i as int].key@);
            if !same_text(self.listed.entries[i].key.as_str(), after.entries[i].key.as_str()) {
                assert(self.listed@[i as int].key != after@[i as int].key);
                return Err(TransferError::KeysetChanged);
            }
            i = i + 1;
        }
        let mut k: usize = 0;
        while k < after.entries.len()
            invariant
                0 <= k <= after@.len() == self.listed@.len(),
                same_keys(self.listed@, after@),
                forall|j: int| 0 <= j < k ==> unchanged(self.listed@[j], #[trigger] after@[j]),
            decreases after@.len() - k,
        {
            let same = is_unchanged(&self.listed.entries[k], &after.entries[k]);
            assert(self.listed@[k as int] == self.listed.entries@[k as int]@);
            assert(after@[k as int] == after.entries@[k as int]@);
            if !same {
                let key = after.entries[k].key.clone();
                assert(!unchanged(self.listed@[k as int], after@[k as int]));
                return Err(TransferError::ObjectChanged { key });
            }
            k = k + 1;
        }
        Ok(())
    }
}

/// Whether an object has not been written between two listings.
fn is_unchanged(earlier: &Listed, now: &Listed) -> (yes: bool)
    ensures
        yes == unchanged(earlier@, now@),
{
    same_name(&earlier.e_tag, &now.e_tag) && same_name(&earlier.version, &now.version)
        && earlier.size == now.size && earlier.modified_s == now.modified_s && earlier.modified_ns
        == now.modified_ns
}

/// The keys of the records are all different.
pub open spec fn distinct_keys(records: Seq<RecordView>) -> bool {
    forall|i: int, j: int|
        0 <= i < j < records.len() ==> (#[trigger] records[i]).key != (#[trigger] records[j]).key
}

/// The keys of some records.
pub open spec fn record_keys(records: Seq<RecordView>) -> Seq<Seq<char>> {
    records.map_values(|r: RecordView| r.key)
}

/// The keys of some entries.
pub open spec fn entry_keys(entries: Seq<ListedView>) -> Seq<Seq<char>> {
    entries.map_values(|l: ListedView| l.key)
}

/// No key of records without duplicates comes twice, nor does one of a namespace in
/// order.
pub proof fn keys_come_once(records: Seq<RecordView>, entries: Seq<ListedView>)
    requires
        distinct_keys(records),
        keys_ascend(entries),
    ensures
        record_keys(records).no_duplicates(),
        entry_keys(entries).no_duplicates(),
{
    let a = record_keys(records);
    let b = entry_keys(entries);
    assert(a.no_duplicates()) by {
        assert forall|i: int, j: int| 0 <= i < a.len() && 0 <= j < a.len() && i != j implies a[i]
            != a[j] by {
            if i < j {
                assert(records[i].key != records[j].key);
            } else {
                assert(records[j].key != records[i].key);
            }
        }
    }
    assert(b.no_duplicates()) by {
        assert forall|i: int, j: int| 0 <= i < b.len() && 0 <= j < b.len() && i != j implies b[i]
            != b[j] by {
            before_is_irreflexive(b[i]);
            if i < j {
                assert(before(entries[i].key, entries[j].key));
            } else {
                assert(before(entries[j].key, entries[i].key));
            }
        }
    }
}

/// A namespace that passes for the keys of records without duplicates has exactly
/// those keys: none is missing and none is left over.
pub proof fn matching_keysets_are_equal(entries: Seq<ListedView>, records: Seq<RecordView>)
    requires
        keys_ascend(entries),
        distinct_keys(records),
        keyset_matches(entries, records),
    ensures
        forall|i: int|
            0 <= i < records.len() ==> has_key(entries, (#[trigger] records[i]).key),
        forall|i: int|
            0 <= i < entries.len() ==> exists|j: int|
                0 <= j < records.len() && (#[trigger] records[j]).key == (#[trigger] entries[i]).key,
{
    let a = record_keys(records);
    let b = entry_keys(entries);
    keys_come_once(records, entries);
    a.unique_seq_to_set();
    b.unique_seq_to_set();
    assert(a.to_set().subset_of(b.to_set())) by {
        assert forall|k: Seq<char>| a.to_set().contains(k) implies b.to_set().contains(k) by {
            let i = choose|i: int| 0 <= i < a.len() && a[i] == k;
            assert(has_key(entries, records[i].key));
            let j = choose|j: int| 0 <= j < entries.len() && (#[trigger] entries[j]).key == k;
            assert(b[j] == k);
        }
    }
    lemma_subset_equality(a.to_set(), b.to_set());
    assert forall|i: int| 0 <= i < entries.len() implies exists|j: int|
        0 <= j < records.len() && (#[trigger] records[j]).key == (#[trigger] entries[i]).key by {
        assert(b[i] == entries[i].key);
        assert(b.to_set().contains(b[i]));
        assert(a.to_set().contains(b[i]));
        let j = choose|j: int| 0 <= j < a.len() && a[j] == b[i];
        assert(records[j].key == entries[i].key);
    }
}

} // verus!
