//! What it means that a namespace is verified, field by field, and what a transfer
//! that is done has copied.
use crate::attributes::{kind_of, name_of, AttributePair, AttributeView};
use crate::text::{before, views};
use crate::transfer::copy::attributes_are;
use crate::transfer::failure::TransferError;
use crate::transfer::namespace::{has_key, keys_ascend, ListedView};
use crate::transfer::options::{Mode, Options};
use crate::transfer::record::{
    form_before, names_unsupported, order_is_unique, pair_form, pair_forms, same_bytes,
    AttributeForm, RecordView,
};
use crate::transfer::run::{
    copied_bytes, has_read_all, is_fresh, missing, missing_bytes, phase_from, TransferRun,
    MANIFEST_VERSION,
};
use crate::transfer::verify::{
    at_rest, distinct_keys, entry_keys, keys_come_once, keyset_matches, matching_keysets_are_equal,
    record_keys, record_matches, record_views, same_keys, tells_mismatch, tells_unrest, unchanged,
    Sighting, Verification,
};
use vstd::prelude::*;
use vstd::seq_lib::to_multiset_contains;

verus! {

/// Two records are of the same bytes exactly where their keys, their sizes and their
/// SHA-256 are equal, whatever the size.
pub proof fn same_bytes_have_one_digest(a: RecordView, b: RecordView)
    ensures
        same_bytes(a, b) <==> a.key == b.key && a.size == b.size && a.sha256 == b.sha256,
{
}

/// An object that is accepted for its record has the key, the size, the SHA-256 and
/// the attributes of the record and, in the source, its generation too; and such an
/// object is accepted.
pub proof fn accepted_objects_are_equal(record: RecordView, actual: RecordView, source: bool)
    ensures
        record_matches(record, actual, source) <==> {
            &&& record.key == actual.key
            &&& record.size == actual.size
            &&& record.sha256 == actual.sha256
            &&& record.attributes == actual.attributes
            &&& source ==> record.source_etag == actual.source_etag && record.source_version
                == actual.source_version && record.source_modified_ms == actual.source_modified_ms
        },
{
    if record.key == actual.key && record.size == actual.size && record.sha256 == actual.sha256
        && record.attributes == actual.attributes && record.source_etag == actual.source_etag
        && record.source_version == actual.source_version && record.source_modified_ms
        == actual.source_modified_ms {
        assert(record =~= actual);
    }
}

/// The refusal of an object tells what differs: its bytes before its attributes, and
/// those before its generation.
pub proof fn refusals_tell_what_differs(
    error: TransferError,
    record: RecordView,
    actual: RecordView,
    source: bool,
)
    requires
        tells_mismatch(error, record, actual, source),
    ensures
        ({
            let bytes = record.key == actual.key && record.size == actual.size && record.sha256
                == actual.sha256;
            let attributes = record.attributes == actual.attributes;
            &&& !bytes ==> (error matches TransferError::ContentMismatch { key } && key@
                == record.key)
            &&& bytes && !attributes ==> (error matches TransferError::AttributeMismatch { key }
                && key@ == record.key)
            &&& bytes && attributes ==> source && (
            error matches TransferError::GenerationChanged { key } && key@ == record.key)
        }),
{
}

/// A namespace was at rest between two listings exactly where the listings are the
/// same: no key came or went, and no ETag, version, size or time is another one.
pub proof fn rest_is_one_listing(earlier: Seq<ListedView>, now: Seq<ListedView>)
    ensures
        at_rest(earlier, now) <==> earlier == now,
        same_keys(earlier, now) <==> entry_keys(earlier) == entry_keys(now),
{
    if at_rest(earlier, now) {
        assert forall|i: int| 0 <= i < now.len() implies earlier[i] == now[i] by {
            assert(unchanged(earlier[i], now[i]));
            assert(earlier[i].key == now[i].key);
            assert(earlier[i] =~= now[i]);
        }
        assert(earlier =~= now);
    }
    if same_keys(earlier, now) {
        assert(entry_keys(earlier) =~= entry_keys(now));
    }
    if entry_keys(earlier) == entry_keys(now) {
        assert(entry_keys(earlier).len() == entry_keys(now).len());
        assert forall|i: int| 0 <= i < earlier.len() implies (#[trigger] earlier[i]).key
            == now[i].key by {
            assert(entry_keys(earlier)[i] == entry_keys(now)[i]);
        }
    }
}

/// A key is listed exactly where it is one of the keys of the listing.
pub proof fn listed_keys_are_there(entries: Seq<ListedView>, key: Seq<char>)
    ensures
        has_key(entries, key) <==> entry_keys(entries).contains(key),
{
    if has_key(entries, key) {
        let i = choose|i: int| 0 <= i < entries.len() && (#[trigger] entries[i]).key == key;
        assert(entry_keys(entries)[i] == key);
    }
    if entry_keys(entries).contains(key) {
        let i = choose|i: int| 0 <= i < entry_keys(entries).len() && entry_keys(entries)[i] == key;
        assert(entries[i].key == key);
    }
}

/// The keys of records are all different exactly where none comes twice.
pub proof fn distinct_keys_come_once(records: Seq<RecordView>)
    ensures
        distinct_keys(records) <==> record_keys(records).no_duplicates(),
{
    let keys = record_keys(records);
    if distinct_keys(records) {
        assert forall|i: int, j: int| 0 <= i < keys.len() && 0 <= j < keys.len() && i != j implies keys[i]
            != keys[j] by {
            if i < j {
                assert(records[i].key != records[j].key);
            } else {
                assert(records[j].key != records[i].key);
            }
        }
    }
    if keys.no_duplicates() {
        assert forall|i: int, j: int| 0 <= i < j < records.len() implies (
        #[trigger] records[i]).key != (#[trigger] records[j]).key by {
            assert(keys[i] != keys[j]);
        }
    }
}

/// A listing passes for the keys of a manifest exactly where it has those keys and no
/// others.
pub proof fn keysets_match_where_they_are_equal(
    entries: Seq<ListedView>,
    records: Seq<RecordView>,
)
    requires
        keys_ascend(entries),
        distinct_keys(records),
    ensures
        keyset_matches(entries, records) <==> entry_keys(entries).to_set() == record_keys(
            records,
        ).to_set(),
{
    let a = record_keys(records);
    let b = entry_keys(entries);
    keys_come_once(records, entries);
    a.unique_seq_to_set();
    b.unique_seq_to_set();
    if keyset_matches(entries, records) {
        matching_keysets_are_equal(entries, records);
        assert forall|k: Seq<char>| a.to_set().contains(k) <==> b.to_set().contains(k) by {
            if a.to_set().contains(k) {
                let i = choose|i: int| 0 <= i < a.len() && a[i] == k;
                assert(has_key(entries, records[i].key));
                listed_keys_are_there(entries, k);
            }
            if b.to_set().contains(k) {
                let i = choose|i: int| 0 <= i < b.len() && b[i] == k;
                assert(entries[i].key == k);
                let j = choose|j: int|
                    0 <= j < records.len() && (#[trigger] records[j]).key == entries[i].key;
                assert(a[j] == k);
            }
        }
        assert(a.to_set() =~= b.to_set());
    }
    if b.to_set() == a.to_set() {
        assert forall|i: int| 0 <= i < records.len() implies has_key(
            entries,
            (#[trigger] records[i]).key,
        ) by {
            assert(a[i] == records[i].key);
            assert(a.to_set().contains(a[i]));
            assert(b.contains(a[i]));
            listed_keys_are_there(entries, records[i].key);
        }
    }
}

/// What a sighting shows, field by field: the listing has the keys of the records and
/// was the same before and behind, and every object has the key, the size, the SHA-256
/// and the attributes of its record and, in the source, its generation.
pub proof fn sighting_shows_every_field(
    seen: Sighting,
    records: Seq<RecordView>,
    source: bool,
    i: int,
)
    requires
        seen.shows(records, source),
        0 <= i < records.len(),
    ensures
        seen.actual.len() == records.len(),
        seen.listed.len() == records.len(),
        seen.listed == seen.after,
        entry_keys(seen.listed).contains(records[i].key),
        seen.actual[i].key == records[i].key,
        seen.actual[i].size == records[i].size,
        seen.actual[i].sha256 == records[i].sha256,
        seen.actual[i].attributes == records[i].attributes,
        source ==> seen.actual[i].source_etag == records[i].source_etag,
        source ==> seen.actual[i].source_version == records[i].source_version,
        source ==> seen.actual[i].source_modified_ms == records[i].source_modified_ms,
{
    rest_is_one_listing(seen.listed, seen.after);
    listed_keys_are_there(seen.listed, records[i].key);
    assert(record_matches(records[i], seen.actual[i], source));
    accepted_objects_are_equal(records[i], seen.actual[i], source);
}

/// A transfer that is done has seen every object of the manifest at both ends since
/// the last copy: at the destination with the same size, SHA-256 and attributes, and
/// at the source in the same generation too; both namespaces hold the keys of the
/// manifest and no others, and the manifest is on disk.
pub proof fn done_is_verified(run: TransferRun, i: int)
    requires
        run.wf(),
        run.phase is Done,
        0 <= i < run.records@.len(),
    ensures
        run.secured@,
        run.source_seen@ is Some,
        run.destination_seen@ is Some,
        ({
            let record = run.records@[i]@;
            let destination = run.destination_seen@.unwrap();
            let source = run.source_seen@.unwrap();
            let keys = record_keys(record_views(run.records@)).to_set();
            &&& destination.actual[i].key == record.key
            &&& destination.actual[i].size == record.size
            &&& destination.actual[i].sha256 == record.sha256
            &&& destination.actual[i].attributes == record.attributes
            &&& source.actual[i].key == record.key
            &&& source.actual[i].size == record.size
            &&& source.actual[i].sha256 == record.sha256
            &&& source.actual[i].attributes == record.attributes
            &&& source.actual[i].source_etag == record.source_etag
            &&& source.actual[i].source_version == record.source_version
            &&& source.actual[i].source_modified_ms == record.source_modified_ms
            &&& entry_keys(destination.listed).to_set() == keys
            &&& entry_keys(source.listed).to_set() == keys
            &&& destination.listed == destination.after
            &&& source.listed == source.after
        }),
{
    let records = run.recorded();
    let source = run.source_seen@.unwrap();
    let destination = run.destination_seen@.unwrap();
    assert(records[i] == run.records@[i]@);
    sighting_shows_every_field(source, records, true, i);
    sighting_shows_every_field(destination, records, false, i);
    keysets_match_where_they_are_equal(source.listed, records);
    keysets_match_where_they_are_equal(destination.listed, records);
}

/// The destination is looked at, written and verified only once the manifest is on
/// disk, and its keys come once; before that nothing is copied. Only a copy copies.
pub proof fn manifest_comes_first(run: TransferRun)
    requires
        run.wf(),
    ensures
        run.phase is CheckExisting || run.phase is Copy || run.phase is VerifySource
            || run.phase is VerifyDestination || run.phase is Done ==> run.secured@ && record_keys(
            record_views(run.records@),
        ).no_duplicates(),
        !(run.phase is CheckExisting || run.phase is Copy || run.phase is VerifySource
            || run.phase is VerifyDestination || run.phase is Done) ==> run.copied == 0,
        run.phase is Copy ==> run.options.mode is Copy,
        run.options.mode is Verify ==> run.copied == 0,
{
    distinct_keys_come_once(run.recorded());
}

/// A fresh copy that is done has one record for each key of the source, in their
/// order, and no other.
pub proof fn fresh_copy_records_the_source(run: TransferRun)
    requires
        run.wf(),
        run.options.mode is Copy,
        !run.options.resume,
        run.phase is Done,
    ensures
        record_keys(record_views(run.records@)) == views(run.source_keys@),
{
    let keys = views(run.source_keys@);
    assert(keys.take(keys.len() as int) =~= keys);
}

/// A copy is fresh unless it is resumed; a verification never is.
pub proof fn fresh_copies_are_not_resumed(options: Options)
    ensures
        is_fresh(options) <==> options.mode == Mode::Copy && !options.resume,
{
}

/// Behind the manifest comes the check of what is there, where anything is; then the
/// copy, or for a verification the source.
pub proof fn existing_objects_are_checked_first(mode: Mode, existing: nat)
    ensures
        phase_from(mode, existing) is CheckExisting <==> existing > 0,
        phase_from(mode, existing) is Copy <==> existing == 0 && mode is Copy,
        phase_from(mode, existing) is VerifySource <==> existing == 0 && mode is Verify,
{
}

/// The records of which the listing has no key.
pub open spec fn lacking(records: Seq<RecordView>, entries: Seq<ListedView>) -> Seq<RecordView> {
    records.filter(|r: RecordView| !entry_keys(entries).contains(r.key))
}

/// The sizes of some records together.
pub open spec fn total_size(records: Seq<RecordView>) -> int
    decreases records.len(),
{
    if records.len() == 0 {
        0
    } else {
        total_size(records.drop_last()) + records.last().size
    }
}

proof fn missing_is_what_lacks(records: Seq<RecordView>, entries: Seq<ListedView>, n: nat)
    requires
        n <= records.len(),
    ensures
        missing(records, entries, n) == lacking(records.take(n as int), entries).len(),
        missing_bytes(records, entries, n) == total_size(
            lacking(records.take(n as int), entries),
        ),
    decreases n,
{
    reveal(Seq::filter);
    if n > 0 {
        let all = records.take(n as int);
        missing_is_what_lacks(records, entries, (n - 1) as nat);
        assert(all.drop_last() =~= records.take(n - 1));
        listed_keys_are_there(entries, records[n - 1].key);
        let earlier = lacking(records.take(n - 1), entries);
        if !has_key(entries, records[n - 1].key) {
            assert(lacking(all, entries) =~= earlier.push(records[n - 1]));
            assert(earlier.push(records[n - 1]).drop_last() =~= earlier);
        }
    }
}

/// A copy that is done has copied the objects that the destination lacked, and as
/// many bytes as those have together; a verification none.
pub proof fn copied_is_what_was_lacking(run: TransferRun)
    requires
        run.wf(),
        run.phase is Done,
    ensures
        run.options.mode is Copy ==> {
            &&& run.copied == lacking(record_views(run.records@), run.existing@).len()
            &&& copied_bytes(run.options.mode, record_views(run.records@), run.existing@)
                == total_size(lacking(record_views(run.records@), run.existing@))
        },
        run.options.mode is Verify ==> run.copied == 0 && copied_bytes(
            run.options.mode,
            record_views(run.records@),
            run.existing@,
        ) == 0,
{
    let records = run.recorded();
    missing_is_what_lacks(records, run.existing@, records.len());
    assert(records.take(records.len() as int) =~= records);
}

/// Every object that was at the destination before is one of the manifest.
pub proof fn existing_objects_are_expected(run: TransferRun, i: int)
    requires
        run.wf(),
        run.phase is Copy || run.phase is VerifySource || run.phase is VerifyDestination
            || run.phase is Done,
        0 <= i < run.existing@.len(),
    ensures
        record_keys(record_views(run.records@)).contains(run.existing@[i].key),
{
    let records = run.recorded();
    let j = choose|j: int|
        0 <= j < records.len() && (#[trigger] records[j]).key == run.existing@[i].key;
    assert(record_keys(records)[j] == run.existing@[i].key);
}

/// A verification that has read all is of these records, and each object that it read
/// is the one of its record.
pub proof fn read_objects_are_of_the_records(
    verification: Verification,
    records: Seq<RecordView>,
    source: bool,
    i: int,
)
    requires
        has_read_all(verification, records, source),
        0 <= i < records.len(),
    ensures
        verification.actual@.len() == records.len(),
        verification.actual@[i].key == records[i].key,
        verification.actual@[i].size == records[i].size,
        verification.actual@[i].sha256 == records[i].sha256,
        verification.actual@[i].attributes == records[i].attributes,
{
    assert(record_matches(records[i], verification.actual@[i], source));
    accepted_objects_are_equal(records[i], verification.actual@[i], source);
}

/// Attributes are recorded by their kind, then by their name, one without a name
/// first, then by their value.
pub proof fn attributes_are_ordered(a: AttributeForm, b: AttributeForm)
    ensures
        form_before(a, b) <==> {
            ||| a.kind != b.kind && before(a.kind, b.kind)
            ||| a.kind == b.kind && a.name is None && b.name is Some
            ||| a.kind == b.kind && a.name is Some && b.name is Some && a.name != b.name && before(
                a.name.unwrap(),
                b.name.unwrap(),
            )
            ||| a.kind == b.kind && a.name == b.name && before(a.value, b.value)
        },
{
}

/// An attribute is recorded by its word, its name and its value.
pub proof fn attributes_are_recorded_whole(pair: AttributePair)
    requires
        !(pair.attribute@ is Unsupported),
    ensures
        kind_of(pair.attribute@) == Some(pair_form(pair).kind),
        pair_form(pair).name == name_of(pair.attribute@),
        pair_form(pair).value == pair.value@,
{
}

/// The format of a manifest.
pub proof fn manifests_have_a_format()
    ensures
        MANIFEST_VERSION == 1,
{
}

/// The refusal of a namespace that was not at rest tells that keys came or went, or
/// names the first object of which something is another: its ETag, its version, its
/// size or its time.
pub proof fn unrest_is_told(error: TransferError, earlier: Seq<ListedView>, now: Seq<ListedView>)
    requires
        tells_unrest(error, earlier, now),
    ensures
        earlier != now,
        error is KeysetChanged || error is ObjectChanged,
        error is KeysetChanged <==> entry_keys(earlier) != entry_keys(now),
        error matches TransferError::ObjectChanged { key } ==> exists|i: int|
            {
                &&& 0 <= i < now.len()
                &&& (#[trigger] now[i]).key == key@
                &&& earlier[i] != now[i]
                &&& earlier.take(i) == now.take(i)
            },
{
    rest_is_one_listing(earlier, now);
    match error {
        TransferError::ObjectChanged { key } => {
            let i = choose|i: int|
                {
                    &&& 0 <= i < now.len()
                    &&& !unchanged(earlier[i], #[trigger] now[i])
                    &&& key@ == now[i].key
                    &&& forall|j: int| 0 <= j < i ==> unchanged(earlier[j], #[trigger] now[j])
                };
            assert forall|j: int| 0 <= j < i implies earlier[j] == now[j] by {
                assert(unchanged(earlier[j], now[j]));
                assert(earlier[j].key == now[j].key);
                assert(earlier[j] =~= now[j]);
            }
            assert(earlier.take(i) =~= now.take(i));
            assert(earlier[i] != now[i]);
        },
        _ => {},
    }
}

/// The attributes of a record are those that are told exactly where they are the same
/// ones, each as often, in the one order: two records of the same attributes have
/// equal lists.
pub proof fn told_attributes_are_recorded(
    a: Seq<AttributeForm>,
    b: Seq<AttributeForm>,
    pairs: Seq<AttributePair>,
    form: AttributeForm,
)
    requires
        attributes_are(a, pairs),
    ensures
        a.len() == pairs.len(),
        a.contains(form) <==> exists|i: int|
            0 <= i < pairs.len() && pair_form(#[trigger] pairs[i]) == form,
        attributes_are(b, pairs) ==> a == b,
        forall|i: int, j: int|
            0 <= i < j < a.len() ==> !form_before(#[trigger] a[j], #[trigger] a[i]),
{
    let forms = pair_forms(pairs);
    a.to_multiset_ensures();
    forms.to_multiset_ensures();
    assert(a.to_multiset().len() == a.len());
    assert(forms.to_multiset().len() == forms.len());
    to_multiset_contains(a, form);
    to_multiset_contains(forms, form);
    if forms.contains(form) {
        let i = choose|i: int| 0 <= i < forms.len() && forms[i] == form;
        assert(pair_form(pairs[i]) == form);
    }
    if exists|i: int| 0 <= i < pairs.len() && pair_form(#[trigger] pairs[i]) == form {
        let i = choose|i: int| 0 <= i < pairs.len() && pair_form(#[trigger] pairs[i]) == form;
        assert(forms[i] == form);
    }
    if attributes_are(b, pairs) {
        order_is_unique(a, b);
    }
}

/// The refusal of attributes names the first one that cannot be recorded.
pub proof fn first_unsupported_is_named(error: TransferError, pairs: Seq<AttributePair>)
    requires
        names_unsupported(error, pairs),
    ensures
        error is UnsupportedAttribute,
        exists|i: int|
            {
                &&& 0 <= i < pairs.len()
                &&& (#[trigger] pairs[i]).attribute@ == AttributeView::Unsupported(
                    error->shown@,
                )
                &&& forall|j: int| 0 <= j < i ==> !((#[trigger] pairs[j]).attribute@ is Unsupported)
            },
{
    let i = choose|i: int|
        {
            &&& 0 <= i < pairs.len()
            &&& forall|j: int| 0 <= j < i ==> !((#[trigger] pairs[j]).attribute@ is Unsupported)
            &&& (#[trigger] pairs[i]).attribute@ matches AttributeView::Unsupported(words)
            &&& error matches TransferError::UnsupportedAttribute { shown }
            &&& shown@ == words
        };
    assert(pairs[i].attribute@ == AttributeView::Unsupported(error->shown@));
}

/// What a verification has seen is its listing, what it read, and the listing behind.
pub proof fn sightings_are_of_the_verification(
    verification: Verification,
    after: Seq<ListedView>,
)
    ensures
        verification.sighting(after).listed == verification.listed@,
        verification.sighting(after).actual == verification.actual@,
        verification.sighting(after).after == after,
{
}

} // verus!
