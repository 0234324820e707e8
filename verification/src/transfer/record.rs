//! What a transfer records of an object, and when two records are of one object.
use crate::attributes::{
    encode_pair, kind_of, name_of, AttributePair, AttributeView, StoredAttribute,
};
use crate::listing::text_of;
use crate::text::{
    before, before_is_asymmetric, before_is_irreflexive, before_is_total, before_is_transitive,
    same_text, text_before,
};
use crate::transfer::digest::{absorb, absorbed, hex_digest, new_hasher, sha256_hex, Hasher};
use crate::transfer::failure::TransferError;
use vstd::prelude::*;
use vstd::seq_lib::{to_multiset_contains, to_multiset_remove};

verus! {

/// A stored attribute with its texts as characters.
#[verifier::ext_equal]
pub struct AttributeForm {
    pub kind: Seq<char>,
    pub name: Option<Seq<char>>,
    pub value: Seq<char>,
}

/// The form of a stored attribute.
pub open spec fn form_of(stored: StoredAttribute) -> AttributeForm {
    AttributeForm { kind: stored.kind@, name: text_of(stored.name), value: stored.value@ }
}

/// The forms of stored attributes.
pub open spec fn forms_of(stored: Seq<StoredAttribute>) -> Seq<AttributeForm> {
    stored.map_values(|s: StoredAttribute| form_of(s))
}

/// The form in which a pair is recorded.
pub open spec fn pair_form(pair: AttributePair) -> AttributeForm {
    AttributeForm {
        kind: kind_of(pair.attribute@).unwrap(),
        name: name_of(pair.attribute@),
        value: pair.value@,
    }
}

/// The forms in which pairs are recorded.
pub open spec fn pair_forms(pairs: Seq<AttributePair>) -> Seq<AttributeForm> {
    pairs.map_values(|p: AttributePair| pair_form(p))
}

/// No name comes before every name.
pub open spec fn name_before(a: Option<Seq<char>>, b: Option<Seq<char>>) -> bool {
    match (a, b) {
        (None, Some(_)) => true,
        (Some(a), Some(b)) => before(a, b),
        _ => false,
    }
}

/// Forms are ordered by kind, then by name, then by value.
pub open spec fn form_before(a: AttributeForm, b: AttributeForm) -> bool {
    if a.kind != b.kind {
        before(a.kind, b.kind)
    } else if a.name != b.name {
        name_before(a.name, b.name)
    } else {
        before(a.value, b.value)
    }
}

/// The forms are in order.
pub open spec fn in_order(forms: Seq<AttributeForm>) -> bool {
    forall|i: int, j: int|
        0 <= i < j < forms.len() ==> !form_before(#[trigger] forms[j], #[trigger] forms[i])
}

proof fn name_order(a: Option<Seq<char>>, b: Option<Seq<char>>)
    ensures
        a == b || name_before(a, b) || name_before(b, a),
        name_before(a, b) ==> a != b && !name_before(b, a),
{
    match (a, b) {
        (Some(a), Some(b)) => {
            before_is_total(a, b);
            if before(a, b) {
                before_is_asymmetric(a, b);
            }
        },
        _ => {},
    }
}

/// Of two forms one comes first, or they are the same; never both.
proof fn form_order(a: AttributeForm, b: AttributeForm)
    ensures
        a == b || form_before(a, b) || form_before(b, a),
        form_before(a, b) ==> a != b && !form_before(b, a),
{
    before_is_total(a.kind, b.kind);
    if before(a.kind, b.kind) {
        before_is_asymmetric(a.kind, b.kind);
    }
    name_order(a.name, b.name);
    before_is_total(a.value, b.value);
    if before(a.value, b.value) {
        before_is_asymmetric(a.value, b.value);
    }
}

/// The order of forms is transitive.
proof fn form_chain(a: AttributeForm, b: AttributeForm, c: AttributeForm)
    requires
        form_before(a, b),
        form_before(b, c),
    ensures
        form_before(a, c),
{
    form_order(a, b);
    form_order(b, c);
    if a.kind != b.kind {
        if b.kind != c.kind {
            before_is_transitive(a.kind, b.kind, c.kind);
            before_is_irreflexive(a.kind);
        }
        if a.kind == c.kind {
            before_is_asymmetric(a.kind, b.kind);
        }
    } else if b.kind == c.kind {
        if a.name != b.name {
            if b.name != c.name {
                match (a.name, b.name, c.name) {
                    (Some(x), Some(y), Some(z)) => {
                        before_is_transitive(x, y, z);
                    },
                    _ => {},
                }
            }
            if a.name == c.name {
                name_order(a.name, b.name);
            }
        } else if b.name == c.name {
            before_is_transitive(a.value, b.value, c.value);
        }
    }
}

/// Whether one stored attribute comes before another.
fn stored_before(a: &StoredAttribute, b: &StoredAttribute) -> (yes: bool)
    ensures
        yes == form_before(form_of(*a), form_of(*b)),
{
    if !same_text(a.kind.as_str(), b.kind.as_str()) {
        return text_before(a.kind.as_str(), b.kind.as_str());
    }
    if !same_name(&a.name, &b.name) {
        return match (&a.name, &b.name) {
            (None, Some(_)) => true,
            (Some(x), Some(y)) => text_before(x.as_str(), y.as_str()),
            _ => false,
        };
    }
    text_before(a.value.as_str(), b.value.as_str())
}

/// Whether two optional texts are the same.
pub fn same_name(a: &Option<String>, b: &Option<String>) -> (same: bool)
    ensures
        same == (text_of(*a) == text_of(*b)),
{
    match (a, b) {
        (None, None) => true,
        (Some(x), Some(y)) => same_text(x.as_str(), y.as_str()),
        _ => false,
    }
}

/// Puts one stored attribute into its place among others in order.
fn insert_form(sorted: &mut Vec<StoredAttribute>, stored: StoredAttribute)
    requires
        in_order(forms_of(old(sorted)@)),
    ensures
        in_order(forms_of(final(sorted)@)),
        forms_of(final(sorted)@).to_multiset() == forms_of(old(sorted)@).to_multiset().insert(
            form_of(stored),
        ),
{
    let mut at: usize = sorted.len();
    let ghost forms = forms_of(sorted@);
    let ghost form = form_of(stored);
    while at > 0 && stored_before(&stored, &sorted[at - 1])
        invariant
            0 <= at <= sorted@.len(),
            sorted@ == old(sorted)@,
            forall|i: int| at <= i < forms.len() ==> form_before(form, #[trigger] forms[i]),
        decreases at,
    {
        assert(forms[at - 1] == form_of(sorted@[at - 1]));
        at = at - 1;
    }
    proof {
        if at > 0 {
            assert(forms[at - 1] == form_of(sorted@[at - 1]));
        }
    }
    sorted.insert(at, stored);
    proof {
        let done = forms_of(sorted@);
        assert(done =~= forms.insert(at as int, form));
        assert forall|i: int, j: int| 0 <= i < j < done.len() implies !form_before(
            #[trigger] done[j],
            #[trigger] done[i],
        ) by {
            if i == at {
                assert(done[j] == forms[j - 1]);
                form_order(form, forms[j - 1]);
            } else if j == at {
                assert(done[i] == forms[i]);
                let last = forms[at - 1];
                assert(!form_before(form, last));
                if form_before(form, forms[i]) {
                    if i < at - 1 {
                        assert(!form_before(last, forms[i]));
                        form_order(forms[i], last);
                        if forms[i] != last {
                            form_chain(form, forms[i], last);
                        }
                    }
                }
            } else {
                let x = if i < at {
                    i
                } else {
                    i - 1
                };
                let y = if j < at {
                    j
                } else {
                    j - 1
                };
                assert(done[i] == forms[x] && done[j] == forms[y]);
            }
        }
        assert(done.remove(at as int) =~= forms);
        to_multiset_remove(done, at as int);
        assert(done[at as int] == form);
        assert(done.contains(form));
        to_multiset_contains(done, form);
        assert(done.to_multiset() =~= forms.to_multiset().insert(form));
    }
}

/// The refusal names the first attribute that cannot be recorded.
pub open spec fn names_unsupported(error: TransferError, pairs: Seq<AttributePair>) -> bool {
    exists|i: int|
        {
            &&& 0 <= i < pairs.len()
            &&& forall|j: int| 0 <= j < i ==> !((#[trigger] pairs[j]).attribute@ is Unsupported)
            &&& (#[trigger] pairs[i]).attribute@ matches AttributeView::Unsupported(words)
            &&& error matches TransferError::UnsupportedAttribute { shown }
            &&& shown@ == words
        }
}

/// The attributes of an object as they are recorded: in order, none left out. One
/// that cannot be recorded is refused.
pub fn attributes(pairs: &Vec<AttributePair>) -> (recorded: Result<
    Vec<StoredAttribute>,
    TransferError,
>)
    ensures
        match recorded {
            Ok(stored) => {
                &&& forall|i: int|
                    0 <= i < pairs@.len() ==> !((#[trigger] pairs@[i]).attribute@ is Unsupported)
                &&& in_order(forms_of(stored@))
                &&& forms_of(stored@).to_multiset() == pair_forms(pairs@).to_multiset()
            },
            Err(error) => names_unsupported(error, pairs@),
        },
{
    let mut stored: Vec<StoredAttribute> = Vec::new();
    let mut i: usize = 0;
    assert(forms_of(stored@) =~= pair_forms(pairs@.take(0)));
    while i < pairs.len()
        invariant
            0 <= i <= pairs@.len(),
            in_order(forms_of(stored@)),
            forms_of(stored@).to_multiset() == pair_forms(pairs@.take(i as int)).to_multiset(),
            forall|j: int| 0 <= j < i ==> !((#[trigger] pairs@[j]).attribute@ is Unsupported),
        decreases pairs@.len() - i,
    {
        match encode_pair(&pairs[i]) {
            Some(form) => {
                insert_form(&mut stored, form);
                proof {
                    let seen = pair_forms(pairs@.take(i as int));
                    let next = pair_forms(pairs@.take(i + 1));
                    assert(form_of(form) == pair_form(pairs@[i as int]));
                    assert(next =~= seen.push(pair_form(pairs@[i as int])));
                    vstd::seq_lib::to_multiset_build(seen, pair_form(pairs@[i as int]));
                }
            },
            None => {
                let shown = match &pairs[i].attribute {
                    crate::attributes::Attribute::Unsupported(shown) => shown.clone(),
                    _ => String::new(),
                };
                assert(pairs@[i as int].attribute@ is Unsupported);
                return Err(TransferError::UnsupportedAttribute { shown });
            },
        }
        i = i + 1;
    }
    assert(pairs@.take(pairs@.len() as int) =~= pairs@);
    Ok(stored)
}

/// Some forms have one order: two lists in order with the same members are the
/// same list.
pub proof fn order_is_unique(a: Seq<AttributeForm>, b: Seq<AttributeForm>)
    requires
        in_order(a),
        in_order(b),
        a.to_multiset() == b.to_multiset(),
    ensures
        a == b,
    decreases a.len(),
{
    broadcast use vstd::seq_lib::group_to_multiset_ensures;

    a.to_multiset_ensures();
    b.to_multiset_ensures();
    if a.len() == 0 {
        assert(a =~= b);
    } else {
        let n = a.len() - 1;
        let x = a.last();
        let y = b.last();
        assert(b.to_multiset().count(x) > 0) by {
            assert(a.contains(x));
        }
        assert(a.to_multiset().count(y) > 0) by {
            assert(b.contains(y));
        }
        assert(b.contains(x));
        assert(a.contains(y));
        let i = choose|i: int| 0 <= i < b.len() && b[i] == x;
        let j = choose|j: int| 0 <= j < a.len() && a[j] == y;
        form_order(x, y);
        if x != y {
            assert(i < n && j < n);
            assert(!form_before(b[n], b[i]));
            assert(!form_before(a[n], a[j]));
        }
        assert(a.remove(n) =~= a.drop_last());
        assert(b.remove(n) =~= b.drop_last());
        assert(in_order(a.drop_last()));
        assert(in_order(b.drop_last()));
        order_is_unique(a.drop_last(), b.drop_last());
        assert(a =~= a.drop_last().push(x));
        assert(b =~= b.drop_last().push(y));
    }
}

/// What a transfer records of an object.
#[derive(Clone, Debug)]
pub struct ObjectRecord {
    pub key: String,
    pub size: u64,
    pub sha256: String,
    pub attributes: Vec<StoredAttribute>,
    pub source_etag: Option<String>,
    pub source_version: Option<String>,
    pub source_modified_ms: i64,
}

/// A record with its texts as characters.
#[verifier::ext_equal]
pub struct RecordView {
    pub key: Seq<char>,
    pub size: u64,
    pub sha256: Seq<char>,
    pub attributes: Seq<AttributeForm>,
    pub source_etag: Option<Seq<char>>,
    pub source_version: Option<Seq<char>>,
    pub source_modified_ms: i64,
}

impl View for ObjectRecord {
    type V = RecordView;

    open spec fn view(&self) -> RecordView {
        RecordView {
            key: self.key@,
            size: self.size,
            sha256: self.sha256@,
            attributes: forms_of(self.attributes@),
            source_etag: text_of(self.source_etag),
            source_version: text_of(self.source_version),
            source_modified_ms: self.source_modified_ms,
        }
    }
}

/// The same list of stored attributes once more.
fn copy_attributes(stored: &Vec<StoredAttribute>) -> (copy: Vec<StoredAttribute>)
    ensures
        forms_of(copy@) == forms_of(stored@),
{
    let mut copy: Vec<StoredAttribute> = Vec::new();
    let mut i: usize = 0;
    while i < stored.len()
        invariant
            0 <= i <= stored@.len(),
            forms_of(copy@) == forms_of(stored@).take(i as int),
        decreases stored@.len() - i,
    {
        let one = &stored[i];
        copy.push(
            StoredAttribute {
                kind: one.kind.clone(),
                name: copy_name(&one.name),
                value: one.value.clone(),
            },
        );
        i = i + 1;
        assert(forms_of(copy@) =~= forms_of(stored@).take(i as int));
    }
    assert(forms_of(stored@).take(stored@.len() as int) =~= forms_of(stored@));
    copy
}

/// The same optional text once more.
fn copy_name(name: &Option<String>) -> (copy: Option<String>)
    ensures
        text_of(copy) == text_of(*name),
{
    match name {
        Some(text) => Some(text.clone()),
        None => None,
    }
}

impl ObjectRecord {
    /// The same record once more.
    pub fn copy(&self) -> (copy: ObjectRecord)
        ensures
            copy@ == self@,
    {
        ObjectRecord {
            key: self.key.clone(),
            size: self.size,
            sha256: self.sha256.clone(),
            attributes: copy_attributes(&self.attributes),
            source_etag: copy_name(&self.source_etag),
            source_version: copy_name(&self.source_version),
            source_modified_ms: self.source_modified_ms,
        }
    }
}

/// Two records are of the same bytes under the same key.
pub open spec fn same_bytes(a: RecordView, b: RecordView) -> bool {
    a.key == b.key && a.size == b.size && a.sha256 == b.sha256
}

/// Whether two lists of stored attributes are the same.
pub fn same_attributes(a: &Vec<StoredAttribute>, b: &Vec<StoredAttribute>) -> (same: bool)
    ensures
        same == (forms_of(a@) == forms_of(b@)),
{
    if a.len() != b.len() {
        assert(forms_of(a@).len() != forms_of(b@).len());
        return false;
    }
    let mut i: usize = 0;
    while i < a.len()
        invariant
            0 <= i <= a@.len() == b@.len(),
            forall|j: int| 0 <= j < i ==> form_of(#[trigger] a@[j]) == form_of(b@[j]),
        decreases a@.len() - i,
    {
        let same = same_text(a[i].kind.as_str(), b[i].kind.as_str()) && same_name(
            &a[i].name,
            &b[i].name,
        ) && same_text(a[i].value.as_str(), b[i].value.as_str());
        if !same {
            assert(forms_of(a@)[i as int] != forms_of(b@)[i as int]);
            return false;
        }
        assert(form_of(a@[i as int]) =~= form_of(b@[i as int]));
        i = i + 1;
    }
    assert(forms_of(a@) =~= forms_of(b@));
    true
}

/// Whether an object has the bytes and the attributes that its record says.
pub fn same_content(expected: &ObjectRecord, actual: &ObjectRecord) -> (checked: Result<
    (),
    TransferError,
>)
    ensures
        match checked {
            Ok(()) => same_bytes(expected@, actual@) && expected@.attributes == actual@.attributes,
            Err(TransferError::ContentMismatch { key }) => !same_bytes(expected@, actual@) && key@
                == expected@.key,
            Err(TransferError::AttributeMismatch { key }) => same_bytes(expected@, actual@)
                && expected@.attributes != actual@.attributes && key@ == expected@.key,
            Err(_) => false,
        },
        checked is Ok <==> {
            &&& expected.key@ == actual.key@
            &&& expected.size == actual.size
            &&& expected.sha256@ == actual.sha256@
            &&& forms_of(expected.attributes@) == forms_of(actual.attributes@)
        },
{
    if !(same_text(expected.key.as_str(), actual.key.as_str()) && expected.size == actual.size
        && same_text(expected.sha256.as_str(), actual.sha256.as_str())) {
        return Err(TransferError::ContentMismatch { key: expected.key.clone() });
    }
    if !same_attributes(&expected.attributes, &actual.attributes) {
        return Err(TransferError::AttributeMismatch { key: expected.key.clone() });
    }
    Ok(())
}

/// Whether two records are the same, source generation and all.
pub fn same_record(a: &ObjectRecord, b: &ObjectRecord) -> (same: bool)
    ensures
        same == (a@ == b@),
{
    let same = same_text(a.key.as_str(), b.key.as_str()) && a.size == b.size && same_text(
        a.sha256.as_str(),
        b.sha256.as_str(),
    ) && same_attributes(&a.attributes, &b.attributes) && same_name(&a.source_etag, &b.source_etag)
        && same_name(&a.source_version, &b.source_version) && a.source_modified_ms
        == b.source_modified_ms;
    assert(same ==> a@ =~= b@);
    same
}

/// What a store tells of an object that is read.
#[derive(Clone, Debug)]
pub struct ReadMeta {
    pub size: u64,
    pub e_tag: Option<String>,
    pub version: Option<String>,
    pub modified_ms: i64,
}

/// The fingerprint of an object, as far as its bytes have come.
pub struct Fingerprint {
    pub record: ObjectRecord,
    pub hasher: Hasher,
    pub count: u64,
}

/// The record of an object whose bytes have all come: as many as its size says,
/// with this SHA-256.
pub fn finished(record: ObjectRecord, count: u64, sha256: String) -> (done: Result<
    ObjectRecord,
    TransferError,
>)
    ensures
        match done {
            Ok(done) => count == record.size && done@ == (RecordView {
                sha256: sha256@,
                ..record@
            }),
            Err(TransferError::SizeMismatch { key }) => count != record.size && key@
                == record@.key,
            Err(_) => false,
        },
{
    if count != record.size {
        return Err(TransferError::SizeMismatch { key: record.key });
    }
    let mut done = record;
    done.sha256 = sha256;
    Ok(done)
}

impl Fingerprint {
    /// As many bytes are counted as the computation has taken in.
    pub open spec fn wf(self) -> bool {
        self.count == absorbed(self.hasher).len()
    }

    /// The fingerprint of an object of which no byte has come.
    pub fn new(key: &str, meta: ReadMeta, pairs: &Vec<AttributePair>) -> (started: Result<
        Fingerprint,
        TransferError,
    >)
        ensures
            started is Err <==> exists|i: int|
                0 <= i < pairs@.len() && (#[trigger] pairs@[i]).attribute@ is Unsupported,
            started matches Err(error) ==> names_unsupported(error, pairs@),
            started matches Ok(started) ==> {
                &&& started.wf()
                &&& absorbed(started.hasher) == Seq::<u8>::empty()
                &&& started.record@.key == key@
                &&& started.record@.size == meta.size
                &&& started.record@.source_etag == text_of(meta.e_tag)
                &&& started.record@.source_version == text_of(meta.version)
                &&& started.record@.source_modified_ms == meta.modified_ms
                &&& in_order(started.record@.attributes)
                &&& started.record@.attributes.to_multiset() == pair_forms(pairs@).to_multiset()
            },
    {
        let recorded = match attributes(pairs) {
            Ok(recorded) => recorded,
            Err(error) => return Err(error),
        };
        let record = ObjectRecord {
            key: key.to_owned(),
            size: meta.size,
            sha256: String::new(),
            attributes: recorded,
            source_etag: meta.e_tag,
            source_version: meta.version,
            source_modified_ms: meta.modified_ms,
        };
        Ok(Fingerprint { record, hasher: new_hasher(), count: 0 })
    }

    /// Takes the next bytes of the object.
    pub fn accept(&mut self, bytes: &Vec<u8>)
        requires
            old(self).wf(),
            old(self).count + bytes@.len() <= u64::MAX,
        ensures
            final(self).wf(),
            final(self).record == old(self).record,
            absorbed(final(self).hasher) == absorbed(old(self).hasher) + bytes@,
            final(self).count == old(self).count + bytes@.len(),
    {
        self.count = self.count + bytes.len() as u64;
        absorb(&mut self.hasher, bytes);
    }

    /// The record of the object, once all its bytes have come: its SHA-256 is that
    /// of the bytes taken, and they are as many as its size says.
    pub fn finish(self) -> (done: Result<ObjectRecord, TransferError>)
        requires
            self.wf(),
        ensures
            match done {
                Ok(done) => absorbed(self.hasher).len() == self.record.size && done@ == (
                RecordView { sha256: sha256_hex(absorbed(self.hasher)), ..self.record@ }),
                Err(TransferError::SizeMismatch { key }) => absorbed(self.hasher).len()
                    != self.record.size && key@ == self.record@.key,
                Err(_) => false,
            },
    {
        let sha256 = hex_digest(self.hasher);
        finished(self.record, self.count, sha256)
    }
}

} // verus!
