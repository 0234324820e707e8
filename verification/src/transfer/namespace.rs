//! A namespace of a store: its specification, its keys, and what it lists.
use crate::listing::{directory_prefix, directory_text, text_of};
use crate::local_storage::{has_scheme, path_from_spec, plain_path, SpecError};
use crate::path::{canonical, parse_path, path_fault, without_leading_slash};
use crate::text::{
    before, before_is_irreflexive, before_is_total, before_is_transitive, same_text, slice_text,
    starts_with, text_before, text_starts_with, to_chars,
};
use crate::transfer::failure::TransferError;
use vstd::prelude::*;

verus! {

/// The kind of store that a specification names.
#[derive(Clone, Debug)]
pub enum StoreSpec {
    /// A local database.
    Local(String),
    /// A container of the cloud.
    Azure,
}

/// The kind of store that a specification names.
pub fn store_spec(spec: &str) -> (store: Result<StoreSpec, TransferError>)
    ensures
        match store {
            Ok(StoreSpec::Local(path)) => has_scheme(spec@, "sqlite://"@) && path@ == spec@.skip(9)
                && plain_path(path@),
            Ok(StoreSpec::Azure) => !has_scheme(spec@, "sqlite:"@) && starts_with(
                spec@,
                "az://"@,
            ),
            Err(TransferError::BadSpec { error: SpecError::NoAuthorityMarker }) => has_scheme(
                spec@,
                "sqlite:"@,
            ) && !has_scheme(spec@, "sqlite://"@),
            Err(TransferError::BadSpec { error: SpecError::NoPlainPath }) => has_scheme(
                spec@,
                "sqlite://"@,
            ) && !plain_path(spec@.skip(9)),
            Err(TransferError::UnsupportedStore) => !has_scheme(spec@, "sqlite:"@) && !starts_with(
                spec@,
                "az://"@,
            ),
            Err(_) => false,
        },
{
    match path_from_spec(spec) {
        Ok(Some(path)) => Ok(StoreSpec::Local(path)),
        Ok(None) => if text_starts_with(spec, "az://") {
            Ok(StoreSpec::Azure)
        } else {
            Err(TransferError::UnsupportedStore)
        },
        Err(error) => Err(TransferError::BadSpec { error }),
    }
}

/// Whether a store may be opened: one that is read from must be there already.
pub fn check_present(store: &StoreSpec, must_exist: bool, is_file: bool) -> (checked: Result<
    (),
    TransferError,
>)
    ensures
        checked is Err <==> must_exist && !is_file && store is Local,
        checked matches Err(error) ==> error matches TransferError::SourceMissing { path } && path
            == store->Local_0,
{
    match store {
        StoreSpec::Local(path) => if must_exist && !is_file {
            Err(TransferError::SourceMissing { path: path.clone() })
        } else {
            Ok(())
        },
        StoreSpec::Azure => Ok(()),
    }
}

/// Where a namespace lies.
#[derive(Clone, Debug)]
pub struct BucketFacts {
    pub backend: String,
    pub name: String,
    pub prefix: String,
}

/// One namespace lies in the other: they are in one bucket, and one prefix begins
/// with the other.
pub open spec fn overlap(a: BucketFacts, b: BucketFacts) -> bool {
    &&& a.backend@ == b.backend@
    &&& a.name@ == b.name@
    &&& starts_with(a.prefix@, b.prefix@) || starts_with(b.prefix@, a.prefix@)
}

/// Whether one namespace lies in the other.
pub fn overlaps(a: &BucketFacts, b: &BucketFacts) -> (yes: bool)
    ensures
        yes == overlap(*a, *b),
{
    same_text(a.backend.as_str(), b.backend.as_str()) && same_text(
        a.name.as_str(),
        b.name.as_str(),
    ) && (text_starts_with(a.prefix.as_str(), b.prefix.as_str()) || text_starts_with(
        b.prefix.as_str(),
        a.prefix.as_str(),
    ))
}

/// The store's own path of a logical key. A listed key is canonical already, and
/// is not escaped a second time.
pub fn key(prefix: &str, logical: &str) -> (path: Result<String, TransferError>)
    ensures
        path is Ok <==> canonical(prefix@ + logical@) is Some,
        path matches Ok(path) ==> canonical(prefix@ + logical@) == Some(path@),
        path matches Err(error) ==> error matches TransferError::InvalidPath { path, reason }
            && path@ == prefix@ + logical@ && reason@ == path_fault(path@),
{
    let mut whole = prefix.to_owned();
    whole.append(logical);
    match parse_path(whole.as_str()) {
        Ok(path) => Ok(path),
        Err(reason) => Err(TransferError::InvalidPath { path: whole, reason }),
    }
}

/// The text without the slashes at its end.
pub open spec fn without_slashes(text: Seq<char>) -> Seq<char>
    decreases text.len(),
{
    if text.len() > 0 && text.last() == '/' {
        without_slashes(text.drop_last())
    } else {
        text
    }
}

/// The text without the slashes at its end.
fn trim_slashes(text: &str) -> (trimmed: String)
    ensures
        trimmed@ == without_slashes(text@),
{
    let chars = to_chars(text);
    let mut end: usize = chars.len();
    assert(chars@.take(end as int) =~= chars@);
    while end > 0 && chars[end - 1] == '/'
        invariant
            end <= chars@.len(),
            without_slashes(text@) == without_slashes(chars@.take(end as int)),
        decreases end,
    {
        assert(chars@.take(end as int).drop_last() =~= chars@.take(end - 1));
        end = end - 1;
    }
    let trimmed = slice_text(&chars, 0, end);
    assert(trimmed@ =~= chars@.take(end as int));
    trimmed
}

/// The path under which a namespace is listed.
pub fn namespace_path(prefix: &str) -> (path: Result<String, TransferError>)
    ensures
        path is Ok <==> canonical(without_slashes(prefix@)) is Some,
        path matches Ok(path) ==> canonical(without_slashes(prefix@)) == Some(path@),
        path matches Err(error) ==> error matches TransferError::InvalidPath { path, reason }
            && path@ == without_slashes(prefix@) && reason@ == path_fault(path@),
{
    let text = trim_slashes(prefix);
    match parse_path(text.as_str()) {
        Ok(path) => Ok(path),
        Err(reason) => Err(TransferError::InvalidPath { path: text, reason }),
    }
}

/// A cloud specification names this container: everything behind the scheme up to
/// the next slash or the end.
pub open spec fn names_container(spec: Seq<char>, name: Seq<char>) -> bool {
    let rest = spec.skip(5 + name.len() as int);
    &&& spec.len() >= 5 + name.len()
    &&& spec.subrange(5, 5 + name.len() as int) == name
    &&& !name.contains('/')
    &&& rest.len() == 0 || rest[0] == '/'
}

/// The prefix of the namespace whose container has a name of `length` characters:
/// the directory that the specification names behind it.
pub open spec fn cloud_prefix(spec: Seq<char>, length: nat) -> Seq<char> {
    directory_text(Some(without_slashes(without_leading_slash(spec.skip((5 + length) as int)))))
}

/// Where the namespace of a specification lies: a local database holds one under
/// no prefix, a container may hold several.
pub fn bucket_facts(spec: &str) -> (facts: Result<BucketFacts, TransferError>)
    ensures
        match facts {
            Ok(facts) => {
                ||| {
                    &&& has_scheme(spec@, "sqlite://"@) && plain_path(spec@.skip(9))
                    &&& facts.backend@ == "sqlite"@
                    &&& facts.name@ == spec@.skip(9)
                    &&& facts.prefix@.len() == 0
                }
                ||| {
                    &&& !has_scheme(spec@, "sqlite:"@) && starts_with(spec@, "az://"@)
                    &&& facts.backend@ == "az"@
                    &&& names_container(spec@, facts.name@)
                    &&& facts.prefix@ == cloud_prefix(spec@, facts.name@.len())
                }
            },
            Err(TransferError::BadSpec { error: SpecError::NoAuthorityMarker }) => has_scheme(
                spec@,
                "sqlite:"@,
            ) && !has_scheme(spec@, "sqlite://"@),
            Err(TransferError::BadSpec { error: SpecError::NoPlainPath }) => has_scheme(
                spec@,
                "sqlite://"@,
            ) && !plain_path(spec@.skip(9)),
            Err(TransferError::UnsupportedStore) => !has_scheme(spec@, "sqlite:"@) && !starts_with(
                spec@,
                "az://"@,
            ),
            Err(_) => false,
        },
{
    match store_spec(spec) {
        Ok(StoreSpec::Local(path)) => Ok(
            BucketFacts { backend: "sqlite".to_owned(), name: path, prefix: String::new() },
        ),
        Ok(StoreSpec::Azure) => {
            proof {
                reveal_strlit("az://");
            }
            let chars = to_chars(spec);
            let mut end: usize = 5;
            while end < chars.len() && chars[end] != '/'
                invariant
                    5 <= end <= chars@.len(),
                    forall|i: int| 5 <= i < end ==> #[trigger] chars@[i] != '/',
                decreases chars@.len() - end,
            {
                end = end + 1;
            }
            let name = slice_text(&chars, 5, end);
            assert(name@ =~= spec@.subrange(5, end as int));
            assert(!name@.contains('/'));
            let from: usize = if end < chars.len() {
                end + 1
            } else {
                end
            };
            let rest = slice_text(&chars, from, chars.len());
            assert(rest@ =~= without_leading_slash(spec@.skip(end as int)));
            let inner = trim_slashes(rest.as_str());
            let prefix = directory_prefix(Some(inner.as_str()));
            Ok(BucketFacts { backend: "az".to_owned(), name, prefix })
        },
        Err(error) => Err(error),
    }
}

/// What a store lists of an object.
#[derive(Clone, Debug)]
pub struct Listed {
    pub key: String,
    pub size: u64,
    pub e_tag: Option<String>,
    pub version: Option<String>,
    /// The time of the last modification, in whole seconds and nanoseconds.
    pub modified_s: i64,
    pub modified_ns: u32,
}

/// What is listed, with the texts as characters.
#[verifier::ext_equal]
pub struct ListedView {
    pub key: Seq<char>,
    pub size: u64,
    pub e_tag: Option<Seq<char>>,
    pub version: Option<Seq<char>>,
    pub modified_s: i64,
    pub modified_ns: u32,
}

impl View for Listed {
    type V = ListedView;

    open spec fn view(&self) -> ListedView {
        ListedView {
            key: self.key@,
            size: self.size,
            e_tag: text_of(self.e_tag),
            version: text_of(self.version),
            modified_s: self.modified_s,
            modified_ns: self.modified_ns,
        }
    }
}

/// What a namespace lists, by logical key and in its order.
#[derive(Debug)]
pub struct Inventory {
    pub prefix: String,
    pub entries: Vec<Listed>,
}

impl View for Inventory {
    type V = Seq<ListedView>;

    open spec fn view(&self) -> Seq<ListedView> {
        self.entries@.map_values(|l: Listed| l@)
    }
}

/// The entries are in order of their keys, none twice.
pub open spec fn keys_ascend(entries: Seq<ListedView>) -> bool {
    forall|i: int, j: int|
        0 <= i < j < entries.len() ==> before(
            (#[trigger] entries[i]).key,
            (#[trigger] entries[j]).key,
        )
}

/// The key is among the entries.
pub open spec fn has_key(entries: Seq<ListedView>, key: Seq<char>) -> bool {
    exists|i: int| 0 <= i < entries.len() && (#[trigger] entries[i]).key == key
}

/// The entries with one more in some place.
pub open spec fn is_inserted(
    earlier: Seq<ListedView>,
    later: Seq<ListedView>,
    entry: ListedView,
) -> bool {
    exists|at: int| 0 <= at <= earlier.len() && later == #[trigger] earlier.insert(at, entry)
}

impl Inventory {
    /// The keys are in order, none twice.
    pub open spec fn wf(self) -> bool {
        keys_ascend(self@)
    }

    /// A namespace of which nothing has been listed.
    pub fn new(prefix: &str) -> (inventory: Inventory)
        ensures
            inventory.wf(),
            inventory.prefix@ == prefix@,
            inventory@ == Seq::<ListedView>::empty(),
    {
        let inventory = Inventory { prefix: prefix.to_owned(), entries: Vec::new() };
        assert(inventory@ =~= Seq::<ListedView>::empty());
        inventory
    }

    /// Where the first key that does not come before this one stands.
    fn position(&self, key: &str) -> (at: usize)
        requires
            self.wf(),
        ensures
            at <= self@.len(),
            forall|i: int| 0 <= i < at ==> before((#[trigger] self@[i]).key, key@),
            forall|i: int| at <= i < self@.len() ==> !before((#[trigger] self@[i]).key, key@),
    {
        let mut low: usize = 0;
        let mut high: usize = self.entries.len();
        while low < high
            invariant
                low <= high <= self@.len(),
                forall|i: int| 0 <= i < low ==> before((#[trigger] self@[i]).key, key@),
                forall|i: int|
                    high <= i < self@.len() ==> !before((#[trigger] self@[i]).key, key@),
            decreases high - low,
        {
            let middle: usize = low + (high - low) / 2;
            let ghost found = self@[middle as int].key;
            assert(found == self.entries@[middle as int].key@);
            if text_before(self.entries[middle].key.as_str(), key) {
                assert forall|i: int| 0 <= i < middle + 1 implies before(
                    (#[trigger] self@[i]).key,
                    key@,
                ) by {
                    if i < middle {
                        before_is_transitive(self@[i].key, found, key@);
                    }
                }
                low = middle + 1;
            } else {
                assert forall|i: int| middle <= i < self@.len() implies !before(
                    (#[trigger] self@[i]).key,
                    key@,
                ) by {
                    if i > middle && before(self@[i].key, key@) {
                        before_is_transitive(found, self@[i].key, key@);
                    }
                }
                high = middle;
            }
        }
        low
    }

    /// Whether a key is listed.
    pub fn contains(&self, key: &str) -> (yes: bool)
        requires
            self.wf(),
        ensures
            yes == has_key(self@, key@),
    {
        let at: usize = self.position(key);
        if at < self.entries.len() && same_text(self.entries[at].key.as_str(), key) {
            assert(self@[at as int].key == key@);
            return true;
        }
        proof {
            if has_key(self@, key@) {
                let i = choose|i: int| 0 <= i < self@.len() && (#[trigger] self@[i]).key == key@;
                before_is_irreflexive(key@);
                if i > at {
                    assert(before(self@[at as int].key, self@[i].key));
                }
                assert(i == at);
                assert(self@[i].key == self.entries@[i].key@);
            }
        }
        false
    }

    /// Takes one listed object under its logical key: the location behind the
    /// prefix of the namespace.
    pub fn accept(&mut self, location: &str, listed: Listed) -> (taken: Result<(), TransferError>)
        requires
            old(self).wf(),
        ensures
            final(self).wf(),
            final(self).prefix == old(self).prefix,
            ({
                let prefix = old(self).prefix@;
                let logical = location@.skip(prefix.len() as int);
                match taken {
                    Ok(()) => {
                        &&& starts_with(location@, prefix)
                        &&& logical.len() > 0
                        &&& !has_key(old(self)@, logical)
                        &&& is_inserted(
                            old(self)@,
                            final(self)@,
                            ListedView { key: logical, ..listed@ },
                        )
                    },
                    Err(TransferError::OutsideNamespace) => !starts_with(location@, prefix)
                        && final(self)@ == old(self)@,
                    Err(TransferError::EmptyKey) => starts_with(location@, prefix) && logical.len()
                        == 0 && final(self)@ == old(self)@,
                    Err(TransferError::DuplicateKey { key }) => starts_with(location@, prefix)
                        && logical.len() > 0 && has_key(old(self)@, logical) && key@ == logical
                        && final(self)@ == old(self)@,
                    Err(_) => false,
                }
            }),
    {
        if !text_starts_with(location, self.prefix.as_str()) {
            return Err(TransferError::OutsideNamespace);
        }
        let chars = to_chars(location);
        let skipped = to_chars(self.prefix.as_str());
        let logical = slice_text(&chars, skipped.len(), chars.len());
        assert(logical@ =~= location@.skip(self.prefix@.len() as int));
        if logical.as_str().is_empty() {
            return Err(TransferError::EmptyKey);
        }
        if self.contains(logical.as_str()) {
            return Err(TransferError::DuplicateKey { key: logical });
        }
        let at: usize = self.position(logical.as_str());
        let ghost entry = ListedView { key: logical@, ..listed@ };
        let ghost earlier = self@;
        let mut listed = listed;
        listed.key = logical;
        self.entries.insert(at, listed);
        proof {
            assert(self@ =~= earlier.insert(at as int, entry));
            assert forall|i: int, j: int| 0 <= i < j < self@.len() implies before(
                (#[trigger] self@[i]).key,
                (#[trigger] self@[j]).key,
            ) by {
                if i == at {
                    let next = earlier[j - 1];
                    assert(self@[j] == next);
                    before_is_total(entry.key, next.key);
                    if next.key == entry.key {
                        assert(has_key(earlier, entry.key));
                    }
                } else if j == at {
                    assert(self@[i] == earlier[i]);
                } else {
                    let x = if i < at {
                        i
                    } else {
                        i - 1
                    };
                    let y = if j < at {
                        j
                    } else {
                        j - 1
                    };
                    assert(self@[i] == earlier[x] && self@[j] == earlier[y]);
                }
            }
        }
        Ok(())
    }
}

} // verus!
