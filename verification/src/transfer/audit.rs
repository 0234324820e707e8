//! The state of the folded roots in the node records of a namespace.
use crate::text::{ends_with, same_text, starts_with, text_ends_with, text_starts_with, views};
use crate::transfer::failure::TransferError;
use crate::transfer::namespace::{Inventory, ListedView};
use crate::transfer::verify::entry_keys;
use vstd::prelude::*;

verus! {

/// The most bytes that a node record may have.
pub const MAX_NODE_RECORD: u64 = 1_048_576;

/// What stands at a place in a JSON text.
#[derive(Clone, Debug)]
pub enum JsonAt {
    /// The bytes are no JSON text.
    NotJson,
    /// There is no such place.
    Missing,
    Null,
    Text(String),
    /// A whole number that is not negative and fits.
    Unsigned(u64),
    /// A list, as JSON.
    Array(String),
    /// A value of another kind, as JSON.
    Other(String),
}

/// What stands at a place in a JSON text, with a text as characters.
pub enum JsonView {
    NotJson,
    Missing,
    Null,
    Text(Seq<char>),
    Unsigned(u64),
    Array(Seq<char>),
    Other(Seq<char>),
}

impl View for JsonAt {
    type V = JsonView;

    open spec fn view(&self) -> JsonView {
        match self {
            JsonAt::NotJson => JsonView::NotJson,
            JsonAt::Missing => JsonView::Missing,
            JsonAt::Null => JsonView::Null,
            JsonAt::Text(text) => JsonView::Text(text@),
            JsonAt::Unsigned(number) => JsonView::Unsigned(*number),
            JsonAt::Array(json) => JsonView::Array(json@),
            JsonAt::Other(json) => JsonView::Other(json@),
        }
    }
}

/// What stands in a JSON text where a JSON pointer leads.
pub uninterp spec fn json_value(bytes: Seq<u8>, pointer: Seq<char>) -> JsonView;

/// `serde_json::from_slice`, and `Value::pointer` on what it gives: the value at the
/// place, told apart by its kind and by `Value::as_u64`, and a list or a value of
/// another kind in the words of `Value::to_string`. What the text means is left to
/// the name of the result.
#[verifier::external_body]
fn json_at(bytes: &Vec<u8>, pointer: &str) -> (found: JsonAt)
    ensures
        found@ == json_value(bytes@, pointer@),
{
    match serde_json::from_slice::<serde_json::Value>(bytes) {
        Err(_) => JsonAt::NotJson,
        Ok(value) => match value.pointer(pointer) {
            None => JsonAt::Missing,
            Some(serde_json::Value::Null) => JsonAt::Null,
            Some(serde_json::Value::String(text)) => JsonAt::Text(text.clone()),
            Some(list @ serde_json::Value::Array(_)) => JsonAt::Array(list.to_string()),
            Some(other) => other.as_u64().map_or(JsonAt::Other(other.to_string()), JsonAt::Unsigned),
        },
    }
}

/// What an audit reads of a node record.
#[derive(Clone, Debug)]
pub struct RootFacts {
    pub node: JsonAt,
    pub expires_ms: JsonAt,
    pub log: JsonAt,
    pub epoch: JsonAt,
    pub tiered: JsonAt,
    pub ensemble: JsonAt,
    pub state: JsonAt,
}

/// What an audit reads of a node record, with texts as characters.
pub struct RootFactsView {
    pub node: JsonView,
    pub expires_ms: JsonView,
    pub log: JsonView,
    pub epoch: JsonView,
    pub tiered: JsonView,
    pub ensemble: JsonView,
    pub state: JsonView,
}

impl View for RootFacts {
    type V = RootFactsView;

    open spec fn view(&self) -> RootFactsView {
        RootFactsView {
            node: self.node@,
            expires_ms: self.expires_ms@,
            log: self.log@,
            epoch: self.epoch@,
            tiered: self.tiered@,
            ensemble: self.ensemble@,
            state: self.state@,
        }
    }
}

/// What an audit tells of a folded root. A record that cannot be read tells nothing
/// but its state, and one without a log neither an epoch nor what is tiered.
#[derive(Clone, Debug)]
pub struct RootRead {
    pub state: String,
    pub node: Option<JsonAt>,
    pub expires_ms: Option<JsonAt>,
    pub epoch: Option<JsonAt>,
    pub tiered: Option<JsonAt>,
}

/// What an audit tells of a folded root, with texts as characters.
#[verifier::ext_equal]
pub struct RootView {
    pub state: Seq<char>,
    pub node: Option<JsonView>,
    pub expires_ms: Option<JsonView>,
    pub epoch: Option<JsonView>,
    pub tiered: Option<JsonView>,
}

/// The view of a value that may be left out.
pub open spec fn told(value: Option<JsonAt>) -> Option<JsonView> {
    match value {
        Some(value) => Some(value@),
        None => None,
    }
}

impl View for RootRead {
    type V = RootView;

    open spec fn view(&self) -> RootView {
        RootView {
            state: self.state@,
            node: told(self.node),
            expires_ms: told(self.expires_ms),
            epoch: told(self.epoch),
            tiered: told(self.tiered),
        }
    }
}

/// The record is one of a node: it has a name and a lease.
pub open spec fn is_node_record(facts: RootFactsView) -> bool {
    facts.node is Text && facts.expires_ms is Unsigned
}

/// The record has a log.
pub open spec fn has_log(facts: RootFactsView) -> bool {
    !(facts.log is Missing || facts.log is Null)
}

/// The state of the folded root that a node record tells.
pub open spec fn state_of(facts: RootFactsView) -> Seq<char> {
    if !is_node_record(facts) {
        "malformed"@
    } else if !has_log(facts) {
        "absent"@
    } else if facts.epoch is Unsigned && facts.tiered is Unsigned && facts.ensemble is Array {
        match facts.state {
            JsonView::Text(text) => text,
            _ => "malformed"@,
        }
    } else {
        "malformed"@
    }
}

/// What an audit tells of a record.
pub open spec fn root_of(facts: RootFactsView) -> RootView {
    RootView {
        state: state_of(facts),
        node: if is_node_record(facts) {
            Some(facts.node)
        } else {
            None
        },
        expires_ms: if is_node_record(facts) {
            Some(facts.expires_ms)
        } else {
            None
        },
        epoch: if is_node_record(facts) && has_log(facts) {
            Some(facts.epoch)
        } else {
            None
        },
        tiered: if is_node_record(facts) && has_log(facts) {
            Some(facts.tiered)
        } else {
            None
        },
    }
}

/// What an audit reads of the bytes of a record.
pub open spec fn facts_of(bytes: Seq<u8>) -> RootFactsView {
    RootFactsView {
        node: json_value(bytes, "/node"@),
        expires_ms: json_value(bytes, "/expires_ms"@),
        log: json_value(bytes, "/log"@),
        epoch: json_value(bytes, "/log/epoch"@),
        tiered: json_value(bytes, "/log/tiered"@),
        ensemble: json_value(bytes, "/log/ensemble"@),
        state: json_value(bytes, "/log/state"@),
    }
}

/// What an audit tells of a folded root, from what was read of its record.
pub fn root_state(facts: RootFacts) -> (root: RootRead)
    ensures
        root@ == root_of(facts@),
{
    let readable = match (&facts.node, &facts.expires_ms) {
        (JsonAt::Text(_), JsonAt::Unsigned(_)) => true,
        _ => false,
    };
    if !readable {
        return RootRead {
            state: "malformed".to_owned(),
            node: None,
            expires_ms: None,
            epoch: None,
            tiered: None,
        };
    }
    let (node, expires_ms) = (Some(facts.node), Some(facts.expires_ms));
    let logged = match &facts.log {
        JsonAt::Missing => false,
        JsonAt::Null => false,
        _ => true,
    };
    if !logged {
        return RootRead {
            state: "absent".to_owned(),
            node,
            expires_ms,
            epoch: None,
            tiered: None,
        };
    }
    let state = match (&facts.epoch, &facts.tiered, &facts.ensemble, &facts.state) {
        (
            JsonAt::Unsigned(_),
            JsonAt::Unsigned(_),
            JsonAt::Array(_),
            JsonAt::Text(state),
        ) => state.clone(),
        _ => "malformed".to_owned(),
    };
    RootRead { state, node, expires_ms, epoch: Some(facts.epoch), tiered: Some(facts.tiered) }
}

/// What an audit tells of a folded root, from the bytes of its record.
pub fn audit_root(bytes: &Vec<u8>) -> (root: RootRead)
    ensures
        root@ == root_of(facts_of(bytes@)),
{
    root_state(
        RootFacts {
            node: json_at(bytes, "/node"),
            expires_ms: json_at(bytes, "/expires_ms"),
            log: json_at(bytes, "/log"),
            epoch: json_at(bytes, "/log/epoch"),
            tiered: json_at(bytes, "/log/tiered"),
            ensemble: json_at(bytes, "/log/ensemble"),
            state: json_at(bytes, "/log/state"),
        },
    )
}

/// The key is that of a node record.
pub open spec fn names_node(key: Seq<char>) -> bool {
    starts_with(key, "nodes/"@) && ends_with(key, ".json"@)
}

/// Whether a key is that of a node record.
pub fn is_node_key(key: &str) -> (yes: bool)
    ensures
        yes == names_node(key@),
{
    text_starts_with(key, "nodes/") && text_ends_with(key, ".json")
}

/// Whether a node record is small enough to be one.
pub fn check_node_size(key: &str, size: u64) -> (checked: Result<(), TransferError>)
    ensures
        checked is Err <==> size > MAX_NODE_RECORD,
        checked matches Err(error) ==> error matches TransferError::LargeNodeRecord { key: shown }
            && shown@ == key@,
{
    if size > MAX_NODE_RECORD {
        Err(TransferError::LargeNodeRecord { key: key.to_owned() })
    } else {
        Ok(())
    }
}

/// One folded root of a namespace.
#[derive(Clone, Debug)]
pub struct NodeRoot {
    pub key: String,
    pub root: RootRead,
}

/// The folded roots of a namespace as far as they have been read, and the keys of
/// those that are neither sealed nor absent.
pub struct RootAudit {
    pub listed: Inventory,
    /// How many of the listed objects have been passed.
    pub index: usize,
    pub node_roots: Vec<NodeRoot>,
    pub unsealed: Vec<String>,
    /// The bytes of the records that have been read.
    pub bodies: Ghost<Seq<Seq<u8>>>,
}

/// The state needs no investigation.
pub open spec fn is_settled(state: Seq<char>) -> bool {
    state == "sealed"@ || state == "absent"@
}

/// The keys of some roots.
pub open spec fn root_keys(roots: Seq<NodeRoot>) -> Seq<Seq<char>> {
    roots.map_values(|r: NodeRoot| r.key@)
}

/// Those of some keys that are of node records, in their order.
pub open spec fn node_keys(keys: Seq<Seq<char>>) -> Seq<Seq<char>> {
    keys.filter(|key: Seq<char>| names_node(key))
}

/// The keys of the roots that are neither sealed nor absent, in order.
pub open spec fn unsettled(roots: Seq<NodeRoot>) -> Seq<Seq<char>>
    decreases roots.len(),
{
    if roots.len() == 0 {
        Seq::empty()
    } else if is_settled(roots.last().root.state@) {
        unsettled(roots.drop_last())
    } else {
        unsettled(roots.drop_last()).push(roots.last().key@)
    }
}

/// The place of the first node record at `from` or later, or the end.
pub open spec fn next_node(entries: Seq<ListedView>, from: int) -> int
    decreases entries.len() - from,
{
    if from >= entries.len() || names_node(entries[from].key) {
        from
    } else {
        next_node(entries, from + 1)
    }
}

/// One more key: it is kept where it is of a node record.
proof fn node_keys_push(keys: Seq<Seq<char>>, key: Seq<char>)
    ensures
        node_keys(keys.push(key)) == if names_node(key) {
            node_keys(keys).push(key)
        } else {
            node_keys(keys)
        },
{
    reveal(Seq::filter);
    assert(keys.push(key).drop_last() =~= keys);
}

/// Nothing between a place and the next node record is one.
proof fn next_node_skips(entries: Seq<ListedView>, from: int)
    requires
        0 <= from <= entries.len(),
    ensures
        from <= next_node(entries, from) <= entries.len(),
        next_node(entries, from) < entries.len() ==> names_node(
            entries[next_node(entries, from)].key,
        ),
        node_keys(entry_keys(entries).take(next_node(entries, from))) == node_keys(
            entry_keys(entries).take(from),
        ),
        forall|i: int| from <= i < next_node(entries, from) ==> !names_node(
            (#[trigger] entries[i]).key,
        ),
    decreases entries.len() - from,
{
    if from < entries.len() && !names_node(entries[from].key) {
        let keys = entry_keys(entries);
        next_node_skips(entries, from + 1);
        assert(keys.take(from + 1) =~= keys.take(from).push(keys[from]));
        node_keys_push(keys.take(from), keys[from]);
    }
}

impl RootAudit {
    /// The roots are those of the node records among the listed objects that have
    /// been passed, in order, each as its bytes tell and none too large; the keys
    /// left are those of the roots that are neither sealed nor absent.
    pub open spec fn wf(self) -> bool {
        &&& self.listed.wf()
        &&& self.index <= self.listed@.len()
        &&& root_keys(self.node_roots@) == node_keys(
            entry_keys(self.listed@).take(self.index as int),
        )
        &&& self.bodies@.len() == self.node_roots@.len()
        &&& forall|i: int|
            0 <= i < self.node_roots@.len() ==> (#[trigger] self.node_roots@[i]).root@ == root_of(
                facts_of(self.bodies@[i]),
            )
        &&& forall|i: int|
            0 <= i < self.index && names_node((#[trigger] self.listed@[i]).key)
                ==> self.listed@[i].size <= MAX_NODE_RECORD
        &&& views(self.unsealed@) == unsettled(self.node_roots@)
    }

    /// The place of the next record to read.
    pub open spec fn place(self) -> int {
        next_node(self.listed@, self.index as int)
    }

    /// An audit of the listed objects that has read no record.
    pub fn new(listed: Inventory) -> (audit: RootAudit)
        requires
            listed.wf(),
        ensures
            audit.wf(),
            audit.listed == listed,
            audit.index == 0,
            audit.node_roots@.len() == 0,
    {
        let audit = RootAudit {
            listed,
            index: 0,
            node_roots: Vec::new(),
            unsealed: Vec::new(),
            bodies: Ghost(Seq::empty()),
        };
        proof {
            reveal(Seq::filter);
            assert(views(audit.unsealed@) =~= Seq::<Seq<char>>::empty());
            assert(entry_keys(listed@).take(0) =~= Seq::<Seq<char>>::empty());
            assert(root_keys(audit.node_roots@) =~= Seq::<Seq<char>>::empty());
        }
        audit
    }

    /// The place of the next node record, or the end.
    fn find(&self) -> (at: usize)
        requires
            self.wf(),
        ensures
            at == self.place(),
    {
        let mut at: usize = self.index;
        while at < self.listed.entries.len()
            invariant
                self.index <= at <= self.listed@.len(),
                next_node(self.listed@, at as int) == self.place(),
            decreases self.listed@.len() - at,
        {
            assert(self.listed@[at as int].key == self.listed.entries@[at as int].key@);
            if is_node_key(self.listed.entries[at].key.as_str()) {
                return at;
            }
            at = at + 1;
        }
        at
    }

    /// The place of the next record to read, which may not be too large; none where
    /// every node record has been read, so that the roots are those of all node
    /// keys of the listing, in order, and of no other.
    pub fn next(&self) -> (place: Result<Option<usize>, TransferError>)
        requires
            self.wf(),
        ensures
            match place {
                Ok(Some(place)) => {
                    &&& place == self.place()
                    &&& place < self.listed@.len()
                    &&& names_node(self.listed@[place as int].key)
                    &&& self.listed@[place as int].size <= MAX_NODE_RECORD
                },
                Ok(None) => {
                    &&& self.place() == self.listed@.len()
                    &&& root_keys(self.node_roots@) == node_keys(entry_keys(self.listed@))
                },
                Err(TransferError::LargeNodeRecord { key }) => {
                    &&& self.place() < self.listed@.len()
                    &&& self.listed@[self.place()].size > MAX_NODE_RECORD
                    &&& key@ == self.listed@[self.place()].key
                },
                Err(_) => false,
            },
    {
        let at: usize = self.find();
        proof {
            next_node_skips(self.listed@, self.index as int);
        }
        if at >= self.listed.entries.len() {
            assert(entry_keys(self.listed@).take(at as int) =~= entry_keys(self.listed@));
            return Ok(None);
        }
        let entry = &self.listed.entries[at];
        assert(self.listed@[at as int] == entry@);
        match check_node_size(entry.key.as_str(), entry.size) {
            Ok(()) => Ok(Some(at)),
            Err(error) => Err(error),
        }
    }

    /// Takes the bytes of the next record.
    pub fn accept(&mut self, bytes: &Vec<u8>)
        requires
            old(self).wf(),
            old(self).place() < old(self).listed@.len(),
            old(self).listed@[old(self).place()].size <= MAX_NODE_RECORD,
        ensures
            final(self).wf(),
            final(self).listed == old(self).listed,
            final(self).index == old(self).place() + 1,
            final(self).bodies@ == old(self).bodies@.push(bytes@),
            final(self).node_roots@.len() == old(self).node_roots@.len() + 1,
            final(self).node_roots@.drop_last() == old(self).node_roots@,
            final(self).node_roots@.last().key@ == old(self).listed@[old(self).place()].key,
            final(self).node_roots@.last().root@ == root_of(facts_of(bytes@)),
            ({
                let last = final(self).node_roots@.last();
                views(final(self).unsealed@) == if last.root.state@ == "sealed"@ || last.root.state@
                    == "absent"@ {
                    views(old(self).unsealed@)
                } else {
                    views(old(self).unsealed@).push(last.key@)
                }
            }),
    {
        let ghost earlier = self.node_roots@;
        let ghost entries = self.listed@;
        let at: usize = self.find();
        proof {
            next_node_skips(entries, self.index as int);
            assert(entries[at as int].key == self.listed.entries@[at as int].key@);
        }
        let key = self.listed.entries[at].key.clone();
        let root = audit_root(bytes);
        let settled = same_text(root.state.as_str(), "sealed") || same_text(
            root.state.as_str(),
            "absent",
        );
        if !settled {
            self.unsealed.push(self.listed.entries[at].key.clone());
        }
        self.node_roots.push(NodeRoot { key, root });
        assert(at < self.listed.entries.len());
        self.index = at + 1;
        self.bodies = Ghost(self.bodies@.push(bytes@));
        proof {
            let roots = self.node_roots@;
            let keys = entry_keys(entries);
            assert(roots.drop_last() =~= earlier);
            assert(views(self.unsealed@) =~= unsettled(roots));
            assert(keys.take(at + 1) =~= keys.take(at as int).push(keys[at as int]));
            node_keys_push(keys.take(at as int), keys[at as int]);
            assert(root_keys(roots) =~= root_keys(earlier).push(keys[at as int]));
            assert forall|i: int| 0 <= i < roots.len() implies (#[trigger] roots[i]).root@
                == root_of(facts_of(self.bodies@[i])) by {
                if i < earlier.len() {
                    assert(roots[i] == earlier[i]);
                }
            }
        }
    }

    /// Whether every root is sealed or absent.
    pub fn folded_roots_sealed_or_absent(&self) -> (yes: bool)
        requires
            self.wf(),
        ensures
            yes <==> self.unsealed@.len() == 0,
            yes <==> forall|i: int|
                0 <= i < self.node_roots@.len() ==> is_settled(
                    (#[trigger] self.node_roots@[i]).root.state@,
                ),
            yes <==> forall|i: int|
                0 <= i < self.node_roots@.len() ==> (#[trigger] self.node_roots@[i]).root.state@
                    == "sealed"@ || self.node_roots@[i].root.state@ == "absent"@,
    {
        proof {
            unsettled_tells_all(self.node_roots@);
            assert(views(self.unsealed@).len() == self.unsealed@.len());
        }
        self.unsealed.len() == 0
    }
}

/// No key is left exactly where every root is sealed or absent.
proof fn unsettled_tells_all(roots: Seq<NodeRoot>)
    ensures
        unsettled(roots).len() == 0 <==> forall|i: int|
            0 <= i < roots.len() ==> is_settled((#[trigger] roots[i]).root.state@),
    decreases roots.len(),
{
    if roots.len() > 0 {
        let rest = roots.drop_last();
        unsettled_tells_all(rest);
        if is_settled(roots.last().root.state@) {
            assert forall|i: int| 0 <= i < rest.len() implies rest[i] == #[trigger] roots[i] by {}
            if forall|i: int|
                0 <= i < rest.len() ==> is_settled((#[trigger] rest[i]).root.state@) {
                assert forall|i: int| 0 <= i < roots.len() implies is_settled(
                    (#[trigger] roots[i]).root.state@,
                ) by {
                    if i < rest.len() {
                        assert(is_settled(rest[i].root.state@));
                    }
                }
            }
        } else {
            assert(!is_settled(roots[roots.len() - 1].root.state@));
        }
    }
}

/// An audit that is at its end has one root for every node key of the listing, in
/// the order of the keys and none else, each as the bytes of its record tell.
pub proof fn audit_is_complete(audit: RootAudit)
    requires
        audit.wf(),
        audit.place() == audit.listed@.len(),
    ensures
        root_keys(audit.node_roots@) == node_keys(entry_keys(audit.listed@)),
        views(audit.unsealed@) == unsettled(audit.node_roots@),
        forall|i: int|
            0 <= i < audit.node_roots@.len() ==> (#[trigger] audit.node_roots@[i]).root@ == root_of(
                facts_of(audit.bodies@[i]),
            ),
        forall|i: int|
            0 <= i < audit.listed@.len() && names_node((#[trigger] audit.listed@[i]).key)
                ==> audit.listed@[i].size <= MAX_NODE_RECORD,
{
    next_node_skips(audit.listed@, audit.index as int);
    let keys = entry_keys(audit.listed@);
    assert(keys.take(keys.len() as int) =~= keys);
}

} // verus!
