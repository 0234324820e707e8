//! What an audit of folded roots accepts and what it reports.
use crate::text::views;
use crate::transfer::audit::{
    facts_of, is_settled, json_value, names_node, next_node, root_keys, root_of, state_of,
    unsettled, JsonView, NodeRoot, RootAudit, RootFactsView,
};
use crate::transfer::namespace::ListedView;
use crate::transfer::verify::entry_keys;
use vstd::prelude::*;

verus! {

/// A state needs no investigation exactly where it is one of two words.
pub proof fn sealed_and_absent_are_settled(state: Seq<char>)
    ensures
        is_settled(state) <==> state == "sealed"@ || state == "absent"@,
{
}

/// The keys left of some roots, in order, are those of the roots whose state is
/// neither of the two words.
pub proof fn open_roots_are_reported(roots: Seq<NodeRoot>, key: Seq<char>)
    ensures
        unsettled(roots).contains(key) <==> exists|i: int|
            {
                &&& 0 <= i < roots.len()
                &&& (#[trigger] roots[i]).key@ == key
                &&& roots[i].root.state@ != "sealed"@
                &&& roots[i].root.state@ != "absent"@
            },
        unsettled(roots) == root_keys(
            roots.filter(
                |r: NodeRoot| r.root.state@ != "sealed"@ && r.root.state@ != "absent"@,
            ),
        ),
    decreases roots.len(),
{
    reveal(Seq::filter);
    let open = |r: NodeRoot| r.root.state@ != "sealed"@ && r.root.state@ != "absent"@;
    if roots.len() == 0 {
        assert(unsettled(roots) =~= root_keys(roots.filter(open)));
    } else {
        let rest = roots.drop_last();
        let last = roots.last();
        open_roots_are_reported(rest, key);
        let all = unsettled(roots);
        let earlier = unsettled(rest);
        if open(last) {
            assert(all =~= root_keys(roots.filter(open)));
            assert(all =~= earlier.push(last.key@));
            if all.contains(key) {
                let i = choose|i: int| 0 <= i < all.len() && all[i] == key;
                if i < earlier.len() {
                    assert(earlier[i] == key);
                    let j = choose|j: int|
                        {
                            &&& 0 <= j < rest.len()
                            &&& (#[trigger] rest[j]).key@ == key
                            &&& rest[j].root.state@ != "sealed"@
                            &&& rest[j].root.state@ != "absent"@
                        };
                    assert(roots[j] == rest[j]);
                } else {
                    assert(roots[roots.len() - 1].key@ == key);
                }
            }
            assert(all[earlier.len() as int] == last.key@);
            if earlier.contains(key) {
                let i = choose|i: int| 0 <= i < earlier.len() && earlier[i] == key;
                assert(all[i] == key);
            }
        } else {
            if all.contains(key) {
                let j = choose|j: int|
                    {
                        &&& 0 <= j < rest.len()
                        &&& (#[trigger] rest[j]).key@ == key
                        &&& rest[j].root.state@ != "sealed"@
                        &&& rest[j].root.state@ != "absent"@
                    };
                assert(roots[j] == rest[j]);
            }
        }
        if exists|i: int|
            {
                &&& 0 <= i < roots.len()
                &&& (#[trigger] roots[i]).key@ == key
                &&& roots[i].root.state@ != "sealed"@
                &&& roots[i].root.state@ != "absent"@
            } {
            let i = choose|i: int|
                {
                    &&& 0 <= i < roots.len()
                    &&& (#[trigger] roots[i]).key@ == key
                    &&& roots[i].root.state@ != "sealed"@
                    &&& roots[i].root.state@ != "absent"@
                };
            if i < rest.len() {
                assert(rest[i] == roots[i]);
                assert(earlier.contains(key));
            } else {
                assert(open(last));
                assert(all[earlier.len() as int] == key);
            }
        }
    }
}

/// A node record is one below `nodes/` that ends in `.json`.
pub proof fn node_records_have_their_names(key: Seq<char>)
    ensures
        names_node(key) <==> exists|name: Seq<char>|
            key == #[trigger] ("nodes/"@ + name + ".json"@),
{
    reveal_strlit("nodes/");
    reveal_strlit(".json");
    let head = "nodes/"@;
    let tail = ".json"@;
    assert(head.len() == 6 && tail.len() == 5);
    if names_node(key) {
        if key.len() < 11 {
            let n = key.len() as int;
            assert(key.take(6)[5] == '/');
            assert(key.skip(n - 5)[5 - (n - 5)] == tail[10 - n]);
            assert(key[5] == tail[10 - n]);
            assert(tail[0] != '/' && tail[1] != '/' && tail[2] != '/' && tail[3] != '/' && tail[4]
                != '/');
        }
        let name = key.subrange(6, key.len() - 5);
        assert forall|i: int| 0 <= i < key.len() implies key[i] == (head + name + tail)[i] by {
            if i < 6 {
                assert(key.take(6)[i] == head[i]);
            } else if i >= key.len() - 5 {
                assert(key.skip(key.len() - 5)[i - (key.len() - 5)] == tail[i - (key.len() - 5)]);
            }
        }
        assert(key =~= head + name + tail);
    }
    if exists|name: Seq<char>| key == #[trigger] ("nodes/"@ + name + ".json"@) {
        let name = choose|name: Seq<char>| key == #[trigger] ("nodes/"@ + name + ".json"@);
        assert(key.take(6) =~= head);
        assert(key.skip(key.len() - 5) =~= tail);
    }
}

/// A root is sealed exactly where its record says so and is whole: with a name, a
/// lease, and a log with an epoch, a tiered position and an ensemble.
pub proof fn only_whole_records_are_sealed(facts: RootFactsView)
    ensures
        state_of(facts) == "sealed"@ <==> {
            &&& facts.node is Text
            &&& facts.expires_ms is Unsigned
            &&& !(facts.log is Missing)
            &&& !(facts.log is Null)
            &&& facts.epoch is Unsigned
            &&& facts.tiered is Unsigned
            &&& facts.ensemble is Array
            &&& facts.state == JsonView::Text("sealed"@)
        },
{
    reveal_strlit("sealed");
    reveal_strlit("absent");
    reveal_strlit("malformed");
    assert("sealed"@.len() == 6 && "absent"@.len() == 6 && "malformed"@.len() == 9);
    assert("sealed"@[0] != "absent"@[0]);
}

/// A record with a name and a lease and no log is absent; one without a name or a
/// lease is malformed, and so is one whose log is not whole or has no state; any other
/// log has the state that it says.
pub proof fn states_are_told(facts: RootFactsView)
    ensures
        !(facts.node is Text && facts.expires_ms is Unsigned) ==> state_of(facts) == "malformed"@,
        facts.node is Text && facts.expires_ms is Unsigned && (facts.log is Missing
            || facts.log is Null) ==> state_of(facts) == "absent"@,
        facts.node is Text && facts.expires_ms is Unsigned && !(facts.log is Missing
            || facts.log is Null) ==> {
            let whole = facts.epoch is Unsigned && facts.tiered is Unsigned
                && facts.ensemble is Array;
            &&& !whole ==> state_of(facts) == "malformed"@
            &&& whole && !(facts.state is Text) ==> state_of(facts) == "malformed"@
            &&& whole && facts.state is Text ==> JsonView::Text(state_of(facts)) == facts.state
        },
{
}

/// What an audit reports of a record: its state; its name and lease where it has both;
/// and its epoch and tiered position where it has a log too.
pub proof fn reports_are_of_the_record(facts: RootFactsView)
    ensures
        ({
            let root = root_of(facts);
            let record = facts.node is Text && facts.expires_ms is Unsigned;
            let logged = record && !(facts.log is Missing || facts.log is Null);
            &&& root.state == state_of(facts)
            &&& record ==> root.node == Some(facts.node) && root.expires_ms == Some(
                facts.expires_ms,
            )
            &&& !record ==> root.node is None && root.expires_ms is None
            &&& logged ==> root.epoch == Some(facts.epoch) && root.tiered == Some(facts.tiered)
            &&& !logged ==> root.epoch is None && root.tiered is None
        }),
{
}

/// Where the values of a record stand.
pub proof fn values_have_their_places(bytes: Seq<u8>)
    ensures
        facts_of(bytes).node == json_value(bytes, "/node"@),
        facts_of(bytes).expires_ms == json_value(bytes, "/expires_ms"@),
        facts_of(bytes).log == json_value(bytes, "/log"@),
        facts_of(bytes).epoch == json_value(bytes, "/log/epoch"@),
        facts_of(bytes).tiered == json_value(bytes, "/log/tiered"@),
        facts_of(bytes).ensemble == json_value(bytes, "/log/ensemble"@),
        facts_of(bytes).state == json_value(bytes, "/log/state"@),
{
}

/// An audit at its end passes exactly where every node record of the listing tells
/// that its log is sealed or absent; it has read each of them, none above a mebibyte,
/// and its roots are theirs in the order of the keys.
pub proof fn audit_passes_sealed_logs(audit: RootAudit, key: Seq<char>)
    requires
        audit.wf(),
        audit.place() == audit.listed@.len(),
    ensures
        views(audit.unsealed@).contains(key) <==> exists|i: int|
            {
                &&& 0 <= i < audit.node_roots@.len()
                &&& (#[trigger] audit.node_roots@[i]).key@ == key
                &&& audit.node_roots@[i].root.state@ != "sealed"@
                &&& audit.node_roots@[i].root.state@ != "absent"@
            },
        audit.unsealed@.len() == 0 <==> forall|i: int|
            0 <= i < audit.node_roots@.len() ==> (#[trigger] audit.node_roots@[i]).root.state@
                == "sealed"@ || audit.node_roots@[i].root.state@ == "absent"@,
        root_keys(audit.node_roots@) == entry_keys(audit.listed@).filter(
            |k: Seq<char>| exists|name: Seq<char>| k == #[trigger] ("nodes/"@ + name + ".json"@),
        ),
        forall|i: int|
            0 <= i < audit.node_roots@.len() ==> (#[trigger] audit.node_roots@[i]).root.state@
                == state_of(facts_of(audit.bodies@[i])),
        forall|i: int|
            0 <= i < audit.listed@.len() && names_node((#[trigger] audit.listed@[i]).key)
                ==> audit.listed@[i].size <= 1024 * 1024,
{
    let roots = audit.node_roots@;
    crate::transfer::audit::audit_is_complete(audit);
    open_roots_are_reported(roots, key);
    assert(views(audit.unsealed@).len() == audit.unsealed@.len());
    if audit.unsealed@.len() == 0 {
        assert forall|i: int| 0 <= i < roots.len() implies (#[trigger] roots[i]).root.state@
            == "sealed"@ || roots[i].root.state@ == "absent"@ by {
            open_roots_are_reported(roots, roots[i].key@);
            assert(unsettled(roots).len() == 0);
        }
    } else {
        let left = unsettled(roots)[0];
        assert(unsettled(roots).contains(left));
        open_roots_are_reported(roots, left);
    }
    let named = |k: Seq<char>|
        exists|name: Seq<char>| k == #[trigger] ("nodes/"@ + name + ".json"@);
    assert forall|k: Seq<char>| #[trigger] names_node(k) == named(k) by {
        node_records_have_their_names(k);
    }
    assert((|k: Seq<char>| names_node(k)) =~= named);
    assert forall|i: int| 0 <= i < roots.len() implies (#[trigger] roots[i]).root.state@ == state_of(
        facts_of(audit.bodies@[i]),
    ) by {
        assert(roots[i].root@ == root_of(facts_of(audit.bodies@[i])));
    }
}

/// An audit reads the node records one after another: the next one is the first at
/// its place or behind it, and at the end there is none left.
pub proof fn no_node_record_is_passed_over(audit: RootAudit, i: int)
    requires
        audit.wf(),
    ensures
        audit.index <= audit.place() <= audit.listed@.len(),
        audit.place() < audit.listed@.len() ==> exists|name: Seq<char>|
            audit.listed@[audit.place()].key == #[trigger] ("nodes/"@ + name + ".json"@),
        audit.index <= i < audit.place() ==> !exists|name: Seq<char>|
            audit.listed@[i].key == #[trigger] ("nodes/"@ + name + ".json"@),
{
    let entries = audit.listed@;
    next_is_the_first(entries, audit.index as int);
    if audit.place() < entries.len() {
        node_records_have_their_names(entries[audit.place()].key);
    }
    if audit.index <= i < audit.place() {
        assert(!names_node(entries[i].key));
        node_records_have_their_names(entries[i].key);
    }
}

proof fn next_is_the_first(entries: Seq<ListedView>, from: int)
    requires
        0 <= from <= entries.len(),
    ensures
        from <= next_node(entries, from) <= entries.len(),
        next_node(entries, from) < entries.len() ==> names_node(
            entries[next_node(entries, from)].key,
        ),
        forall|i: int|
            from <= i < next_node(entries, from) ==> !names_node((#[trigger] entries[i]).key),
    decreases entries.len() - from,
{
    if from < entries.len() && !names_node(entries[from].key) {
        next_is_the_first(entries, from + 1);
    }
}

} // verus!
