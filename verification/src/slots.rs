//! The slots of a fleet: the names of the services that fill them, and the nodes they are pinned
//! to.
use crate::text;
use crate::text::{chars_of, parse_usize, push_decimal, text_of};
use std::collections::BTreeMap;
use vstd::prelude::*;
use vstd::std_specs::cmp::OrdSpec;
use vstd::std_specs::iter::IteratorSpec;

verus! {

/// The name of the service that fills a slot of a fleet.
pub open spec fn child_name(fleet: Seq<char>, slot: nat) -> Seq<char> {
    fleet + seq!['-'] + text::decimal(slot)
}

/// Whether the last dash of a text is at the given position.
pub open spec fn is_last_dash(s: Seq<char>, k: int) -> bool {
    0 <= k < s.len() && s[k] == '-' && forall|j: int| k < j < s.len() ==> #[trigger] s[j] != '-'
}

/// The slot that a service fills, going by its name: the numeral behind the last dash.
pub open spec fn slot_of(name: Seq<char>) -> Option<int> {
    if exists|k: int| is_last_dash(name, k) {
        let k = choose|k: int| is_last_dash(name, k);
        text::within(text::unsigned_numeral(name.skip(k + 1)), 0, usize::MAX as int)
    } else {
        None
    }
}

/// The name of the service that fills a slot of a fleet.
pub fn child_name_of(fleet: &str, slot: usize) -> (r: String)
    ensures
        r@ == child_name(fleet@, slot as nat),
{
    let mut name = fleet.to_owned();
    name.push('-');
    push_decimal(&mut name, slot as u64);
    proof {
        assert(fleet@.push('-') == fleet@ + seq!['-']);
    }
    name
}

/// The slot that a service fills, going by its name. A name without a numeral behind its last dash
/// names no slot.
pub fn slot_index_of(name: &str) -> (r: Option<usize>)
    ensures
        match r {
            Some(i) => slot_of(name@) == Some(i as int),
            None => slot_of(name@) is None,
        },
{
    let chars = chars_of(name);
    let mut k: usize = chars.len();
    while k > 0
        invariant
            k <= chars@.len(),
            chars@ == name@,
            forall|j: int| k <= j < chars@.len() ==> #[trigger] chars@[j] != '-',
        decreases k,
    {
        k = k - 1;
        if chars[k] == '-' {
            let tail = text_of(&chars, k + 1, chars.len());
            proof {
                assert(is_last_dash(name@, k as int));
                let d = choose|d: int| is_last_dash(name@, d);
                assert(d == k) by {
                    assert(d < k ==> name@[k as int] != '-');
                    assert(d > k ==> name@[d] != '-');
                }
                assert(tail@ == name@.skip(k + 1));
            }
            return parse_usize(tail.as_str());
        }
    }
    None
}

/// The name of a slot's service leads back to the slot, whatever the fleet is called.
pub proof fn child_name_leads_back(fleet: Seq<char>, slot: usize)
    ensures
        slot_of(child_name(fleet, slot as nat)) == Some(slot as int),
{
    let name = child_name(fleet, slot as nat);
    let numeral = text::decimal(slot as nat);
    text::decimal_reads_back(slot as nat);
    let k = fleet.len() as int;
    assert(name.skip(k + 1) == numeral);
    assert forall|j: int| k < j < name.len() implies #[trigger] name[j] != '-' by {
        assert(text::is_digit(numeral[j - k - 1]));
    }
    assert(name[k] == '-');
    assert(is_last_dash(name, k));
    let d = choose|d: int| is_last_dash(name, d);
    assert(d < k ==> name[k] != '-');
    assert(d > k ==> name[d] != '-');
}

/// No two slots of a fleet have services of the same name.
pub proof fn child_names_are_distinct(fleet: Seq<char>, a: usize, b: usize)
    requires
        child_name(fleet, a as nat) == child_name(fleet, b as nat),
    ensures
        a == b,
{
    child_name_leads_back(fleet, a);
    child_name_leads_back(fleet, b);
}

/// A slot and the node that it is pinned to.
pub type Pin = (int, Seq<char>);

/// Whether a list of pins is in ascending order of slots, with no slot twice.
pub open spec fn ascending(pins: Seq<Pin>) -> bool {
    forall|i: int, j: int|
        0 <= i < j < pins.len() ==> (#[trigger] pins[i]).0 < (#[trigger] pins[j]).0
}

/// The list of pins, in order of slots, once a slot was pinned to a node. A slot that was pinned
/// before is pinned anew.
pub open spec fn pinned(pins: Seq<Pin>, slot: int, node: Seq<char>) -> Seq<Pin>
    decreases pins.len(),
{
    if pins.len() == 0 || pins.last().0 < slot {
        pins.push((slot, node))
    } else if pins.last().0 == slot {
        pins.drop_last().push((slot, node))
    } else {
        pinned(pins.drop_last(), slot, node).push(pins.last())
    }
}

/// The node that a slot is pinned to.
pub open spec fn node_of(pins: Seq<Pin>, slot: int) -> Option<Seq<char>>
    decreases pins.len(),
{
    if pins.len() == 0 {
        None
    } else if pins.last().0 == slot {
        Some(pins.last().1)
    } else {
        node_of(pins.drop_last(), slot)
    }
}

/// The pins of the slots below `slot` that a map of slots to nodes holds, in order of slots.
pub open spec fn pins_below(nodes: Map<usize, String>, slot: int) -> Seq<Pin>
    decreases slot,
{
    if slot <= 0 {
        Seq::empty()
    } else if nodes.contains_key((slot - 1) as usize) {
        pins_below(nodes, slot - 1).push((slot - 1, nodes[(slot - 1) as usize]@))
    } else {
        pins_below(nodes, slot - 1)
    }
}

/// The pins that a map of slots to nodes holds, in order of slots.
pub open spec fn pins_in(nodes: Map<usize, String>) -> Seq<Pin> {
    pins_below(nodes, usize::MAX + 1)
}

/// The node that a map of slots to nodes holds for a slot.
pub open spec fn node_in(nodes: Map<usize, String>, slot: usize) -> Option<Seq<char>> {
    if nodes.contains_key(slot) {
        Some(nodes[slot]@)
    } else {
        None
    }
}

/// The pins below a slot are in order, and are those of the map.
proof fn pins_below_are_in_order(nodes: Map<usize, String>, slot: int)
    requires
        0 <= slot <= usize::MAX + 1,
    ensures
        ascending(pins_below(nodes, slot)),
        forall|i: int|
            0 <= i < pins_below(nodes, slot).len() ==> 0 <= (#[trigger] pins_below(
                nodes,
                slot,
            )[i]).0 < slot && node_in(nodes, pins_below(nodes, slot)[i].0 as usize) == Some(
                pins_below(nodes, slot)[i].1,
            ),
        forall|k: usize| #[trigger]
            nodes.contains_key(k) && k < slot ==> pins_below(nodes, slot).contains(
                (k as int, nodes[k]@),
            ),
    decreases slot,
{
    if slot > 0 {
        pins_below_are_in_order(nodes, slot - 1);
        let front = pins_below(nodes, slot - 1);
        let all = pins_below(nodes, slot);
        assert forall|k: usize| #[trigger] nodes.contains_key(k) && k < slot implies all.contains(
            (k as int, nodes[k]@),
        ) by {
            if k == slot - 1 {
                assert(all[all.len() - 1] == (k as int, nodes[k]@));
            } else {
                assert(front.contains((k as int, nodes[k]@)));
                let i = choose|i: int|
                    0 <= i < front.len() && front[i] == (k as int, nodes[k]@);
                assert(all[i] == front[i]);
            }
        }
    }
}

/// The pins of a map are in order of slots, and a slot is pinned to the node that the map holds for
/// it.
pub proof fn pins_in_are_the_map(nodes: Map<usize, String>)
    ensures
        ascending(pins_in(nodes)),
        forall|i: int|
            0 <= i < pins_in(nodes).len() ==> 0 <= (#[trigger] pins_in(nodes)[i]).0 <= usize::MAX,
        forall|k: usize| #[trigger] node_of(pins_in(nodes), k as int) == node_in(nodes, k),
{
    let pins = pins_in(nodes);
    pins_below_are_in_order(nodes, usize::MAX + 1);
    assert forall|k: usize| #[trigger] node_of(pins, k as int) == node_in(nodes, k) by {
        node_of_is_the_pin(pins, k as int);
        if nodes.contains_key(k) {
            assert(pins.contains((k as int, nodes[k]@)));
            let i = choose|i: int| 0 <= i < pins.len() && pins[i] == (k as int, nodes[k]@);
            assert(pins[i].0 == k);
        } else if node_of(pins, k as int) is Some {
            let i = choose|i: int|
                0 <= i < pins.len() && #[trigger] pins[i] == (
                    k as int,
                    node_of(pins, k as int)->0,
                );
            assert(pins[i].0 as usize == k);
        }
    }
}

/// An empty map holds no pins.
pub proof fn empty_map_has_no_pins(slot: int)
    ensures
        pins_below(Map::<usize, String>::empty(), slot) == Seq::<Pin>::empty(),
    decreases slot,
{
    if slot > 0 {
        empty_map_has_no_pins(slot - 1);
    }
}

/// To put a node into the map is to pin the slot to it.
pub proof fn inserting_pins_the_slot(nodes: Map<usize, String>, slot: usize, node: String)
    ensures
        pins_in(nodes.insert(slot, node)) == pinned(pins_in(nodes), slot as int, node@),
{
    inserting_pins_below(nodes, slot, node, usize::MAX + 1);
}

proof fn inserting_pins_below(nodes: Map<usize, String>, slot: usize, node: String, n: int)
    requires
        0 <= n <= usize::MAX + 1,
    ensures
        pins_below(nodes.insert(slot, node), n) == (if slot < n {
            pinned(pins_below(nodes, n), slot as int, node@)
        } else {
            pins_below(nodes, n)
        }),
    decreases n,
{
    if n > 0 {
        inserting_pins_below(nodes, slot, node, n - 1);
        pins_below_are_in_order(nodes, n - 1);
        pins_below_are_in_order(nodes, n);
        let before = pins_below(nodes, n - 1);
        assert(before.push((n - 1, nodes[(n - 1) as usize]@)).drop_last() =~= before);
        if before.len() > 0 {
            assert(before[before.len() - 1].0 < n - 1);
        }
    }
}

/// Two lists of pins in order of slots that hold the same pins are the same list.
proof fn same_pins_same_list(a: Seq<Pin>, b: Seq<Pin>)
    requires
        ascending(a),
        ascending(b),
        forall|p: Pin| #[trigger] a.contains(p) <==> b.contains(p),
    ensures
        a == b,
    decreases a.len(),
{
    if a.len() == 0 {
        if b.len() > 0 {
            assert(a.contains(b[0]) <==> b.contains(b[0]));
        }
        assert(a =~= b);
    } else {
        assert(a.contains(a[a.len() - 1]));
        assert(b.len() > 0);
        let top = b[b.len() - 1];
        assert(a.contains(top) <==> b.contains(top));
        let i = choose|i: int| 0 <= i < b.len() && b[i] == a.last();
        let j = choose|j: int| 0 <= j < a.len() && a[j] == b.last();
        assert(i < b.len() - 1 ==> b[i].0 < b[b.len() - 1].0);
        assert(j < a.len() - 1 ==> a[j].0 < a[a.len() - 1].0);
        assert(a.last() == b.last());
        let c = a.drop_last();
        let d = b.drop_last();
        assert forall|p: Pin| #[trigger] c.contains(p) <==> d.contains(p) by {
            if c.contains(p) {
                let k = choose|k: int| 0 <= k < c.len() && c[k] == p;
                assert(a[k] == p && a[k].0 < a[a.len() - 1].0);
                assert(a.contains(p));
                assert(b.contains(p));
                let l = choose|l: int| 0 <= l < b.len() && b[l] == p;
                assert(d[l] == p);
            }
            if d.contains(p) {
                let k = choose|k: int| 0 <= k < d.len() && d[k] == p;
                assert(b[k] == p && b[k].0 < b[b.len() - 1].0);
                assert(b.contains(p));
                assert(a.contains(p));
                let l = choose|l: int| 0 <= l < a.len() && a[l] == p;
                assert(c[l] == p);
            }
        }
        same_pins_same_list(c, d);
        assert(a =~= c.push(a.last()));
        assert(b =~= d.push(b.last()));
    }
}

/// A map is walked in the order of its slots.
proof fn increasing_slots(keys: Seq<usize>)
    requires
        vstd::std_specs::btree::increasing_seq(keys),
    ensures
        forall|i: int, j: int|
            0 <= i < j < keys.len() ==> #[trigger] keys[i] < #[trigger] keys[j],
{
    assert(vstd::laws_cmp::obeys_cmp::<usize>());
    assert forall|i: int, j: int| 0 <= i < j < keys.len() implies #[trigger] keys[i]
        < #[trigger] keys[j] by {
        assert(keys[i].cmp_spec(&keys[j]) is Less);
    }
}

/// A list of slots and nodes, as pins.
pub open spec fn pins_view(entries: Seq<(usize, String)>) -> Seq<Pin> {
    entries.map_values(|e: (usize, String)| (e.0 as int, e.1@))
}

/// A list of slots and the nodes that a map holds for them, as pins.
pub open spec fn entries_view(entries: Seq<(usize, &String)>) -> Seq<Pin> {
    entries.map_values(|e: (usize, &String)| (e.0 as int, e.1@))
}

/// The entries of a map of slots to nodes, in order of slots.
pub fn entries_of(nodes: &BTreeMap<usize, String>) -> (r: Vec<(usize, &String)>)
    ensures
        entries_view(r@) == pins_in(nodes@),
{
    let mut out: Vec<(usize, &String)> = Vec::new();
    let iter = nodes.iter();
    let ghost walk = iter.remaining();
    for entry in it: iter
        invariant
            it.seq() == walk,
            out@.len() == it.index(),
            forall|j: int|
                0 <= j < it.index() ==> (#[trigger] out@[j]).0 == *walk[j].0 && out@[j].1
                    == walk[j].1,
    {
        out.push((*entry.0, entry.1));
    }
    proof {
        let pins = pins_in(nodes@);
        let seen = entries_view(out@);
        pins_below_are_in_order(nodes@, usize::MAX + 1);
        assert(out@.len() == walk.len());
        assert forall|i: int, j: int| 0 <= i < j < seen.len() implies (#[trigger] seen[i]).0 < (
        #[trigger] seen[j]).0 by {
            let keys = walk.map_values(|kv: (&usize, &String)| *kv.0);
            increasing_slots(keys);
            assert(keys[i] < keys[j]);
        }
        assert forall|p: Pin| #[trigger] seen.contains(p) <==> pins.contains(p) by {
            if seen.contains(p) {
                let i = choose|i: int| 0 <= i < seen.len() && seen[i] == p;
                assert(nodes@.contains_key(*walk[i].0));
                assert(nodes@[*walk[i].0] == *walk[i].1);
            }
            if pins.contains(p) {
                let i = choose|i: int| 0 <= i < pins.len() && pins[i] == p;
                let k = pins[i].0 as usize;
                assert(nodes@.contains_key(k));
                assert(walk.contains((&k, &nodes@[k])));
                let j = choose|j: int| 0 <= j < walk.len() && walk[j] == (&k, &nodes@[k]);
                assert(seen[j] == p);
            }
        }
        same_pins_same_list(seen, pins);
    }
    out
}

/// Pinning a slot keeps the order, and gives that slot its node and every other slot the node it
/// had.
pub proof fn pinned_keeps_order(pins: Seq<Pin>, slot: int, node: Seq<char>)
    requires
        ascending(pins),
    ensures
        ascending(pinned(pins, slot, node)),
        pinned(pins, slot, node).len() <= pins.len() + 1,
        forall|i: int|
            0 <= i < pinned(pins, slot, node).len() ==> (#[trigger] pinned(pins, slot, node)[i]).0
                == slot || exists|j: int|
                0 <= j < pins.len() && pins[j] == pinned(pins, slot, node)[i],
    decreases pins.len(),
{
    let after = pinned(pins, slot, node);
    if pins.len() == 0 || pins.last().0 < slot {
        assert forall|i: int| 0 <= i < after.len() implies (#[trigger] after[i]).0 == slot
            || exists|j: int| 0 <= j < pins.len() && pins[j] == after[i] by {
            if i < pins.len() {
                assert(pins[i] == after[i]);
            }
        }
    } else if pins.last().0 == slot {
        assert forall|i: int| 0 <= i < after.len() implies (#[trigger] after[i]).0 == slot
            || exists|j: int| 0 <= j < pins.len() && pins[j] == after[i] by {
            if i < pins.len() - 1 {
                assert(pins[i] == after[i]);
            }
        }
    } else {
        let front = pins.drop_last();
        let inner = pinned(front, slot, node);
        assert(ascending(front));
        pinned_keeps_order(front, slot, node);
        assert(after == inner.push(pins.last()));
        assert forall|i: int| 0 <= i < inner.len() implies (#[trigger] inner[i]).0
            < pins.last().0 by {
            if inner[i].0 != slot {
                let j = choose|j: int| 0 <= j < front.len() && front[j] == inner[i];
                assert(pins[j].0 < pins.last().0);
            }
        }
        assert forall|i: int| 0 <= i < after.len() implies (#[trigger] after[i]).0 == slot
            || exists|j: int| 0 <= j < pins.len() && pins[j] == after[i] by {
            if i < inner.len() {
                assert(after[i] == inner[i]);
                if inner[i].0 != slot {
                    let j = choose|j: int| 0 <= j < front.len() && front[j] == inner[i];
                    assert(pins[j] == after[i]);
                }
            } else {
                assert(pins[pins.len() - 1] == after[i]);
            }
        }
    }
}

/// After a slot was pinned, that slot has its node, and every other slot has the node it had.
pub proof fn pinning_changes_one_slot(pins: Seq<Pin>, slot: int, node: Seq<char>, other: int)
    requires
        ascending(pins),
    ensures
        node_of(pinned(pins, slot, node), other) == (if other == slot {
            Some(node)
        } else {
            node_of(pins, other)
        }),
    decreases pins.len(),
{
    let after = pinned(pins, slot, node);
    if pins.len() == 0 || pins.last().0 < slot {
        assert(after.drop_last() == pins);
    } else if pins.last().0 == slot {
        assert(after.drop_last() == pins.drop_last());
    } else {
        assert(ascending(pins.drop_last()));
        pinning_changes_one_slot(pins.drop_last(), slot, node, other);
        assert(after.drop_last() == pinned(pins.drop_last(), slot, node));
    }
}

/// In an ascending list the pin of a slot is the one that is found for it, and a slot that is
/// found has a pin.
pub proof fn node_of_is_the_pin(pins: Seq<Pin>, slot: int)
    requires
        ascending(pins),
    ensures
        forall|k: int|
            0 <= k < pins.len() && (#[trigger] pins[k]).0 == slot ==> node_of(pins, slot) == Some(
                pins[k].1,
            ),
        node_of(pins, slot) is Some ==> exists|k: int|
            0 <= k < pins.len() && #[trigger] pins[k] == (slot, node_of(pins, slot)->0),
    decreases pins.len(),
{
    if pins.len() > 0 {
        let front = pins.drop_last();
        assert(ascending(front));
        node_of_is_the_pin(front, slot);
        assert forall|k: int|
            0 <= k < pins.len() && (#[trigger] pins[k]).0 == slot implies node_of(pins, slot)
            == Some(pins[k].1) by {
            if k < front.len() {
                assert(front[k] == pins[k]);
                assert(pins[k].0 < pins.last().0);
            }
        }
        if node_of(pins, slot) is Some {
            if pins.last().0 == slot {
                assert(pins[pins.len() - 1] == (slot, node_of(pins, slot)->0));
            } else {
                let k = choose|k: int|
                    0 <= k < front.len() && #[trigger] front[k] == (slot, node_of(front, slot)->0);
                assert(pins[k] == front[k]);
            }
        }
    }
}

} // verus!
