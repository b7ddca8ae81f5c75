//! What the report of a poll tells.

use vstd::prelude::*;
use crate::discovery::DiscoveredDevice;
use crate::network::{NetworkView, PollReport};
use crate::slots::{bound_slots, slot_key, slot_le};

verus! {

/// The devices of a list that are bound to the dongle at `mac`.
pub open spec fn bound_to(devices: Seq<DiscoveredDevice>, mac: [u8; 6]) -> Seq<DiscoveredDevice> {
    devices.filter(|d: DiscoveredDevice| d.master_mac == mac)
}

/// Their addresses and slots.
pub open spec fn assignments(devices: Seq<DiscoveredDevice>, mac: [u8; 6]) -> Seq<([u8; 6], u8)> {
    bound_to(devices, mac).map_values(|d: DiscoveredDevice| (d.mac, d.rx_type))
}

/// The slots of a dongle are those of the devices that are bound to it.
pub proof fn law_which_slots_count(devices: Seq<DiscoveredDevice>, mac: [u8; 6])
    ensures
        bound_slots(devices, mac) == assignments(devices, mac),
    decreases devices.len(),
{
    reveal(Seq::filter);
    let bound = |d: DiscoveredDevice| d.master_mac == mac;
    let pair = |d: DiscoveredDevice| (d.mac, d.rx_type);
    if devices.len() == 0 {
        assert(devices.filter(bound).map_values(pair) =~= Seq::empty());
    } else {
        law_which_slots_count(devices.drop_last(), mac);
        let f = devices.drop_last().filter(bound);
        let d = devices.last();
        if bound(d) {
            assert(f.push(d).map_values(pair) =~= f.map_values(pair).push(pair(d)));
        }
    }
}

/// Byte `k` of a bank's address, or its slot after them.
pub open spec fn order_byte(s: ([u8; 6], u8), k: int) -> u8 {
    if k < 6 {
        s.0[k]
    } else {
        s.1
    }
}

/// Whether a bank comes before another at the first byte in which they differ.
pub open spec fn comes_before(a: ([u8; 6], u8), b: ([u8; 6], u8)) -> bool {
    exists|k: int|
        0 <= k < 7 && #[trigger] order_byte(a, k) < order_byte(b, k) && forall|j: int|
            0 <= j < k ==> #[trigger] order_byte(a, j) == order_byte(b, j)
}

proof fn lemma_before(a: ([u8; 6], u8), b: ([u8; 6], u8))
    requires
        comes_before(a, b),
    ensures
        slot_key(a) < slot_key(b),
{
    let k = choose|k: int|
        0 <= k < 7 && #[trigger] order_byte(a, k) < order_byte(b, k) && forall|j: int|
            0 <= j < k ==> #[trigger] order_byte(a, j) == order_byte(b, j);
    assert(k > 0 ==> order_byte(a, 0) == order_byte(b, 0));
    assert(k > 1 ==> order_byte(a, 1) == order_byte(b, 1));
    assert(k > 2 ==> order_byte(a, 2) == order_byte(b, 2));
    assert(k > 3 ==> order_byte(a, 3) == order_byte(b, 3));
    assert(k > 4 ==> order_byte(a, 4) == order_byte(b, 4));
    assert(k > 5 ==> order_byte(a, 5) == order_byte(b, 5));
}

/// A report tells how many devices are bound and how many are not, exactly if
/// their number has changed.
pub proof fn law_population_report(r: PollReport, before: NetworkView, after: NetworkView)
    requires
        r.tells(before, after),
    ensures
        r.population is Some <==> before.devices.len() != after.devices.len(),
        r.population matches Some((bound, unbound)) ==> {
            &&& bound == bound_to(after.devices, after.master_mac).len()
            &&& bound + unbound == after.devices.len()
        },
{
    law_which_slots_count(after.devices, after.master_mac);
}

/// A report tells the slots exactly if there were bound devices before and
/// their addresses or slots, taken together, are not the same any more. It then
/// lists those of all bound devices, ordered by address and slot, and tells
/// whether two of them share a slot.
pub proof fn law_slot_report(r: PollReport, before: NetworkView, after: NetworkView)
    requires
        r.tells(before, after),
    ensures
        r.slots is Some <==> {
            &&& bound_to(before.devices, before.master_mac).len() > 0
            &&& assignments(before.devices, before.master_mac).to_multiset() != assignments(
                after.devices,
                after.master_mac,
            ).to_multiset()
        },
        r.slots matches Some(s) ==> {
            &&& s.assignment@.to_multiset() == assignments(
                after.devices,
                after.master_mac,
            ).to_multiset()
            &&& forall|i: int, j: int|
                0 <= i < j < s.assignment@.len() ==> !comes_before(
                    #[trigger] s.assignment@[j],
                    #[trigger] s.assignment@[i],
                )
            &&& s.shared <==> exists|i: int, j: int|
                0 <= i < j < s.assignment@.len() && (#[trigger] s.assignment@[i]).1 == (
                #[trigger] s.assignment@[j]).1
        },
{
    law_which_slots_count(before.devices, before.master_mac);
    law_which_slots_count(after.devices, after.master_mac);
    if let Some(s) = r.slots {
        let le = slot_le();
        assert forall|i: int, j: int| 0 <= i < j < s.assignment@.len() implies !comes_before(
            #[trigger] s.assignment@[j],
            #[trigger] s.assignment@[i],
        ) by {
            assert(le(s.assignment@[i], s.assignment@[j]));
            if comes_before(s.assignment@[j], s.assignment@[i]) {
                lemma_before(s.assignment@[j], s.assignment@[i]);
            }
        }
    }
}

} // verus!
