//! Receiver slots: which bank of a dongle listens on which.

use vstd::prelude::*;
use vstd::relations::{
    antisymmetric, reflexive, sorted_by, strongly_connected, total_ordering, transitive,
};
use vstd::seq_lib::{group_to_multiset_ensures, lemma_sorted_unique};
use crate::discovery::DiscoveredDevice;
use crate::vec_map::MapKey;

verus! {

/// A bank's address and receiver slot as one number, the first byte of the
/// address counting most.
pub open spec fn slot_key(s: ([u8; 6], u8)) -> int {
    (((((s.0[0] * 256 + s.0[1]) * 256 + s.0[2]) * 256 + s.0[3]) * 256 + s.0[4]) * 256 + s.0[5])
        * 256 + s.1
}

/// The order of the slots in a list: by address, then by slot.
pub open spec fn slot_le() -> spec_fn(([u8; 6], u8), ([u8; 6], u8)) -> bool {
    |a: ([u8; 6], u8), b: ([u8; 6], u8)| slot_key(a) <= slot_key(b)
}

proof fn lemma_slot_key_injective(a: ([u8; 6], u8), b: ([u8; 6], u8))
    requires
        slot_key(a) == slot_key(b),
    ensures
        a == b,
{
    assert(a.0 =~= b.0);
}

proof fn lemma_slot_le_total()
    ensures
        total_ordering(slot_le()),
{
    let r = slot_le();
    assert(reflexive(r));
    assert forall|x: ([u8; 6], u8), y: ([u8; 6], u8)| #[trigger] r(x, y) && #[trigger] r(
        y,
        x,
    ) implies x == y by {
        lemma_slot_key_injective(x, y);
    }
    assert(antisymmetric(r));
    assert(transitive(r));
    assert(strongly_connected(r));
}

/// The addresses and slots of the devices that are bound to the dongle at
/// `master`.
pub open spec fn bound_slots(devices: Seq<DiscoveredDevice>, master: [u8; 6]) -> Seq<([u8; 6], u8)>
    decreases devices.len(),
{
    if devices.len() == 0 {
        Seq::empty()
    } else {
        let before = bound_slots(devices.drop_last(), master);
        let d = devices.last();
        if d.master_mac == master {
            before.push((d.mac, d.rx_type))
        } else {
            before
        }
    }
}

/// Whether two banks of the list listen on the same slot.
pub open spec fn slots_shared(slots: Seq<([u8; 6], u8)>) -> bool {
    exists|i: int, j: int|
        0 <= i < j < slots.len() && (#[trigger] slots[i]).1 == (#[trigger] slots[j]).1
}

fn key_of(s: &([u8; 6], u8)) -> (r: u64)
    ensures
        r == slot_key(*s),
{
    let m: &[u8; 6] = &s.0;
    (((((m[0] as u64 * 256 + m[1] as u64) * 256 + m[2] as u64) * 256 + m[3] as u64) * 256
        + m[4] as u64) * 256 + m[5] as u64) * 256 + s.1 as u64
}

proof fn lemma_insert_multiset<A>(s: Seq<A>, p: int, x: A)
    requires
        0 <= p <= s.len(),
    ensures
        s.insert(p, x).to_multiset() =~= s.to_multiset().insert(x),
{
    broadcast use group_to_multiset_ensures;

    let t = s.insert(p, x);
    assert(t[p] == x);
    assert(t.remove(p) =~= s);
    assert(t.contains(x));
    assert(t.to_multiset().count(x) > 0);
    assert(t.to_multiset() =~= s.to_multiset().insert(x));
}

/// The addresses and slots of the bound devices, in order.
pub fn sorted_slots(devices: &Vec<DiscoveredDevice>, master: &[u8; 6]) -> (r: Vec<([u8; 6], u8)>)
    ensures
        r@.to_multiset() == bound_slots(devices@, *master).to_multiset(),
        sorted_by(r@, slot_le()),
{
    let mut r: Vec<([u8; 6], u8)> = Vec::new();
    let mut i: usize = 0;
    proof {
        assert(devices@.take(0) =~= Seq::empty());
    }
    while i < devices.len()
        invariant
            i <= devices@.len(),
            r@.to_multiset() == bound_slots(devices@.take(i as int), *master).to_multiset(),
            sorted_by(r@, slot_le()),
        decreases devices@.len() - i,
    {
        broadcast use group_to_multiset_ensures;

        let d: &DiscoveredDevice = &devices[i];
        proof {
            assert(devices@.take(i + 1).drop_last() =~= devices@.take(i as int));
        }
        if d.master_mac.same(master) {
            let s: ([u8; 6], u8) = (d.mac, d.rx_type);
            let key: u64 = key_of(&s);
            let mut p: usize = 0;
            while p < r.len() && key_of(&r[p]) <= key
                invariant
                    p <= r@.len(),
                    key == slot_key(s),
                    forall|j: int| 0 <= j < p ==> slot_key(#[trigger] r@[j]) <= key,
                decreases r@.len() - p,
            {
                p += 1;
            }
            let ghost before = r@;
            proof {
                lemma_insert_multiset(before, p as int, s);
                let t = before.insert(p as int, s);
                let le = slot_le();
                assert forall|a: int, b: int| 0 <= a < b < t.len() implies #[trigger] le(
                    t[a],
                    t[b],
                ) by {
                    let a0 = if a < p {
                        a
                    } else {
                        a - 1
                    };
                    let b0 = if b < p {
                        b
                    } else {
                        b - 1
                    };
                    if a != p && b != p {
                        assert(le(before[a0], before[b0]));
                    } else if a == p {
                        if b0 > p {
                            assert(le(before[p as int], before[b0]));
                        }
                    }
                }
            }
            r.insert(p, s);
        }
        i += 1;
    }
    proof {
        assert(devices@.take(i as int) =~= devices@);
    }
    r
}

/// Whether two lists of slots are the same.
fn same_list(a: &Vec<([u8; 6], u8)>, b: &Vec<([u8; 6], u8)>) -> (r: bool)
    ensures
        r == (a@ == b@),
{
    if a.len() != b.len() {
        return false;
    }
    let mut i: usize = 0;
    while i < a.len()
        invariant
            i <= a@.len(),
            a@.len() == b@.len(),
            forall|j: int| 0 <= j < i ==> a@[j] == b@[j],
        decreases a@.len() - i,
    {
        if key_of(&a[i]) != key_of(&b[i]) {
            return false;
        }
        proof {
            lemma_slot_key_injective(a@[i as int], b@[i as int]);
        }
        i += 1;
    }
    proof {
        assert(a@ =~= b@);
    }
    true
}

/// Whether the banks and their slots differ between two ordered lists.
pub fn slots_differ(a: &Vec<([u8; 6], u8)>, b: &Vec<([u8; 6], u8)>) -> (r: bool)
    requires
        sorted_by(a@, slot_le()),
        sorted_by(b@, slot_le()),
    ensures
        r == (a@.to_multiset() != b@.to_multiset()),
{
    let same = same_list(a, b);
    proof {
        if a@.to_multiset() == b@.to_multiset() {
            lemma_slot_le_total();
            lemma_sorted_unique(a@, b@, slot_le());
        }
    }
    !same
}

/// Whether two banks of the list listen on the same slot.
pub fn any_slot_shared(slots: &Vec<([u8; 6], u8)>) -> (r: bool)
    ensures
        r == slots_shared(slots@),
{
    let mut i: usize = 0;
    while i < slots.len()
        invariant
            i <= slots@.len(),
            forall|a: int, b: int|
                0 <= a < i && a < b < slots@.len() ==> (#[trigger] slots@[a]).1 != (
                #[trigger] slots@[b]).1,
        decreases slots@.len() - i,
    {
        let mut j: usize = i + 1;
        while j < slots.len()
            invariant
                i < j <= slots@.len(),
                forall|b: int| i < b < j ==> slots@[i as int].1 != (#[trigger] slots@[b]).1,
            decreases slots@.len() - j,
        {
            if slots[i].1 == slots[j].1 {
                return true;
            }
            j += 1;
        }
        i += 1;
    }
    false
}

} // verus!
