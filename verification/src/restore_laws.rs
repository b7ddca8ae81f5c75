//! Which banks are restored, and what a refresh makes of them.

use vstd::prelude::*;
use crate::action::ActionView;
use crate::capabilities::WiredView;
use crate::controller_laws::{law_resync_sends_due_banks, lemma_resync};
use crate::effect::BreathingTable;
use crate::mac::bank_id;
use crate::model::{ControllerView, WirelessBankView};
use crate::request_laws::law_untouched;

verus! {

/// Whether a bank shows anything: a zone is animated, or an LED is lit.
pub open spec fn shows_anything(s: ControllerView, id: Seq<char>) -> bool {
    ||| exists|z: u8| #[trigger] s.banks[id].effects.contains_key(z)
    ||| exists|p: int|
        0 <= p < s.banks[id].leds.len() && #[trigger] s.banks[id].leds[p] != [0u8, 0u8, 0u8]
}

/// Whether a bank was never restored, or last at least twenty seconds ago.
pub open spec fn rested(s: ControllerView, id: Seq<char>, now: u64) -> bool {
    let mac = s.banks[id].mac;
    s.resync_at.contains_key(mac) ==> s.resync_at[mac] + 20_000_000_000 <= now
}

/// A bank is due exactly if it has drifted, shows anything, and has rested.
pub proof fn law_which_banks_are_due(s: ControllerView, id: Seq<char>, macs: Seq<[u8; 6]>, now: u64)
    ensures
        s.resync_due(id, macs, now) <==> macs.contains(s.banks[id].mac) && shows_anything(s, id)
            && rested(s, id, now),
{
    law_untouched(s.banks[id]);
}

/// Restoring sends again what every bank shows that has drifted, shows anything
/// and has rested, bank by bank in the order of the walk, and nothing else.
/// Without a radio it sends and notes nothing.
pub proof fn law_drifted_banks_are_restored(
    s: ControllerView,
    table: BreathingTable,
    order: Seq<Seq<char>>,
    macs: Seq<[u8; 6]>,
    now: u64,
)
    requires
        s.wf(),
        order.no_duplicates(),
        forall|i: int| 0 <= i < order.len() ==> s.banks.contains_key(#[trigger] order[i]),
    ensures
        s.wireless ==> s.restored(table, order, macs, now).1 == order.filter(
            |id: Seq<char>|
                macs.contains(s.banks[id].mac) && shows_anything(s, id) && rested(s, id, now),
        ).map_values(|id: Seq<char>| s.banks[id].upload(table)),
        !s.wireless ==> s.restored(table, order, macs, now) == (s, Seq::<ActionView>::empty()),
{
    law_resync_sends_due_banks(s, table, order, macs, now);
    let a = |id: Seq<char>| s.resync_due(id, macs, now);
    let b = |id: Seq<char>|
        macs.contains(s.banks[id].mac) && shows_anything(s, id) && rested(s, id, now);
    assert forall|id: Seq<char>| #[trigger] a(id) == b(id) by {
        law_which_banks_are_due(s, id, macs, now);
    }
    assert(a =~= b);
}

/// With a radio, a bank of the walk that has drifted, shows anything and has
/// rested is sent again, and the time is noted.
pub proof fn law_drifted_bank_is_restored(
    s: ControllerView,
    table: BreathingTable,
    order: Seq<Seq<char>>,
    macs: Seq<[u8; 6]>,
    now: u64,
    id: Seq<char>,
)
    requires
        s.wf(),
        s.wireless,
        order.no_duplicates(),
        forall|i: int| 0 <= i < order.len() ==> s.banks.contains_key(#[trigger] order[i]),
        order.contains(id),
        macs.contains(s.banks[id].mac),
        shows_anything(s, id),
        rested(s, id, now),
    ensures
        ({
            let (after, sent) = s.restored(table, order, macs, now);
            &&& sent.contains(s.banks[id].upload(table))
            &&& after.resync_at.contains_key(s.banks[id].mac)
            &&& after.resync_at[s.banks[id].mac] == now
        }),
{
    broadcast use vstd::seq_lib::group_filter_ensures;

    law_drifted_banks_are_restored(s, table, order, macs, now);
    let due = |id: Seq<char>|
        macs.contains(s.banks[id].mac) && shows_anything(s, id) && rested(s, id, now);
    let up = |id: Seq<char>| s.banks[id].upload(table);
    let i = choose|i: int| 0 <= i < order.len() && order[i] == id;
    assert(due(order[i]));
    let f = order.filter(due);
    assert(f.contains(id));
    let j = choose|j: int| 0 <= j < f.len() && f[j] == id;
    assert(f.map_values(up)[j] == up(id));
    law_which_banks_are_due(s, id, macs, now);
    lemma_resync(s, table, order, macs, now, order.len());
    assert(s.resync_due(order[i], macs, now));
}

/// A refresh takes a found device with its address, its fans and its layout;
/// where one address is found twice, the later one counts.
pub proof fn law_refresh_takes_device(s: ControllerView, found: Seq<WirelessBankView>, i: int)
    requires
        s.wireless,
        0 <= i < found.len(),
        forall|j: int|
            i < j < found.len() ==> bank_id((#[trigger] found[j]).mac) != bank_id(found[i].mac),
    ensures
        ({
            let id = bank_id(found[i].mac);
            let after = s.refresh(found);
            &&& after.banks.contains_key(id)
            &&& after.banks[id].mac == found[i].mac
            &&& after.banks[id].fan_count == found[i].fan_count
            &&& after.banks[id].layout == found[i].layout
            &&& after == (ControllerView { banks: after.banks, ..s })
        }),
{
    lemma_refreshed_last(s, found, i, found.len());
}

proof fn lemma_refreshed_last(
    s: ControllerView,
    found: Seq<WirelessBankView>,
    i: int,
    n: nat,
)
    requires
        0 <= i < n <= found.len(),
        forall|j: int|
            i < j < found.len() ==> bank_id((#[trigger] found[j]).mac) != bank_id(found[i].mac),
    ensures
        s.refreshed_banks(found, n).contains_key(bank_id(found[i].mac)),
        s.refreshed_banks(found, n)[bank_id(found[i].mac)] == s.refreshed(found[i]),
    decreases n,
{
    if i < n - 1 {
        lemma_refreshed_last(s, found, i, (n - 1) as nat);
        assert(bank_id(found[n - 1].mac) != bank_id(found[i].mac));
    }
}

/// Without a radio a refresh takes nothing.
pub proof fn law_refresh_needs_radio(s: ControllerView, found: Seq<WirelessBankView>)
    requires
        !s.wireless,
    ensures
        s.refresh(found) == s,
{
}

/// A controller that has just been set up has the wired devices that it was
/// given, has a radio exactly if it was given found devices, takes those, and
/// knows nothing else.
pub proof fn law_set_up(wired: Map<Seq<char>, WiredView>, found: Option<Seq<WirelessBankView>>)
    ensures
        ({
            let s = ControllerView::initial(wired, found);
            &&& s.wired == wired
            &&& s.wireless == found is Some
            &&& s.config is None
            &&& s.presets.len() == 0
            &&& !s.openrgb_active
            &&& forall|m: [u8; 6]| !s.resync_at.contains_key(m)
            &&& found is None ==> forall|id: Seq<char>| !s.banks.contains_key(id)
            &&& found matches Some(list) ==> s == (ControllerView {
                banks: Map::empty(),
                ..s
            }).refresh(list)
        }),
{
    if let Some(list) = found {
        let s = ControllerView::initial(wired, found);
        assert((ControllerView { banks: Map::empty(), ..s }).refresh(list) =~= s);
    }
}

} // verus!
