//! What holds of a turn of the color writer as a whole.

use vstd::prelude::*;
use crate::direct_color::{
    pending_view, pending_wf, run_all_writes, run_colors, run_writes, turn_of, write_list,
    zone_list, zones_view, DeviceWriteView, FlushTurnView, PendingColors,
};
use crate::model::{ControllerView, Run};
use crate::vec_map::{lemma_zip_at, VecMap};

verus! {

/// What a turn asks of the lighting controller.
pub enum Request {
    /// Write colors to one zone.
    Zone { device_id: Seq<char>, zone: u8, colors: Seq<[u8; 3]> },
    /// Write colors to several zones of a bank at once.
    Bank { device_id: Seq<char>, zones: Seq<(u8, Seq<[u8; 3]>)> },
}

pub open spec fn zone_request(w: DeviceWriteView, j: int) -> Request {
    Request::Zone { device_id: w.device_id, zone: w.zones[j].0, colors: w.zones[j].1 }
}

/// The requests for the first `n` devices of a list, zone by zone.
pub open spec fn zone_requests(writes: Seq<DeviceWriteView>, n: nat) -> Seq<Request>
    decreases n,
{
    if n == 0 {
        Seq::empty()
    } else {
        let w = writes[n - 1];
        zone_requests(writes, (n - 1) as nat) + Seq::new(
            w.zones.len(),
            |j: int| zone_request(w, j),
        )
    }
}

/// The requests of a turn, in the order of its steps.
pub open spec fn turn_requests(t: FlushTurnView) -> Seq<Request> {
    zone_requests(t.wired, t.wired.len()) + Seq::new(
        t.banks.len(),
        |i: int| Request::Bank { device_id: t.banks[i].device_id, zones: t.banks[i].zones },
    )
}

/// The controller after the first `n` of a list of requests for single zones,
/// with the answers to all of them.
pub open spec fn run_requests(s: ControllerView, requests: Seq<Request>, n: nat) -> Run
    decreases n,
{
    if n == 0 {
        Run { state: s, out: Seq::empty() }
    } else {
        let r = run_requests(s, requests, (n - 1) as nat);
        match requests[n - 1] {
            Request::Zone { device_id, zone, colors } => {
                let (t, o) = r.state.set_direct_colors(device_id, zone, colors);
                Run { state: t, out: r.out.push(o) }
            },
            Request::Bank { .. } => r,
        }
    }
}

proof fn lemma_run_prefix(s: ControllerView, a: Seq<Request>, b: Seq<Request>, n: nat)
    requires
        n <= a.len(),
    ensures
        run_requests(s, a + b, n) == run_requests(s, a, n),
    decreases n,
{
    if n > 0 {
        lemma_run_prefix(s, a, b, (n - 1) as nat);
        assert((a + b)[n - 1] == a[n - 1]);
    }
}

proof fn lemma_run_colors(
    s: ControllerView,
    a: Seq<Request>,
    w: DeviceWriteView,
    n: nat,
)
    requires
        n <= w.zones.len(),
    ensures
        ({
            let b = Seq::new(w.zones.len(), |j: int| zone_request(w, j));
            let r = run_requests(s, a, a.len());
            run_requests(s, a + b, (a.len() + n) as nat) == run_colors(
                r.state,
                w.device_id,
                w.zones,
                n,
                r.out,
            )
        }),
    decreases n,
{
    let b = Seq::new(w.zones.len(), |j: int| zone_request(w, j));
    if n == 0 {
        lemma_run_prefix(s, a, b, a.len());
    } else {
        lemma_run_colors(s, a, w, (n - 1) as nat);
        assert((a + b)[a.len() + n - 1] == zone_request(w, n - 1));
        assert((a.len() + n - 1) as nat == (a.len() + (n - 1) as nat) as nat);
    }
}

/// Serving the wired devices of a turn is to make its requests for single
/// zones one after the other, every one of them, however each is answered.
pub proof fn law_wired_flush_makes_all_requests(
    s: ControllerView,
    writes: Seq<DeviceWriteView>,
    n: nat,
)
    requires
        n <= writes.len(),
    ensures
        run_writes(s, writes, n) == run_requests(
            s,
            zone_requests(writes, n),
            zone_requests(writes, n).len(),
        ),
        n == writes.len() ==> run_all_writes(s, writes) == run_requests(
            s,
            zone_requests(writes, n),
            zone_requests(writes, n).len(),
        ),
    decreases n,
{
    if n > 0 {
        law_wired_flush_makes_all_requests(s, writes, (n - 1) as nat);
        let a = zone_requests(writes, (n - 1) as nat);
        lemma_run_colors(s, a, writes[n - 1], writes[n - 1].zones.len());
    }
}

/// That a list of zones holds what a map does, each zone once.
pub open spec fn lists(zones: Seq<(u8, Seq<[u8; 3]>)>, m: Map<u8, Seq<[u8; 3]>>) -> bool {
    &&& forall|i: int, j: int|
        0 <= i < j < zones.len() ==> (#[trigger] zones[i]).0 != (#[trigger] zones[j]).0
    &&& forall|j: int|
        0 <= j < zones.len() ==> m.contains_key((#[trigger] zones[j]).0) && m[zones[j].0]
            == zones[j].1
    &&& forall|z: u8| #[trigger] m.contains_key(z) ==> zones.contains((z, m[z]))
}

/// That no device occurs twice in a list of writes.
pub open spec fn distinct_devices(writes: Seq<DeviceWriteView>) -> bool {
    forall|i: int, j: int|
        0 <= i < j < writes.len() ==> (#[trigger] writes[i]).device_id != (
        #[trigger] writes[j]).device_id
}

proof fn lemma_zone_list(zones: VecMap<u8, Vec<[u8; 3]>>)
    requires
        zones.wf(),
    ensures
        lists(zone_list(zones), zones_view(zones)),
{
    let l = zone_list(zones);
    let m = zones_view(zones);
    assert forall|j: int| 0 <= j < l.len() implies m.contains_key((#[trigger] l[j]).0) && m[l[j].0]
        == l[j].1 by {
        lemma_zip_at(zones.ids(), zones.vals(), j);
    }
    assert forall|z: u8| #[trigger] m.contains_key(z) implies l.contains((z, m[z])) by {
        let j = zones.ids().index_of(z);
        assert(0 <= j < zones.ids().len() && zones.ids()[j] == z);
        lemma_zip_at(zones.ids(), zones.vals(), j);
        assert(l[j] == (z, m[z]));
    }
}

/// The pending writes as a list hold what the buffer holds, each device once.
proof fn lemma_write_list(p: PendingColors)
    requires
        pending_wf(p),
    ensures
        distinct_devices(write_list(p)),
        forall|i: int|
            0 <= i < write_list(p).len() ==> {
                let w = #[trigger] write_list(p)[i];
                pending_view(p).contains_key(w.device_id) && lists(
                    w.zones,
                    pending_view(p)[w.device_id],
                )
            },
        forall|id: Seq<char>| #[trigger]
            pending_view(p).contains_key(id) ==> exists|i: int|
                0 <= i < write_list(p).len() && (#[trigger] write_list(p)[i]).device_id == id,
{
    let l = write_list(p);
    assert forall|i: int| 0 <= i < l.len() implies {
        let w = #[trigger] l[i];
        pending_view(p).contains_key(w.device_id) && lists(w.zones, pending_view(p)[w.device_id])
    } by {
        lemma_zip_at(p.ids(), p.vals(), i);
        assert(p@.contains_key(p.ids()[i]) && p@[p.ids()[i]].wf());
        lemma_zone_list(p.vals()[i]);
    }
    assert forall|id: Seq<char>| #[trigger] pending_view(p).contains_key(id) implies exists|i: int|
        0 <= i < l.len() && (#[trigger] l[i]).device_id == id by {
        let i = p.ids().index_of(id);
        assert(0 <= i < p.ids().len() && p.ids()[i] == id);
        assert(l[i].device_id == id);
    }
}

proof fn lemma_filter_distinct(
    all: Seq<DeviceWriteView>,
    keep: spec_fn(DeviceWriteView) -> bool,
)
    requires
        distinct_devices(all),
    ensures
        distinct_devices(all.filter(keep)),
    decreases all.len(),
{
    broadcast use vstd::seq_lib::group_filter_ensures;

    reveal(Seq::filter);
    if all.len() > 0 {
        let rest = all.drop_last();
        assert(distinct_devices(rest)) by {
            assert forall|i: int, j: int| 0 <= i < j < rest.len() implies (
            #[trigger] rest[i]).device_id != (#[trigger] rest[j]).device_id by {
                assert(all[i].device_id != all[j].device_id);
            }
        }
        lemma_filter_distinct(rest, keep);
        let f = rest.filter(keep);
        assert forall|i: int, j: int| 0 <= i < j < all.filter(keep).len() implies (
        #[trigger] all.filter(keep)[i]).device_id != (#[trigger] all.filter(keep)[j]).device_id by {
            if j == f.len() {
                assert(f.contains(f[i]));
                rest.lemma_filter_contains_rev(keep, f[i]);
                let k = choose|k: int| 0 <= k < rest.len() && rest[k] == f[i];
                assert(all[k].device_id != all[all.len() - 1].device_id);
            } else {
                assert(f[i].device_id != f[j].device_id);
            }
        }
    }
}

/// Whether two requests write to the same zone, or serve the same bank.
pub open spec fn same_target(a: Request, b: Request) -> bool {
    match (a, b) {
        (
            Request::Zone { device_id: d, zone: y, .. },
            Request::Zone { device_id: e, zone: z, .. },
        ) => d == e && y == z,
        (Request::Bank { device_id: d, .. }, Request::Bank { device_id: e, .. }) => d == e,
        _ => false,
    }
}

proof fn lemma_zone_requests(writes: Seq<DeviceWriteView>, n: nat)
    requires
        n <= writes.len(),
        distinct_devices(writes),
        forall|i: int, a: int, b: int|
            0 <= i < writes.len() && 0 <= a < b < writes[i].zones.len() ==> (
            #[trigger] writes[i].zones[a]).0 != (#[trigger] writes[i].zones[b]).0,
    ensures
        forall|k: int|
            0 <= k < zone_requests(writes, n).len() ==> exists|i: int, j: int|
                0 <= i < n && 0 <= j < writes[i].zones.len() && #[trigger] zone_requests(
                    writes,
                    n,
                )[k] == #[trigger] zone_request(writes[i], j),
        forall|i: int, j: int|
            0 <= i < n && 0 <= j < writes[i].zones.len() ==> zone_requests(writes, n).contains(
                #[trigger] zone_request(writes[i], j),
            ),
        forall|a: int, b: int|
            0 <= a < b < zone_requests(writes, n).len() ==> !same_target(
                #[trigger] zone_requests(writes, n)[a],
                #[trigger] zone_requests(writes, n)[b],
            ),
    decreases n,
{
    if n > 0 {
        lemma_zone_requests(writes, (n - 1) as nat);
        let w = writes[n - 1];
        let front = zone_requests(writes, (n - 1) as nat);
        let back = Seq::new(w.zones.len(), |j: int| zone_request(w, j));
        let rs = zone_requests(writes, n);
        assert(rs == front + back);
        assert forall|k: int| 0 <= k < rs.len() implies exists|i: int, j: int|
            0 <= i < n && 0 <= j < writes[i].zones.len() && #[trigger] rs[k]
                == #[trigger] zone_request(writes[i], j) by {
            if k < front.len() {
                assert(rs[k] == front[k]);
                let (i, j) = choose|i: int, j: int|
                    0 <= i < n - 1 && 0 <= j < writes[i].zones.len() && front[k]
                        == #[trigger] zone_request(writes[i], j);
                assert(rs[k] == zone_request(writes[i], j));
            } else {
                assert(rs[k] == zone_request(writes[n - 1], k - front.len()));
            }
        }
        assert forall|i: int, j: int|
            0 <= i < n && 0 <= j < writes[i].zones.len() implies rs.contains(
            #[trigger] zone_request(writes[i], j),
        ) by {
            if i < n - 1 {
                assert(front.contains(zone_request(writes[i], j)));
                let k = choose|k: int|
                    0 <= k < front.len() && front[k] == zone_request(writes[i], j);
                assert(rs[k] == front[k]);
            } else {
                assert(rs[front.len() + j] == zone_request(w, j));
            }
        }
        assert forall|a: int, b: int| 0 <= a < b < rs.len() implies !same_target(
            #[trigger] rs[a],
            #[trigger] rs[b],
        ) by {
            if b < front.len() {
                assert(rs[a] == front[a] && rs[b] == front[b]);
            } else {
                let jb = b - front.len();
                assert(rs[b] == zone_request(w, jb));
                if a < front.len() {
                    assert(rs[a] == front[a]);
                    let (i, j) = choose|i: int, j: int|
                        0 <= i < n - 1 && 0 <= j < writes[i].zones.len() && front[a]
                            == #[trigger] zone_request(writes[i], j);
                    assert(writes[i].device_id != writes[n - 1].device_id);
                } else {
                    let ja = a - front.len();
                    assert(rs[a] == zone_request(w, ja));
                    assert(writes[n - 1].zones[ja].0 != writes[n - 1].zones[jb].0);
                }
            }
        }
    }
}

/// A turn serves everything that is pending, once, the wired devices before
/// any bank: each pending zone of a device that is no bank gets one request
/// with its colors, then each bank one request with all of its pending zones,
/// and nothing else is asked.
pub proof fn law_turn_serves_everything_once(p: PendingColors, banks: Set<Seq<char>>)
    requires
        pending_wf(p),
    ensures
        ({
            let rs = turn_requests(turn_of(p, banks));
            let pending = pending_view(p);
            &&& forall|a: int, b: int|
                0 <= a < b < rs.len() && #[trigger] rs[b] is Zone ==> #[trigger] rs[a] is Zone
            &&& forall|a: int, b: int|
                0 <= a < b < rs.len() ==> !same_target(#[trigger] rs[a], #[trigger] rs[b])
            &&& forall|k: int|
                0 <= k < rs.len() ==> match #[trigger] rs[k] {
                    Request::Zone { device_id, zone, colors } => {
                        &&& !banks.contains(device_id)
                        &&& pending.contains_key(device_id)
                        &&& pending[device_id].contains_key(zone)
                        &&& pending[device_id][zone] == colors
                    },
                    Request::Bank { device_id, zones } => {
                        &&& banks.contains(device_id)
                        &&& pending.contains_key(device_id)
                        &&& lists(zones, pending[device_id])
                    },
                }
            &&& forall|id: Seq<char>, zone: u8|
                pending.contains_key(id) && #[trigger] pending[id].contains_key(zone)
                    && !banks.contains(id) ==> rs.contains(
                    Request::Zone { device_id: id, zone, colors: pending[id][zone] },
                )
            &&& forall|id: Seq<char>| #[trigger]
                pending.contains_key(id) && banks.contains(id) ==> exists|k: int|
                    0 <= k < rs.len() && #[trigger] rs[k] is Bank && rs[k]->Bank_device_id == id
        }),
{
    broadcast use vstd::seq_lib::group_filter_ensures;

    let all = write_list(p);
    let pending = pending_view(p);
    let is_wired = |w: DeviceWriteView| !banks.contains(w.device_id);
    let is_bank = |w: DeviceWriteView| banks.contains(w.device_id);
    let t = turn_of(p, banks);
    let n = t.wired.len();
    let front = zone_requests(t.wired, n);
    let back = Seq::new(
        t.banks.len(),
        |i: int| Request::Bank { device_id: t.banks[i].device_id, zones: t.banks[i].zones },
    );
    let rs = turn_requests(t);
    assert(rs == front + back);
    lemma_write_list(p);
    lemma_filter_distinct(all, is_wired);
    lemma_filter_distinct(all, is_bank);
    assert forall|i: int| 0 <= i < t.wired.len() implies !banks.contains(
        (#[trigger] t.wired[i]).device_id,
    ) && pending.contains_key(t.wired[i].device_id) && lists(
        t.wired[i].zones,
        pending[t.wired[i].device_id],
    ) by {
        assert(is_wired(t.wired[i]));
        assert(t.wired.contains(t.wired[i]));
        all.lemma_filter_contains_rev(is_wired, t.wired[i]);
        let k = choose|k: int| 0 <= k < all.len() && all[k] == t.wired[i];
        assert(pending.contains_key(all[k].device_id));
    }
    assert forall|i: int| 0 <= i < t.banks.len() implies banks.contains(
        (#[trigger] t.banks[i]).device_id,
    ) && pending.contains_key(t.banks[i].device_id) && lists(
        t.banks[i].zones,
        pending[t.banks[i].device_id],
    ) by {
        assert(is_bank(t.banks[i]));
        assert(t.banks.contains(t.banks[i]));
        all.lemma_filter_contains_rev(is_bank, t.banks[i]);
        let k = choose|k: int| 0 <= k < all.len() && all[k] == t.banks[i];
        assert(pending.contains_key(all[k].device_id));
    }
    lemma_zone_requests(t.wired, n);
    assert forall|k: int| 0 <= k < rs.len() implies match #[trigger] rs[k] {
        Request::Zone { device_id, zone, colors } => {
            &&& k < front.len()
            &&& !banks.contains(device_id)
            &&& pending.contains_key(device_id)
            &&& pending[device_id].contains_key(zone)
            &&& pending[device_id][zone] == colors
        },
        Request::Bank { device_id, zones } => {
            &&& k >= front.len()
            &&& banks.contains(device_id)
            &&& pending.contains_key(device_id)
            &&& lists(zones, pending[device_id])
        },
    } by {
        if k < front.len() {
            assert(rs[k] == front[k]);
            let (i, j) = choose|i: int, j: int|
                0 <= i < n && 0 <= j < t.wired[i].zones.len() && front[k]
                    == #[trigger] zone_request(t.wired[i], j);
            let w = t.wired[i];
            assert(pending[w.device_id].contains_key(w.zones[j].0));
        } else {
            assert(rs[k] == back[k - front.len()]);
            assert(banks.contains(t.banks[k - front.len()].device_id));
        }
    }
    assert forall|a: int, b: int| 0 <= a < b < rs.len() implies !same_target(
        #[trigger] rs[a],
        #[trigger] rs[b],
    ) by {
        if b < front.len() {
            assert(rs[a] == front[a] && rs[b] == front[b]);
        } else if a >= front.len() {
            let x = a - front.len();
            let y = b - front.len();
            assert(t.banks[x].device_id != t.banks[y].device_id);
        }
    }
    assert forall|id: Seq<char>, zone: u8|
        pending.contains_key(id) && #[trigger] pending[id].contains_key(zone) && !banks.contains(
            id,
        ) implies rs.contains(
        Request::Zone { device_id: id, zone, colors: pending[id][zone] },
    ) by {
        let k = choose|k: int| 0 <= k < all.len() && (#[trigger] all[k]).device_id == id;
        assert(is_wired(all[k]));
        assert(t.wired.contains(all[k]));
        let i = choose|i: int| 0 <= i < t.wired.len() && t.wired[i] == all[k];
        let w = t.wired[i];
        assert(w.zones.contains((zone, pending[id][zone])));
        let j = choose|j: int|
            0 <= j < w.zones.len() && w.zones[j] == (zone, pending[id][zone]);
        let r = zone_request(t.wired[i], j);
        assert(front.contains(r));
        let q = choose|q: int| 0 <= q < front.len() && front[q] == r;
        assert(rs[q] == r);
    }
    assert forall|id: Seq<char>| #[trigger]
        pending.contains_key(id) && banks.contains(id) implies exists|k: int|
        0 <= k < rs.len() && #[trigger] rs[k] is Bank && rs[k]->Bank_device_id == id by {
        let k = choose|k: int| 0 <= k < all.len() && (#[trigger] all[k]).device_id == id;
        assert(is_bank(all[k]));
        assert(t.banks.contains(all[k]));
        let i = choose|i: int| 0 <= i < t.banks.len() && t.banks[i] == all[k];
        let q = front.len() + i;
        assert(rs[q] == back[i]);
        assert(rs[q] is Bank && rs[q]->Bank_device_id == id);
    }
}

} // verus!
