//! What holds of the lighting controller as a whole.

use vstd::prelude::*;
use crate::action::{ActionView, ErrorView};
use crate::bank::{min_int, BankView};
use crate::bank_laws::{
    law_bank_stays_wf, law_colors_read_back, law_other_zones_untouched,
    law_refused_iff_out_of_range,
};
use crate::capabilities::{led_sum, part_info, zone_info, zone_infos, ZoneInfoView};
use crate::config::{ConfigView, DeviceConfigView, PresetView, PresetZoneView};
use crate::effect::{all_black, BreathingTable, EffectView};
use crate::fan_type::Layout;
use crate::mac::bank_id;
use crate::model::{
    find_preset, ControllerView, WirelessBankView, WIRELESS_RESYNC_MIN_INTERVAL,
};
use crate::zones::law_zone_in_bounds;
use vstd::arithmetic::div_mod::lemma_fundamental_div_mod_converse;

verus! {

/// Whether `i` is the first of the zones, up to `n`, that the bank does not
/// have.
pub open spec fn first_refused(b: BankView, zones: Seq<u8>, n: int, i: int) -> bool {
    let total = b.layout.total_zones(b.fan_count as nat);
    &&& 0 <= i < n
    &&& zones[i] >= total
    &&& forall|j: int| 0 <= j < i ==> #[trigger] zones[j] < total
}

/// The zones of a list of color writes.
pub open spec fn written_zones(zones: Seq<(u8, Seq<[u8; 3]>)>) -> Seq<u8> {
    zones.map_values(|z: (u8, Seq<[u8; 3]>)| z.0)
}

/// The state after an effect has been set on the first `n` of `zones`, one
/// after the other.
pub open spec fn effects_one_by_one(
    s: ControllerView,
    table: BreathingTable,
    id: Seq<char>,
    zones: Seq<u8>,
    e: EffectView,
    n: nat,
) -> ControllerView
    decreases n,
{
    if n == 0 {
        s
    } else {
        effects_one_by_one(s, table, id, zones, e, (n - 1) as nat).set_effect(
            table,
            id,
            zones[n - 1],
            e,
        ).0
    }
}

proof fn lemma_effect_batch(
    s: ControllerView,
    table: BreathingTable,
    id: Seq<char>,
    zones: Seq<u8>,
    e: EffectView,
    n: nat,
)
    requires
        s.is_bank(id),
        s.banks[id].wf(),
        n <= zones.len(),
    ensures
        effects_one_by_one(s, table, id, zones, e, n) == s.with_bank(
            id,
            s.banks[id].effect_batch(zones, e, n).bank,
        ),
        s.banks[id].effect_batch(zones, e, n).bank.wf(),
        s.banks[id].effect_batch(zones, e, n).bank.layout == s.banks[id].layout,
        s.banks[id].effect_batch(zones, e, n).bank.fan_count == s.banks[id].fan_count,
        s.banks[id].effect_batch(zones, e, n).applied <==> exists|i: int|
            0 <= i < n && #[trigger] zones[i] < s.banks[id].layout.total_zones(
                s.banks[id].fan_count as nat,
            ),
        s.banks[id].effect_batch(zones, e, n).first_error is Some <==> exists|i: int|
            0 <= i < n && #[trigger] zones[i] >= s.banks[id].layout.total_zones(
                s.banks[id].fan_count as nat,
            ),
        s.banks[id].effect_batch(zones, e, n).first_error matches Some(err) ==> exists|i: int|
            #[trigger] first_refused(s.banks[id], zones, n as int, i) && err == s.banks[id].zone_error(
                zones[i],
            ),
    decreases n,
{
    let b = s.banks[id];
    let total = b.layout.total_zones(b.fan_count as nat);
    if n == 0 {
        assert(s =~= s.with_bank(id, b));
    } else {
        lemma_effect_batch(s, table, id, zones, e, (n - 1) as nat);
        let batch = b.effect_batch(zones, e, (n - 1) as nat);
        let z = zones[n - 1];
        law_bank_stays_wf(batch.bank, z, e, Seq::empty());
        law_refused_iff_out_of_range(batch.bank, z, e, Seq::empty());
        let prev = effects_one_by_one(s, table, id, zones, e, (n - 1) as nat);
        let now = effects_one_by_one(s, table, id, zones, e, n);
        assert(prev.banks[id] == batch.bank);
        assert(now =~= s.with_bank(id, b.effect_batch(zones, e, n).bank));
        if batch.first_error is Some {
            let i = choose|i: int| #[trigger]
                first_refused(b, zones, n - 1, i) && batch.first_error->0 == b.zone_error(zones[i]);
            assert(first_refused(b, zones, n as int, i));
        } else if z >= total {
            assert(first_refused(b, zones, n as int, n - 1));
        }
    }
}

/// Setting an effect on several zones of a bank at once comes to the same as
/// setting it on one after the other, but for the uploads: at most one is
/// made, of the final state, and it is made if any zone took the effect. If
/// any zone was refused, the first refusal is reported.
pub proof fn law_effect_batch(
    s: ControllerView,
    table: BreathingTable,
    id: Seq<char>,
    zones: Seq<u8>,
    e: EffectView,
)
    requires
        s.wf(),
        s.is_bank(id),
    ensures
        ({
            let (after, actions, refused) = s.set_effect_zones(table, id, zones, e);
            let total = s.banks[id].layout.total_zones(s.banks[id].fan_count as nat);
            &&& after == effects_one_by_one(s, table, id, zones, e, zones.len())
            &&& actions.len() <= 1
            &&& actions.len() == 1 <==> exists|i: int|
                0 <= i < zones.len() && #[trigger] zones[i] < total
            &&& actions.len() == 1 ==> actions[0] == after.banks[id].upload(table)
            &&& refused is Some <==> exists|i: int|
                0 <= i < zones.len() && #[trigger] zones[i] >= total
            &&& refused matches Some(err) ==> exists|i: int| #[trigger]
                first_refused(s.banks[id], zones, zones.len() as int, i) && err
                    == s.banks[id].zone_error(zones[i])
        }),
{
    lemma_effect_batch(s, table, id, zones, e, zones.len());
}

/// The state after the first `n` of a list of color writes, one after the
/// other.
pub open spec fn colors_one_by_one(
    s: ControllerView,
    id: Seq<char>,
    zones: Seq<(u8, Seq<[u8; 3]>)>,
    n: nat,
) -> ControllerView
    decreases n,
{
    if n == 0 {
        s
    } else {
        colors_one_by_one(s, id, zones, (n - 1) as nat).set_direct_colors(
            id,
            zones[n - 1].0,
            zones[n - 1].1,
        ).0
    }
}

proof fn lemma_color_batch(
    s: ControllerView,
    id: Seq<char>,
    zones: Seq<(u8, Seq<[u8; 3]>)>,
    n: nat,
)
    requires
        s.is_bank(id),
        s.banks[id].wf(),
        n <= zones.len(),
    ensures
        colors_one_by_one(s, id, zones, n) == s.with_bank(id, s.banks[id].color_batch(zones, n).bank),
        s.banks[id].color_batch(zones, n).bank.wf(),
        s.banks[id].color_batch(zones, n).bank.layout == s.banks[id].layout,
        s.banks[id].color_batch(zones, n).bank.fan_count == s.banks[id].fan_count,
        s.banks[id].color_batch(zones, n).applied <==> exists|i: int|
            0 <= i < n && (#[trigger] zones[i]).0 < s.banks[id].layout.total_zones(
                s.banks[id].fan_count as nat,
            ),
        s.banks[id].color_batch(zones, n).first_error is Some <==> exists|i: int|
            0 <= i < n && (#[trigger] zones[i]).0 >= s.banks[id].layout.total_zones(
                s.banks[id].fan_count as nat,
            ),
        s.banks[id].color_batch(zones, n).first_error matches Some(err) ==> exists|i: int|
            #[trigger] first_refused(s.banks[id], written_zones(zones), n as int, i) && err
                == s.banks[id].zone_error(zones[i].0),
    decreases n,
{
    let b = s.banks[id];
    let total = b.layout.total_zones(b.fan_count as nat);
    let names = written_zones(zones);
    if n == 0 {
        assert(s =~= s.with_bank(id, b));
    } else {
        lemma_color_batch(s, id, zones, (n - 1) as nat);
        let batch = b.color_batch(zones, (n - 1) as nat);
        let z = zones[n - 1];
        law_bank_stays_wf(batch.bank, z.0, arbitrary(), z.1);
        law_refused_iff_out_of_range(batch.bank, z.0, arbitrary(), z.1);
        let prev = colors_one_by_one(s, id, zones, (n - 1) as nat);
        let now = colors_one_by_one(s, id, zones, n);
        assert(prev.banks[id] == batch.bank);
        assert(now =~= s.with_bank(id, b.color_batch(zones, n).bank));
        if batch.first_error is Some {
            let i = choose|i: int| #[trigger]
                first_refused(b, names, n - 1, i) && batch.first_error->0 == b.zone_error(
                    zones[i].0,
                );
            assert(first_refused(b, names, n as int, i));
        } else if z.0 >= total {
            assert forall|j: int| 0 <= j < n - 1 implies #[trigger] names[j] < total by {
                assert(names[j] == zones[j].0);
            }
            assert(first_refused(b, names, n as int, n - 1));
        }
    }
}

/// Writing colors to several zones of a bank at once comes to the same as
/// writing to one after the other, but for the uploads: at most one is made,
/// of the final state, and it is made if any zone took its colors. If any
/// zone was refused, the first refusal is reported.
pub proof fn law_color_batch(
    s: ControllerView,
    id: Seq<char>,
    zones: Seq<(u8, Seq<[u8; 3]>)>,
    one_shot: bool,
)
    requires
        s.wf(),
        s.is_bank(id),
    ensures
        ({
            let (after, actions, refused) = s.apply_direct_zones(id, zones, one_shot);
            let total = s.banks[id].layout.total_zones(s.banks[id].fan_count as nat);
            &&& after == colors_one_by_one(s, id, zones, zones.len())
            &&& actions.len() <= 1
            &&& actions.len() == 1 <==> exists|i: int|
                0 <= i < zones.len() && (#[trigger] zones[i]).0 < total
            &&& actions.len() == 1 ==> actions[0] == after.banks[id].direct_upload(
                if one_shot {
                    8
                } else {
                    2
                },
            )
            &&& refused is Some <==> exists|i: int|
                0 <= i < zones.len() && (#[trigger] zones[i]).0 >= total
            &&& refused matches Some(err) ==> exists|i: int| #[trigger]
                first_refused(s.banks[id], written_zones(zones), zones.len() as int, i) && err
                    == s.banks[id].zone_error(zones[i].0)
        }),
{
    lemma_color_batch(s, id, zones, zones.len());
}

/// Colors written to a zone of a bank are what the controller then reports
/// for it, as far as the zone reaches, and no other zone of any bank reports
/// anything else than before.
pub proof fn law_write_then_read(
    s: ControllerView,
    id: Seq<char>,
    zone: u8,
    colors: Seq<[u8; 3]>,
    other_id: Seq<char>,
    other_zone: u8,
)
    requires
        s.wf(),
        s.is_bank(id),
        s.zone_colors(id, zone) is Some,
    ensures
        ({
            let (after, answer) = s.set_direct_colors(id, zone, colors);
            let len = s.zone_colors(id, zone)->0.len();
            &&& answer is Ok
            &&& after.zone_colors(id, zone) == Some(
                if colors.len() < len {
                    colors + s.zone_colors(id, zone)->0.skip(colors.len() as int)
                } else {
                    colors.take(len as int)
                },
            )
            &&& (other_id != id || other_zone != zone) ==> after.zone_colors(other_id, other_zone)
                == s.zone_colors(other_id, other_zone)
        }),
{
    let b = s.banks[id];
    let e: EffectView = arbitrary();
    law_refused_iff_out_of_range(b, zone, e, colors);
    law_colors_read_back(b, zone, colors);
    if other_zone != zone {
        law_other_zones_untouched(b, zone, other_zone, e, colors);
    }
}

/// Requests for a name that no device has change nothing and are refused by
/// that name; so are requests for banks while there is no radio.
pub proof fn law_unknown_device(
    s: ControllerView,
    table: BreathingTable,
    id: Seq<char>,
    zone: u8,
    e: EffectView,
    colors: Seq<[u8; 3]>,
)
    requires
        !s.wired.contains_key(id),
        !s.wireless || !s.banks.contains_key(id),
    ensures
        s.set_effect(table, id, zone, e) == (
            s,
            Err::<ActionView, ErrorView>(ErrorView::DeviceNotFound { device_id: id }),
        ),
        s.set_direct_colors(id, zone, colors) == (
            s,
            Err::<ActionView, ErrorView>(ErrorView::DeviceNotFound { device_id: id }),
        ),
{
}

/// That a run of requests has changed nothing but the banks.
pub open spec fn only_banks_changed(s: ControllerView, t: ControllerView) -> bool {
    t == ControllerView { banks: t.banks, ..s }
}

proof fn lemma_run_zones(
    s: ControllerView,
    table: BreathingTable,
    d: DeviceConfigView,
    n: nat,
    out: Seq<Result<ActionView, ErrorView>>,
)
    ensures
        only_banks_changed(s, s.run_zones(table, d, n, out).state),
    decreases n,
{
    if n > 0 {
        lemma_run_zones(s, table, d, (n - 1) as nat, out);
    }
}

proof fn lemma_run_preset(
    s: ControllerView,
    id: Seq<char>,
    zones: Seq<PresetZoneView>,
    n: nat,
    out: Seq<Result<ActionView, ErrorView>>,
)
    ensures
        only_banks_changed(s, s.run_preset(id, zones, n, out).state),
    decreases n,
{
    if n > 0 {
        lemma_run_preset(s, id, zones, (n - 1) as nat, out);
    }
}

proof fn lemma_run_devices(
    s: ControllerView,
    table: BreathingTable,
    presets: Seq<PresetView>,
    devices: Seq<DeviceConfigView>,
    n: nat,
)
    ensures
        only_banks_changed(s, s.run_devices(table, presets, devices, n).state),
    decreases n,
{
    if n > 0 {
        lemma_run_devices(s, table, presets, devices, (n - 1) as nat);
        let r = s.run_devices(table, presets, devices, (n - 1) as nat);
        let d = devices[n - 1];
        lemma_run_zones(r.state, table, d, d.zones.len(), r.out);
        let q = r.state.run_zones(table, d, d.zones.len(), r.out);
        if let Some(name) = d.active_preset {
            if let Some(p) = find_preset(presets, name, d.device_id, 0) {
                lemma_run_preset(q.state, d.device_id, p.zones, p.zones.len(), q.out);
            }
        }
    }
}

/// A configuration is stored whatever it says. Where lighting is off or in
/// the hands of OpenRGB, it is not applied: nothing is sent, and no bank
/// changes. Otherwise nothing but the banks changes.
pub proof fn law_config_is_stored(
    s: ControllerView,
    table: BreathingTable,
    config: ConfigView,
    presets: Seq<PresetView>,
)
    ensures
        ({
            let r = s.apply_config(table, config, presets);
            &&& r.state == ControllerView {
                config: Some(config),
                presets,
                banks: r.state.banks,
                ..s
            }
            &&& !config.enabled || config.openrgb_server || s.openrgb_active ==> {
                &&& r.out.len() == 0
                &&& r.state.banks == s.banks
            }
        }),
{
    let t = ControllerView { config: Some(config), presets, ..s };
    lemma_run_devices(t, table, presets, config.devices, config.devices.len());
}

/// An OpenRGB client that comes and goes leaves the stored configuration in
/// force: when it goes, that is applied as if it had just come in. Where the
/// OpenRGB server is on, the lights stay as the client left them.
pub proof fn law_openrgb_comes_and_goes(s: ControllerView, table: BreathingTable)
    requires
        !s.openrgb_active,
    ensures
        ({
            let taken = s.set_openrgb_active(table, true);
            let back = taken.state.set_openrgb_active(table, false);
            &&& taken.out.len() == 0
            &&& taken.state.banks == s.banks
            &&& s.config matches Some(c) ==> {
                &&& !c.openrgb_server ==> back == s.apply_config(table, c, s.presets)
                &&& c.openrgb_server ==> back.out.len() == 0 && back.state == s
            }
            &&& s.config is None ==> back.out.len() == 0 && back.state == s
        }),
{
    let taken = s.set_openrgb_active(table, true);
    assert((ControllerView { openrgb_active: false, ..taken.state }) =~= s);
}

/// Saying again who has the lights does nothing.
pub proof fn law_openrgb_repeated(s: ControllerView, table: BreathingTable)
    ensures
        s.set_openrgb_active(table, s.openrgb_active).state == s,
        s.set_openrgb_active(table, s.openrgb_active).out.len() == 0,
{
    assert(s.set_openrgb_active(table, s.openrgb_active).state =~= s);
}

/// The state of the restoring after the first `n` banks of a walk: banks and
/// settings are as before, every bank that was due has gone out, and the
/// others keep their times.
pub proof fn lemma_resync(
    s: ControllerView,
    table: BreathingTable,
    order: Seq<Seq<char>>,
    macs: Seq<[u8; 6]>,
    now: u64,
    n: nat,
)
    requires
        s.wf(),
        n <= order.len(),
        order.no_duplicates(),
        forall|i: int| 0 <= i < order.len() ==> s.banks.contains_key(#[trigger] order[i]),
    ensures
        s.resync(table, order, macs, now, n).0 == (ControllerView {
            resync_at: s.resync(table, order, macs, now, n).0.resync_at,
            ..s
        }),
        s.resync(table, order, macs, now, n).1 == order.take(n as int).filter(
            |id: Seq<char>| s.resync_due(id, macs, now),
        ).map_values(|id: Seq<char>| s.banks[id].upload(table)),
        forall|i: int|
            0 <= i < n && s.resync_due(#[trigger] order[i], macs, now) ==> {
                let at = s.resync(table, order, macs, now, n).0.resync_at;
                &&& at.contains_key(s.banks[order[i]].mac)
                &&& at[s.banks[order[i]].mac] == now
            },
        forall|m: [u8; 6]|
            (forall|i: int|
                0 <= i < n && s.resync_due(#[trigger] order[i], macs, now) ==> s.banks[order[i]].mac
                    != m) ==> {
                &&& #[trigger] s.resync(table, order, macs, now, n).0.resync_at.contains_key(m)
                    == s.resync_at.contains_key(m)
                &&& s.resync_at.contains_key(m) ==> s.resync(
                    table,
                    order,
                    macs,
                    now,
                    n,
                ).0.resync_at[m] == s.resync_at[m]
            },
    decreases n,
{
    let due = |id: Seq<char>| s.resync_due(id, macs, now);
    let up = |id: Seq<char>| s.banks[id].upload(table);
    reveal(Seq::filter);
    if n == 0 {
        assert(order.take(0).filter(due).map_values(up) =~= Seq::empty());
        assert(s =~= (ControllerView { resync_at: s.resync_at, ..s }));
    } else {
        lemma_resync(s, table, order, macs, now, (n - 1) as nat);
        let (t, out) = s.resync(table, order, macs, now, (n - 1) as nat);
        let id = order[n - 1];
        let mac = s.banks[id].mac;
        assert forall|i: int| 0 <= i < n - 1 implies s.banks[#[trigger] order[i]].mac != mac by {
            assert(s.banks.contains_key(order[i]) && s.banks.contains_key(id));
            assert(order[i] != order[n - 1]);
        }
        assert(t.resync_at.contains_key(mac) == s.resync_at.contains_key(mac));
        assert(t.resync_due(id, macs, now) == s.resync_due(id, macs, now));
        assert(order.take(n as int).drop_last() =~= order.take(n - 1));
        let before = order.take(n - 1).filter(due);
        if due(id) {
            assert(order.take(n as int).filter(due) =~= before.push(id));
            assert(before.push(id).map_values(up) =~= before.map_values(up).push(up(id)));
        } else {
            assert(order.take(n as int).filter(due) =~= before);
        }
        let after = s.resync(table, order, macs, now, n).0;
        assert forall|m: [u8; 6]|
            (forall|i: int|
                0 <= i < n && s.resync_due(#[trigger] order[i], macs, now) ==> s.banks[order[i]].mac
                    != m) implies {
            &&& #[trigger] after.resync_at.contains_key(m) == s.resync_at.contains_key(m)
            &&& s.resync_at.contains_key(m) ==> after.resync_at[m] == s.resync_at[m]
        } by {
            assert(t.resync_at.contains_key(m) == s.resync_at.contains_key(m));
            if due(id) {
                assert(s.resync_due(order[n - 1], macs, now));
            }
        }
    }
}

/// Restoring changes nothing but the times at which banks were restored,
/// whatever the order of the walk.
pub proof fn law_resync_leaves_banks(
    s: ControllerView,
    table: BreathingTable,
    order: Seq<Seq<char>>,
    macs: Seq<[u8; 6]>,
    now: u64,
    n: nat,
)
    ensures
        s.resync(table, order, macs, now, n).0 == (ControllerView {
            resync_at: s.resync(table, order, macs, now, n).0.resync_at,
            ..s
        }),
    decreases n,
{
    if n > 0 {
        law_resync_leaves_banks(s, table, order, macs, now, (n - 1) as nat);
    }
}

/// Restoring sends again exactly what the banks show that are due: they have
/// drifted, something has been lit on them, and the last time is long enough
/// ago. It changes no bank.
pub proof fn law_resync_sends_due_banks(
    s: ControllerView,
    table: BreathingTable,
    order: Seq<Seq<char>>,
    macs: Seq<[u8; 6]>,
    now: u64,
)
    requires
        s.wf(),
        order.no_duplicates(),
        forall|i: int| 0 <= i < order.len() ==> s.banks.contains_key(#[trigger] order[i]),
    ensures
        s.resync(table, order, macs, now, order.len()).1 == order.filter(
            |id: Seq<char>| s.resync_due(id, macs, now),
        ).map_values(|id: Seq<char>| s.banks[id].upload(table)),
        s.resync(table, order, macs, now, order.len()).0 == (ControllerView {
            resync_at: s.resync(table, order, macs, now, order.len()).0.resync_at,
            ..s
        }),
{
    lemma_resync(s, table, order, macs, now, order.len());
    assert(order.take(order.len() as int) =~= order);
}

/// A bank that was restored is not restored again within the least interval,
/// whatever drifts and whatever has been set meanwhile.
pub proof fn law_resync_rate(
    s: ControllerView,
    table: BreathingTable,
    order: Seq<Seq<char>>,
    macs: Seq<[u8; 6]>,
    now: u64,
    id: Seq<char>,
    later_state: ControllerView,
    later_macs: Seq<[u8; 6]>,
    later: u64,
)
    requires
        s.wf(),
        order.no_duplicates(),
        forall|i: int| 0 <= i < order.len() ==> s.banks.contains_key(#[trigger] order[i]),
        order.contains(id),
        s.resync_due(id, macs, now),
        later_state.resync_at == s.resync(table, order, macs, now, order.len()).0.resync_at,
        later_state.banks[id].mac == s.banks[id].mac,
        later - now < WIRELESS_RESYNC_MIN_INTERVAL,
    ensures
        !later_state.resync_due(id, later_macs, later),
{
    lemma_resync(s, table, order, macs, now, order.len());
    let i = choose|i: int| 0 <= i < order.len() && order[i] == id;
    assert(s.resync_due(order[i], macs, now));
}

/// No request but that for restoring touches the times at which banks were
/// restored.
pub proof fn law_resync_times_stay(
    s: ControllerView,
    table: BreathingTable,
    id: Seq<char>,
    zone: u8,
    zones: Seq<u8>,
    e: EffectView,
    colors: Seq<[u8; 3]>,
    writes: Seq<(u8, Seq<[u8; 3]>)>,
    flag: bool,
    config: ConfigView,
    presets: Seq<PresetView>,
    found: Seq<WirelessBankView>,
)
    ensures
        s.set_effect(table, id, zone, e).0.resync_at == s.resync_at,
        s.set_effect_zones(table, id, zones, e).0.resync_at == s.resync_at,
        s.set_direct_colors(id, zone, colors).0.resync_at == s.resync_at,
        s.apply_direct_zones(id, writes, flag).0.resync_at == s.resync_at,
        s.apply_config(table, config, presets).state.resync_at == s.resync_at,
        s.set_openrgb_active(table, flag).state.resync_at == s.resync_at,
        s.refresh(found).resync_at == s.resync_at,
{
    law_config_is_stored(s, table, config, presets);
    if let Some(c) = s.config {
        law_config_is_stored(ControllerView { openrgb_active: flag, ..s }, table, c, s.presets);
    }
}

/// Whether a bank is restored does not depend on the configuration, nor on
/// who has the lights.
pub proof fn law_resync_ignores_openrgb(
    s: ControllerView,
    id: Seq<char>,
    macs: Seq<[u8; 6]>,
    now: u64,
    config: Option<ConfigView>,
    active: bool,
)
    ensures
        (ControllerView { config, openrgb_active: active, ..s }).resync_due(id, macs, now)
            == s.resync_due(id, macs, now),
{
}

/// A bank on which nothing has been lit is never restored: that would only
/// turn it dark.
pub proof fn law_resync_spares_untouched(
    s: ControllerView,
    id: Seq<char>,
    macs: Seq<[u8; 6]>,
    now: u64,
)
    requires
        s.banks[id].is_untouched(),
    ensures
        !s.resync_due(id, macs, now),
{
}

proof fn lemma_refreshed_banks(s: ControllerView, found: Seq<WirelessBankView>, n: nat)
    requires
        n <= found.len(),
    ensures
        forall|id: Seq<char>| #[trigger]
            s.refreshed_banks(found, n).contains_key(id) <==> exists|i: int|
                0 <= i < n && bank_id((#[trigger] found[i]).mac) == id,
        forall|id: Seq<char>| #[trigger]
            s.refreshed_banks(found, n).contains_key(id) ==> exists|i: int|
                0 <= i < n && bank_id((#[trigger] found[i]).mac) == id && s.refreshed_banks(
                    found,
                    n,
                )[id] == s.refreshed(found[i]),
    decreases n,
{
    if n > 0 {
        lemma_refreshed_banks(s, found, (n - 1) as nat);
        let m = s.refreshed_banks(found, (n - 1) as nat);
        let k = s.refreshed_banks(found, n);
        assert forall|id: Seq<char>| #[trigger] k.contains_key(id) <==> exists|i: int|
            0 <= i < n && bank_id((#[trigger] found[i]).mac) == id by {
            if k.contains_key(id) && id != bank_id(found[n - 1].mac) {
                assert(m.contains_key(id));
            }
            if exists|i: int| 0 <= i < n && bank_id((#[trigger] found[i]).mac) == id {
                let i = choose|i: int| 0 <= i < n && bank_id((#[trigger] found[i]).mac) == id;
                if i < n - 1 {
                    assert(m.contains_key(id));
                }
            }
        }
        assert forall|id: Seq<char>| #[trigger] k.contains_key(id) implies exists|i: int|
            0 <= i < n && bank_id((#[trigger] found[i]).mac) == id && k[id] == s.refreshed(
                found[i],
            ) by {
            if id == bank_id(found[n - 1].mac) {
                assert(k[id] == s.refreshed(found[n - 1]));
            } else {
                assert(m.contains_key(id));
                let i = choose|i: int|
                    0 <= i < n - 1 && bank_id((#[trigger] found[i]).mac) == id && m[id]
                        == s.refreshed(found[i]);
                assert(k[id] == s.refreshed(found[i]));
            }
        }
    }
}

/// After a refresh the banks are exactly the devices found. One that was
/// known and has as many LEDs as before keeps their colors, any other is dark;
/// none is animated.
pub proof fn law_refresh(s: ControllerView, found: Seq<WirelessBankView>, id: Seq<char>)
    requires
        s.wf(),
        s.wireless,
    ensures
        s.refresh(found).banks.contains_key(id) <==> exists|i: int|
            0 <= i < found.len() && bank_id((#[trigger] found[i]).mac) == id,
        s.refresh(found).banks.contains_key(id) ==> {
            let b = s.refresh(found).banks[id];
            &&& bank_id(b.mac) == id
            &&& b.effects =~= Map::<u8, EffectView>::empty()
            &&& s.banks.contains_key(id) && s.banks[id].leds.len() == b.leds.len() ==> b.leds
                == s.banks[id].leds
            &&& !(s.banks.contains_key(id) && s.banks[id].leds.len() == b.leds.len()) ==> all_black(
                b.leds,
            )
        },
{
    lemma_refreshed_banks(s, found, found.len());
    if s.refresh(found).banks.contains_key(id) {
        let m = s.refreshed_banks(found, found.len());
        assert(m.contains_key(id));
        let i = choose|i: int|
            0 <= i < found.len() && bank_id((#[trigger] found[i]).mac) == id && m[id]
                == s.refreshed(found[i]);
        assert(s.refresh(found).banks[id] == s.refreshed(found[i]));
    }
}

/// A client that is offered a zone of so many LEDs finds so many LEDs in it,
/// and is offered as many zones as there are.
pub proof fn law_offered_zones_match(l: Layout, fan_count: nat, zone: int)
    requires
        l.wf(),
        0 <= zone,
    ensures
        zone_infos(l, fan_count).len() == l.total_zones(fan_count),
        l.zone_slice(fan_count, zone) matches Some((start, len)) ==> zone_infos(
            l,
            fan_count,
        )[zone].led_count == len,
{
    law_zone_in_bounds(l, fan_count, zone);
}

proof fn lemma_fan_infos_sum(l: Layout, zones: Seq<ZoneInfoView>, from: int, fan: int, k: nat)
    requires
        !l.is_rgb_only(),
        k <= l.sub_zones.len(),
        0 <= from,
        from + k <= zones.len(),
        forall|p: int| 0 <= p < k ==> zones[#[trigger] (from + p)] == part_info(l, fan, p),
    ensures
        led_sum(zones.take(from + k)) == led_sum(zones.take(from)) + l.leds_before(k),
    decreases k,
{
    if k > 0 {
        assert forall|p: int| 0 <= p < k - 1 implies zones[#[trigger] (from + p)] == part_info(
            l,
            fan,
            p,
        ) by {}
        lemma_fan_infos_sum(l, zones, from, fan, (k - 1) as nat);
        assert(zones.take(from + k).drop_last() =~= zones.take(from + k - 1));
        assert(zones[from + (k - 1)] == part_info(l, fan, k - 1));
    }
}

proof fn lemma_fans_sum(l: Layout, fan_count: nat, fans: nat)
    requires
        l.wf(),
        !l.is_rgb_only(),
        fans <= fan_count,
    ensures
        ({
            let shift: int = if l.is_aio() {
                1
            } else {
                0
            };
            let base: int = if l.is_aio() {
                l.pump_led_count as int
            } else {
                0
            };
            &&& 0 <= shift + fans * l.sub_zones.len() <= l.total_zones(fan_count)
            &&& led_sum(zone_infos(l, fan_count).take(shift + fans * l.sub_zones.len())) == base
                + fans * l.leds_before(l.sub_zones.len())
        }),
    decreases fans,
{
    let shift: int = if l.is_aio() {
        1
    } else {
        0
    };
    let parts = l.sub_zones.len();
    let per_fan = l.leds_before(parts);
    let zones = zone_infos(l, fan_count);
    assert(fans * parts <= fan_count * parts) by (nonlinear_arith)
        requires
            fans <= fan_count,
    ;
    assert(0 <= fans * parts) by (nonlinear_arith);
    if fans == 0 {
        assert(0 * parts == 0 && 0 * per_fan == 0) by (nonlinear_arith);
        if l.is_aio() {
            assert(zones.take(1).drop_last() =~= Seq::empty());
            assert(led_sum(zones.take(1).drop_last()) == 0);
            assert(zones.take(1).last() == zone_info(l, 0));
        } else {
            assert(zones.take(0) =~= Seq::empty());
        }
    } else {
        let f = (fans - 1) as nat;
        lemma_fans_sum(l, fan_count, f);
        assert(fans * parts == f * parts + parts) by (nonlinear_arith)
            requires
                fans == f + 1,
        ;
        assert(fans * per_fan == f * per_fan + per_fan) by (nonlinear_arith)
            requires
                fans == f + 1,
        ;
        let from = shift + f * parts;
        assert forall|p: int| 0 <= p < parts implies zones[#[trigger] (from + p)] == part_info(
            l,
            f as int,
            p,
        ) by {
            lemma_fundamental_div_mod_converse(f * parts + p, parts as int, f as int, p);
        }
        lemma_fan_infos_sum(l, zones, from, f as int, parts);
    }
}

/// Where every LED belongs to a zone, the number of LEDs that a client is
/// offered is the number that the bank has.
pub proof fn law_offered_leds_match(l: Layout, fan_count: nat)
    requires
        l.wf(),
        !l.is_rgb_only() ==> l.leds_before(l.sub_zones.len()) == l.leds_per_fan,
        l.is_aio() || l.is_rgb_only() || l.pump_led_count == 0,
    ensures
        led_sum(zone_infos(l, fan_count)) == l.total_leds(fan_count),
{
    let zones = zone_infos(l, fan_count);
    if l.is_rgb_only() {
        assert(zones.drop_last() =~= Seq::empty());
        assert(led_sum(zones.drop_last()) == 0);
        assert(zones.last() == zone_info(l, 0));
    } else {
        lemma_fans_sum(l, fan_count, fan_count);
        assert(zones.take(zones.len() as int) =~= zones);
    }
}

/// The colors of a list of zones, one after the other.
pub open spec fn joined(zones: Seq<PresetZoneView>) -> Seq<[u8; 3]>
    decreases zones.len(),
{
    if zones.len() == 0 {
        Seq::empty()
    } else {
        joined(zones.drop_last()) + zones.last().colors
    }
}

proof fn lemma_coarse_walk(b: BankView, n: nat)
    requires
        b.wf(),
        n <= 256,
    ensures
        ({
            let zs = b.coarse_zones(n);
            let k = zs.len() as int;
            let per = b.coarse_len();
            &&& k <= n
            &&& forall|i: int|
                0 <= i < k ==> (#[trigger] zs[i]).zone == i && zs[i].effect is None
                    && b.coarse_zone(i) == Some(zs[i].colors)
            &&& k < n ==> k * per >= b.leds.len()
            &&& joined(zs) == b.leds.take(min_int(k * per, b.leds.len() as int))
        }),
    decreases n,
{
    let per = b.coarse_len();
    let len = b.leds.len() as int;
    if n == 0 {
        assert(0 * per == 0) by (nonlinear_arith);
        assert(joined(b.coarse_zones(0)) =~= b.leds.take(0));
    } else {
        lemma_coarse_walk(b, (n - 1) as nat);
        let before = b.coarse_zones((n - 1) as nat);
        let k = before.len() as int;
        let zs = b.coarse_zones(n);
        let z = n - 1;
        assert((z + 1) * per == z * per + per) by (nonlinear_arith);
        assert(0 <= k * per <= z * per) by (nonlinear_arith)
            requires
                0 <= k <= z,
                0 <= per,
        ;
        if k == z {
            if b.coarse_zone(z) is Some {
                assert(zs.drop_last() =~= before);
                assert(joined(zs) =~= b.leds.take(min_int((z + 1) * per, len)));
            }
        } else {
            assert(b.coarse_zone(z) is None);
        }
    }
}

/// The coarse zones of a bank, read all at once, are numbered from zero
/// without a gap, and each has the colors that it has when it is read alone;
/// those left out cannot be read alone either. One after the other they are
/// the LEDs of the bank from the first on, all of them where the device is
/// lights only.
pub proof fn law_coarse_zones_are_the_buffer(s: ControllerView, id: Seq<char>)
    requires
        s.wf(),
        s.banks.contains_key(id),
    ensures
        s.get_all_zone_colors(id) is Some,
        ({
            let b = s.banks[id];
            let zs = s.get_all_zone_colors(id)->0;
            &&& forall|i: int|
                0 <= i < zs.len() ==> {
                    &&& (#[trigger] zs[i]).zone == i
                    &&& zs[i].effect is None
                    &&& s.get_zone_colors(id, zs[i].zone) == Some(zs[i].colors)
                }
            &&& forall|zone: u8|
                zs.len() <= zone < b.coarse_count() ==> #[trigger] s.get_zone_colors(
                    id,
                    zone,
                ) is None
            &&& joined(zs) == b.leds.take(
                min_int(b.coarse_count() * b.coarse_len(), b.leds.len() as int),
            )
            &&& b.layout.is_rgb_only() ==> joined(zs) == b.leds
        }),
{
    let b = s.banks[id];
    let n = b.coarse_count();
    let per = b.coarse_len();
    let len = b.leds.len() as int;
    lemma_coarse_walk(b, n as nat);
    let k = b.coarse_zones(n as nat).len() as int;
    assert(k * per <= n * per) by (nonlinear_arith)
        requires
            k <= n,
            0 <= per,
    ;
    assert forall|zone: u8| k <= zone < n implies #[trigger] s.get_zone_colors(id, zone) is None by {
        assert(k * per <= zone * per) by (nonlinear_arith)
            requires
                k <= zone,
                0 <= per,
        ;
    }
    if b.layout.is_rgb_only() {
        assert(1 * per == per) by (nonlinear_arith);
        assert(b.leds.take(len) =~= b.leds);
    }
}

/// Whether the zones of a device are its fans, or all of it: then the coarse
/// division into zones is the division that requests go by.
pub open spec fn fans_are_zones(l: Layout) -> bool {
    ||| l.is_rgb_only()
    ||| {
        &&& !l.is_aio()
        &&& l.pump_led_count == 0
        &&& l.sub_zones.len() == 1
        &&& l.sub_zones[0].led_count == l.leds_per_fan
    }
}

proof fn lemma_coarse_is_fine(b: BankView, zone: int)
    requires
        b.wf(),
        fans_are_zones(b.layout),
        0 <= zone < b.coarse_count(),
    ensures
        b.slice(zone) == Some((zone * b.coarse_len(), b.coarse_len())),
        zone * b.coarse_len() + b.coarse_len() == (zone + 1) * b.coarse_len() <= b.leds.len(),
        b.coarse_count() * b.coarse_len() == b.leds.len(),
        0 <= zone * b.coarse_len(),
{
    let per = b.coarse_len();
    assert(zone * per + per == (zone + 1) * per) by (nonlinear_arith);
    assert(0 <= zone * per) by (nonlinear_arith)
        requires
            0 <= zone,
            0 <= per,
    ;
    if b.layout.is_rgb_only() {
        assert(zone == 0);
        assert(1 * per == per && 0 * per == 0) by (nonlinear_arith);
    } else {
        let n = b.fan_count as int;
        assert((zone + 1) * per <= n * per) by (nonlinear_arith)
            requires
                zone + 1 <= n,
                0 <= per,
        ;
        assert(n * 1 == n) by (nonlinear_arith);
        assert(b.layout.leds_before(0) == 0);
        assert(zone / 1 == zone && zone % 1 == 0);
    }
}

proof fn lemma_coarse_zones(b: BankView, n: nat)
    requires
        b.wf(),
        fans_are_zones(b.layout),
        b.coarse_len() > 0,
        n <= b.coarse_count(),
    ensures
        b.coarse_zones(n).len() == n,
        forall|i: int|
            0 <= i < n ==> (#[trigger] b.coarse_zones(n)[i]) == (PresetZoneView {
                zone: i as u8,
                colors: b.leds.subrange(i * b.coarse_len(), (i + 1) * b.coarse_len()),
                effect: None,
            }),
    decreases n,
{
    if n > 0 {
        lemma_coarse_zones(b, (n - 1) as nat);
        lemma_coarse_is_fine(b, n - 1);
    }
}

proof fn lemma_restore(
    b: BankView,
    s: ControllerView,
    id: Seq<char>,
    n: nat,
    out: Seq<Result<ActionView, ErrorView>>,
)
    requires
        s.is_bank(id),
        s.banks[id].wf(),
        b.wf(),
        fans_are_zones(b.layout),
        b.coarse_len() > 0,
        b.layout == s.banks[id].layout,
        b.fan_count == s.banks[id].fan_count,
        n <= b.coarse_count(),
    ensures
        ({
            let zones = b.coarse_zones(b.coarse_count() as nat);
            let r = s.run_preset(id, zones, n, out).state;
            &&& r == s.with_bank(id, r.banks[id])
            &&& r.banks[id].wf()
            &&& r.banks[id].layout == b.layout && r.banks[id].fan_count == b.fan_count
            &&& forall|p: int|
                0 <= p < n * b.coarse_len() ==> #[trigger] r.banks[id].leds[p] == b.leds[p]
            &&& forall|z: u8| #[trigger] r.banks[id].effects.contains_key(z) ==> z >= n
        }),
    decreases n,
{
    let per = b.coarse_len();
    let zones = b.coarse_zones(b.coarse_count() as nat);
    lemma_coarse_zones(b, b.coarse_count() as nat);
    if n == 0 {
        assert(s =~= s.with_bank(id, s.banks[id]));
        assert(0 * per == 0) by (nonlinear_arith);
    } else {
        lemma_restore(b, s, id, (n - 1) as nat, out);
        let before = s.run_preset(id, zones, (n - 1) as nat, out).state;
        let x = before.banks[id];
        let z = zones[n - 1];
        lemma_coarse_is_fine(b, n - 1);
        lemma_coarse_is_fine(x, n - 1);
        assert(z.colors.len() == per);
        law_bank_stays_wf(x, z.zone, arbitrary(), z.colors);
        let y = x.with_colors(z.zone, z.colors)->0;
        let after = s.run_preset(id, zones, n, out).state;
        assert(after =~= s.with_bank(id, y));
        assert forall|p: int| 0 <= p < n * per implies #[trigger] y.leds[p] == b.leds[p] by {
            if p < (n - 1) * per {
                assert(x.leds[p] == b.leds[p]);
            }
        }
    }
}

/// Where the zones of a device are its fans, or all of it, what is read as a
/// preset brings back the colors when it is restored, whatever the bank has
/// shown meanwhile, and no animation is left.
pub proof fn law_preset_round_trip(
    b: BankView,
    s: ControllerView,
    id: Seq<char>,
    out: Seq<Result<ActionView, ErrorView>>,
)
    requires
        s.wf(),
        s.is_bank(id),
        b.wf(),
        fans_are_zones(b.layout),
        b.leds.len() > 0,
        b.layout == s.banks[id].layout,
        b.fan_count == s.banks[id].fan_count,
    ensures
        ({
            let zones = b.coarse_zones(b.coarse_count() as nat);
            let after = s.run_preset(id, zones, zones.len(), out).state.banks[id];
            &&& after.leds == b.leds
            &&& after.effects =~= Map::<u8, EffectView>::empty()
        }),
{
    let n = b.coarse_count() as nat;
    let per = b.coarse_len();
    if per == 0 {
        assert(b.fan_count * 0 == 0) by (nonlinear_arith);
    }
    if n > 0 {
        lemma_coarse_is_fine(b, 0);
    } else {
        assert(0 * per == 0) by (nonlinear_arith);
    }
    lemma_coarse_zones(b, n);
    lemma_restore(b, s, id, n, out);
    let after = s.run_preset(id, b.coarse_zones(n), n, out).state.banks[id];
    assert(after.leds =~= b.leds);
    assert forall|z: u8| !after.effects.contains_key(z) by {
        if after.effects.contains_key(z) {
            assert(z < after.layout.total_zones(after.fan_count as nat));
            assert(b.fan_count * 1 == b.fan_count) by (nonlinear_arith);
        }
    }
    assert(after.effects =~= Map::<u8, EffectView>::empty());
}

} // verus!
