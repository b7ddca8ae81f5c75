//! What applying a configuration asks for, and in which order it is answered.

use vstd::prelude::*;
use crate::action::{ActionView, ErrorView};
use crate::config::{
    ConfigView, DeviceConfigView, PresetView, PresetZoneView, ZoneConfigView,
};
use crate::controller_laws::only_banks_changed;
use crate::effect::{BreathingTable, EffectView};
use crate::model::{find_preset, ControllerView, Run};

verus! {

/// One thing that a configuration asks for.
pub enum Ask {
    Effect { id: Seq<char>, zone: u8, effect: EffectView },
    Direction { id: Seq<char>, zone: u8, swap_lr: bool, swap_tb: bool },
    Colors { id: Seq<char>, zone: u8, colors: Seq<[u8; 3]> },
}

/// The controller after the first `n` of a list of such things, each asked by
/// itself, with the answers to all of them.
pub open spec fn run_asks(s: ControllerView, table: BreathingTable, asks: Seq<Ask>, n: nat) -> Run
    decreases n,
{
    if n == 0 {
        Run { state: s, out: Seq::empty() }
    } else {
        let r = run_asks(s, table, asks, (n - 1) as nat);
        match asks[n - 1] {
            Ask::Effect { id, zone, effect } => {
                let (t, o) = r.state.set_effect(table, id, zone, effect);
                Run { state: t, out: r.out.push(o) }
            },
            Ask::Direction { id, zone, swap_lr, swap_tb } => Run {
                state: r.state,
                out: r.out.push(r.state.set_fan_direction(id, zone, swap_lr, swap_tb)),
            },
            Ask::Colors { id, zone, colors } => {
                let (t, o) = r.state.set_direct_colors(id, zone, colors);
                Run { state: t, out: r.out.push(o) }
            },
        }
    }
}

/// What the configuration of a zone asks for: its effect, and then its
/// direction if it swaps either way.
pub open spec fn zone_asks(id: Seq<char>, z: ZoneConfigView) -> Seq<Ask> {
    let effect = Ask::Effect { id, zone: z.zone_index, effect: z.effect };
    if !z.swap_lr && !z.swap_tb {
        seq![effect]
    } else {
        seq![
            effect,
            Ask::Direction { id, zone: z.zone_index, swap_lr: z.swap_lr, swap_tb: z.swap_tb },
        ]
    }
}

/// What the configurations of the first `n` zones ask for.
pub open spec fn zones_asks(id: Seq<char>, zones: Seq<ZoneConfigView>, n: nat) -> Seq<Ask>
    decreases n,
{
    if n == 0 {
        Seq::empty()
    } else {
        zones_asks(id, zones, (n - 1) as nat) + zone_asks(id, zones[n - 1])
    }
}

/// What the first `n` zones of a preset ask for: their colors, where they have
/// any.
pub open spec fn preset_asks(id: Seq<char>, zones: Seq<PresetZoneView>, n: nat) -> Seq<Ask>
    decreases n,
{
    if n == 0 {
        Seq::empty()
    } else if zones[n - 1].colors.len() > 0 {
        preset_asks(id, zones, (n - 1) as nat).push(
            Ask::Colors { id, zone: zones[n - 1].zone, colors: zones[n - 1].colors },
        )
    } else {
        preset_asks(id, zones, (n - 1) as nat)
    }
}

/// Whether preset `i` of a list is the first with this name for this device.
pub open spec fn first_preset(presets: Seq<PresetView>, name: Seq<char>, id: Seq<char>, i: int) -> bool {
    &&& 0 <= i < presets.len()
    &&& presets[i].name == name && presets[i].device_id == id
    &&& forall|j: int|
        0 <= j < i ==> (#[trigger] presets[j]).name != name || presets[j].device_id != id
}

/// The preset that counts is the first with the name that is meant for the
/// device.
pub proof fn law_which_preset(presets: Seq<PresetView>, name: Seq<char>, id: Seq<char>, i: int)
    ensures
        first_preset(presets, name, id, i) ==> find_preset(presets, name, id, 0) == Some(
            presets[i],
        ),
        (forall|j: int| !#[trigger] first_preset(presets, name, id, j)) ==> find_preset(
            presets,
            name,
            id,
            0,
        ) is None,
{
    lemma_find(presets, name, id, 0);
    if find_preset(presets, name, id, 0) is Some {
        let k = choose|k: int| #[trigger]
            first_preset(presets, name, id, k) && find_preset(presets, name, id, 0) == Some(
                presets[k],
            );
        if first_preset(presets, name, id, i) && k < i {
            assert(presets[k].name != name || presets[k].device_id != id);
        }
        if first_preset(presets, name, id, i) && i < k {
            assert(presets[i].name != name || presets[i].device_id != id);
        }
    } else if first_preset(presets, name, id, i) {
        assert(presets[i].name == name);
    }
}

proof fn lemma_find(presets: Seq<PresetView>, name: Seq<char>, id: Seq<char>, from: int)
    requires
        0 <= from,
        forall|j: int|
            0 <= j < from && j < presets.len() ==> (#[trigger] presets[j]).name != name
                || presets[j].device_id != id,
    ensures
        find_preset(presets, name, id, from) is Some ==> exists|k: int| #[trigger]
            first_preset(presets, name, id, k) && find_preset(presets, name, id, from) == Some(
                presets[k],
            ),
        find_preset(presets, name, id, from) is None ==> forall|j: int|
            0 <= j < presets.len() ==> (#[trigger] presets[j]).name != name || presets[j].device_id
                != id,
    decreases presets.len() - from,
{
    if from < presets.len() {
        if presets[from].name == name && presets[from].device_id == id {
            assert(first_preset(presets, name, id, from));
        } else {
            lemma_find(presets, name, id, from + 1);
        }
    }
}

/// What the preset that is active on a device asks for.
pub open spec fn active_asks(presets: Seq<PresetView>, d: DeviceConfigView) -> Seq<Ask> {
    match d.active_preset {
        None => Seq::empty(),
        Some(name) => match find_preset(presets, name, d.device_id, 0) {
            None => Seq::empty(),
            Some(p) => preset_asks(d.device_id, p.zones, p.zones.len()),
        },
    }
}

/// What the configurations of the first `n` devices ask for: for each the
/// zones, then its active preset.
pub open spec fn device_asks(
    presets: Seq<PresetView>,
    devices: Seq<DeviceConfigView>,
    n: nat,
) -> Seq<Ask>
    decreases n,
{
    if n == 0 {
        Seq::empty()
    } else {
        let d = devices[n - 1];
        device_asks(presets, devices, (n - 1) as nat) + zones_asks(
            d.device_id,
            d.zones,
            d.zones.len(),
        ) + active_asks(presets, d)
    }
}

proof fn lemma_same_asks(s: ControllerView, table: BreathingTable, a: Seq<Ask>, b: Seq<Ask>, n: nat)
    requires
        n <= a.len(),
        n <= b.len(),
        forall|i: int| 0 <= i < n ==> #[trigger] a[i] == b[i],
    ensures
        run_asks(s, table, a, n) == run_asks(s, table, b, n),
    decreases n,
{
    if n > 0 {
        lemma_same_asks(s, table, a, b, (n - 1) as nat);
        assert(a[n - 1] == b[n - 1]);
    }
}

proof fn lemma_zones(
    s: ControllerView,
    table: BreathingTable,
    a: Seq<Ask>,
    d: DeviceConfigView,
    n: nat,
)
    requires
        n <= d.zones.len(),
    ensures
        ({
            let r = run_asks(s, table, a, a.len());
            let all = a + zones_asks(d.device_id, d.zones, n);
            run_asks(s, table, all, all.len()) == r.state.run_zones(table, d, n, r.out)
        }),
    decreases n,
{
    let r = run_asks(s, table, a, a.len());
    if n == 0 {
        assert(a + zones_asks(d.device_id, d.zones, 0) =~= a);
    } else {
        lemma_zones(s, table, a, d, (n - 1) as nat);
        let z = d.zones[n - 1];
        let id = d.device_id;
        let before = a + zones_asks(id, d.zones, (n - 1) as nat);
        let all = a + zones_asks(id, d.zones, n);
        let k = before.len();
        assert(all =~= before + zone_asks(id, z));
        lemma_same_asks(s, table, before, all, k);
        assert(all[k as int] == (Ask::Effect { id, zone: z.zone_index, effect: z.effect }));
        let q = run_asks(s, table, all, k);
        let one = run_asks(s, table, all, k + 1);
        let (t, o) = q.state.set_effect(table, id, z.zone_index, z.effect);
        assert(one == Run { state: t, out: q.out.push(o) });
        if z.swap_lr || z.swap_tb {
            assert(all.len() == k + 2);
            assert(all[k as int + 1] == (Ask::Direction {
                id,
                zone: z.zone_index,
                swap_lr: z.swap_lr,
                swap_tb: z.swap_tb,
            }));
            assert(run_asks(s, table, all, k + 2) == Run {
                state: t,
                out: one.out.push(t.set_fan_direction(id, z.zone_index, z.swap_lr, z.swap_tb)),
            });
        } else {
            assert(all.len() == k + 1);
        }
    }
}

proof fn lemma_preset(
    s: ControllerView,
    table: BreathingTable,
    a: Seq<Ask>,
    id: Seq<char>,
    zones: Seq<PresetZoneView>,
    n: nat,
)
    requires
        n <= zones.len(),
    ensures
        ({
            let r = run_asks(s, table, a, a.len());
            let all = a + preset_asks(id, zones, n);
            run_asks(s, table, all, all.len()) == r.state.run_preset(id, zones, n, r.out)
        }),
    decreases n,
{
    if n == 0 {
        assert(a + preset_asks(id, zones, 0) =~= a);
    } else {
        lemma_preset(s, table, a, id, zones, (n - 1) as nat);
        let before = a + preset_asks(id, zones, (n - 1) as nat);
        let all = a + preset_asks(id, zones, n);
        let z = zones[n - 1];
        let k = before.len();
        if z.colors.len() > 0 {
            assert(all =~= before.push(Ask::Colors { id, zone: z.zone, colors: z.colors }));
            lemma_same_asks(s, table, before, all, k);
            let q = run_asks(s, table, all, k);
            let (t, o) = q.state.set_direct_colors(id, z.zone, z.colors);
            assert(run_asks(s, table, all, k + 1) == Run { state: t, out: q.out.push(o) });
        }
    }
}

proof fn lemma_devices(
    s: ControllerView,
    table: BreathingTable,
    presets: Seq<PresetView>,
    devices: Seq<DeviceConfigView>,
    n: nat,
)
    requires
        n <= devices.len(),
    ensures
        ({
            let all = device_asks(presets, devices, n);
            run_asks(s, table, all, all.len()) == s.run_devices(table, presets, devices, n)
        }),
    decreases n,
{
    if n > 0 {
        lemma_devices(s, table, presets, devices, (n - 1) as nat);
        let d = devices[n - 1];
        let a = device_asks(presets, devices, (n - 1) as nat);
        let b = a + zones_asks(d.device_id, d.zones, d.zones.len());
        lemma_zones(s, table, a, d, d.zones.len());
        if let Some(name) = d.active_preset {
            if let Some(p) = find_preset(presets, name, d.device_id, 0) {
                lemma_preset(s, table, b, d.device_id, p.zones, p.zones.len());
            } else {
                assert(b + active_asks(presets, d) =~= b);
            }
        } else {
            assert(b + active_asks(presets, d) =~= b);
        }
    }
}

/// Applying a configuration stores it, and then asks for everything in it, one
/// thing after the other, as if each were asked by itself: device by device the
/// effect of each zone and its direction if it swaps either way, then the
/// colors of the active preset. Where lighting is off or in the hands of
/// OpenRGB it asks for nothing.
pub proof fn law_config_asks_for_everything(
    s: ControllerView,
    table: BreathingTable,
    config: ConfigView,
    presets: Seq<PresetView>,
)
    ensures
        ({
            let stored = ControllerView { config: Some(config), presets, ..s };
            let all = device_asks(presets, config.devices, config.devices.len());
            let r = s.apply_config(table, config, presets);
            &&& config.enabled && !config.openrgb_server && !s.openrgb_active ==> r == run_asks(
                stored,
                table,
                all,
                all.len(),
            )
            &&& !config.enabled || config.openrgb_server || s.openrgb_active ==> r == (Run {
                state: stored,
                out: Seq::empty(),
            })
        }),
{
    let stored = ControllerView { config: Some(config), presets, ..s };
    lemma_devices(stored, table, presets, config.devices, config.devices.len());
}

/// How many answers the first `n` zones get: one each, and one more each that
/// swaps either way.
pub open spec fn zone_answers(zones: Seq<ZoneConfigView>, n: nat) -> nat
    decreases n,
{
    if n == 0 {
        0
    } else {
        zone_answers(zones, (n - 1) as nat) + (if zones[n - 1].swap_lr || zones[n - 1].swap_tb {
            2nat
        } else {
            1nat
        })
    }
}

proof fn lemma_zone_answers_len(id: Seq<char>, zones: Seq<ZoneConfigView>, n: nat)
    requires
        n <= zones.len(),
    ensures
        zones_asks(id, zones, n).len() == zone_answers(zones, n),
    decreases n,
{
    if n > 0 {
        lemma_zone_answers_len(id, zones, (n - 1) as nat);
    }
}

/// What is asked for zone `j` stands at its place.
proof fn lemma_zone_answer(id: Seq<char>, zones: Seq<ZoneConfigView>, n: nat, j: int)
    requires
        0 <= j < n <= zones.len(),
    ensures
        ({
            let at = zone_answers(zones, j as nat) as int;
            let z = zones[j];
            let asks = zones_asks(id, zones, n);
            &&& at < asks.len()
            &&& asks[at] == (Ask::Effect { id, zone: z.zone_index, effect: z.effect })
            &&& z.swap_lr || z.swap_tb ==> {
                &&& at + 1 < asks.len()
                &&& asks[at + 1] == (Ask::Direction {
                    id,
                    zone: z.zone_index,
                    swap_lr: z.swap_lr,
                    swap_tb: z.swap_tb,
                })
            }
        }),
    decreases n,
{
    let before = zones_asks(id, zones, (n - 1) as nat);
    let last = zone_asks(id, zones[n - 1]);
    assert(zones_asks(id, zones, n) == before + last);
    lemma_zone_answers_len(id, zones, (n - 1) as nat);
    if j < n - 1 {
        lemma_zone_answer(id, zones, (n - 1) as nat, j);
    } else {
        assert((before + last)[before.len() as int] == last[0]);
    }
}

proof fn lemma_zone_answers(id: Seq<char>, zones: Seq<ZoneConfigView>, n: nat)
    requires
        n <= zones.len(),
    ensures
        zones_asks(id, zones, n).len() == zone_answers(zones, n),
        forall|j: int|
            0 <= j < n ==> {
                let at = zone_answers(zones, j as nat) as int;
                let z = #[trigger] zones[j];
                &&& at < zones_asks(id, zones, n).len()
                &&& zones_asks(id, zones, n)[at] == (Ask::Effect {
                    id,
                    zone: z.zone_index,
                    effect: z.effect,
                })
                &&& z.swap_lr || z.swap_tb ==> {
                    &&& at + 1 < zones_asks(id, zones, n).len()
                    &&& zones_asks(id, zones, n)[at + 1] == (Ask::Direction {
                        id,
                        zone: z.zone_index,
                        swap_lr: z.swap_lr,
                        swap_tb: z.swap_tb,
                    })
                }
                &&& !z.swap_lr && !z.swap_tb && j + 1 < n ==> zone_answers(zones, (j + 1) as nat)
                    == at + 1
            },
{
    lemma_zone_answers_len(id, zones, n);
    let asks = zones_asks(id, zones, n);
    assert forall|j: int| 0 <= j < n implies {
        let at = zone_answers(zones, j as nat) as int;
        let z = #[trigger] zones[j];
        &&& at < asks.len()
        &&& asks[at] == (Ask::Effect { id, zone: z.zone_index, effect: z.effect })
        &&& z.swap_lr || z.swap_tb ==> {
            &&& at + 1 < asks.len()
            &&& asks[at + 1] == (Ask::Direction {
                id,
                zone: z.zone_index,
                swap_lr: z.swap_lr,
                swap_tb: z.swap_tb,
            })
        }
        &&& !z.swap_lr && !z.swap_tb && j + 1 < n ==> zone_answers(zones, (j + 1) as nat) == at + 1
    } by {
        lemma_zone_answer(id, zones, n, j);
    }
}

/// The answers to a list of things asked: as many as there are, each that of
/// its own question to the controller at that point, of which the wired devices
/// never change.
proof fn lemma_answers(s: ControllerView, table: BreathingTable, asks: Seq<Ask>, n: nat)
    requires
        n <= asks.len(),
    ensures
        ({
            let r = run_asks(s, table, asks, n);
            &&& only_banks_changed(s, r.state)
            &&& r.out.len() == n
            &&& forall|i: int|
                0 <= i < n ==> match #[trigger] asks[i] {
                    Ask::Effect { id, zone, effect } => s.wired.contains_key(id) ==> r.out[i] == Ok::<
                        ActionView,
                        ErrorView,
                    >(ActionView::WiredEffect { device_id: id, zone, effect }),
                    Ask::Direction { id, zone, swap_lr, swap_tb } => r.out[i]
                        == s.set_fan_direction(id, zone, swap_lr, swap_tb),
                    Ask::Colors { id, zone, colors } => s.wired.contains_key(id) ==> r.out[i]
                        == Ok::<ActionView, ErrorView>(
                        ActionView::WiredColors { device_id: id, zone, colors },
                    ),
                }
        }),
    decreases n,
{
    if n > 0 {
        lemma_answers(s, table, asks, (n - 1) as nat);
        let q = run_asks(s, table, asks, (n - 1) as nat);
        let r = run_asks(s, table, asks, n);
        assert(r.out.drop_last() =~= q.out);
    }
}

proof fn lemma_device_place(
    presets: Seq<PresetView>,
    devices: Seq<DeviceConfigView>,
    k: int,
    n: nat,
    i: int,
)
    requires
        0 <= k < n <= devices.len(),
        ({
            let d = devices[k];
            0 <= i < zones_asks(d.device_id, d.zones, d.zones.len()).len() + active_asks(
                presets,
                d,
            ).len()
        }),
    ensures
        ({
            let d = devices[k];
            let at = device_asks(presets, devices, k as nat).len() + i;
            let own = zones_asks(d.device_id, d.zones, d.zones.len()) + active_asks(presets, d);
            &&& at < device_asks(presets, devices, n).len()
            &&& device_asks(presets, devices, n)[at] == own[i]
        }),
    decreases n,
{
    if k < n - 1 {
        lemma_device_place(presets, devices, k, (n - 1) as nat, i);
    }
}

/// How many answers the first `n` devices get.
pub open spec fn device_answers(
    presets: Seq<PresetView>,
    devices: Seq<DeviceConfigView>,
    n: nat,
) -> nat
    decreases n,
{
    if n == 0 {
        0
    } else {
        let d = devices[n - 1];
        device_answers(presets, devices, (n - 1) as nat) + zone_answers(d.zones, d.zones.len())
            + active_asks(presets, d).len()
    }
}

proof fn lemma_device_answers(
    presets: Seq<PresetView>,
    devices: Seq<DeviceConfigView>,
    n: nat,
)
    requires
        n <= devices.len(),
    ensures
        device_asks(presets, devices, n).len() == device_answers(presets, devices, n),
    decreases n,
{
    if n > 0 {
        lemma_device_answers(presets, devices, (n - 1) as nat);
        let d = devices[n - 1];
        lemma_zone_answers(d.device_id, d.zones, d.zones.len());
    }
}

/// When a configuration is applied, the answer to the direction of a zone that
/// swaps either way comes right after that to its effect, with just the two
/// swaps of the zone; a zone that swaps neither way gets none, so that the next
/// answer is that to the effect of the next zone. A wired device that supports
/// direction is told; any other answers as it would by itself. Nothing else is
/// answered.
pub proof fn law_direction_follows_effect(
    s: ControllerView,
    table: BreathingTable,
    config: ConfigView,
    presets: Seq<PresetView>,
    k: int,
    j: int,
)
    requires
        config.enabled,
        !config.openrgb_server,
        !s.openrgb_active,
        0 <= k < config.devices.len(),
        0 <= j < config.devices[k].zones.len(),
    ensures
        ({
            let d = config.devices[k];
            let z = d.zones[j];
            let out = s.apply_config(table, config, presets).out;
            let at = (device_answers(presets, config.devices, k as nat) + zone_answers(
                d.zones,
                j as nat,
            )) as int;
            &&& out.len() == device_answers(presets, config.devices, config.devices.len())
            &&& at < out.len()
            &&& s.wired.contains_key(d.device_id) ==> out[at] == Ok::<ActionView, ErrorView>(
                ActionView::WiredEffect {
                    device_id: d.device_id,
                    zone: z.zone_index,
                    effect: z.effect,
                },
            )
            &&& z.swap_lr || z.swap_tb ==> {
                &&& at + 1 < out.len()
                &&& s.wired.contains_key(d.device_id) && s.wired[d.device_id].supports_direction
                    ==> out[at + 1] == Ok::<ActionView, ErrorView>(
                    ActionView::WiredDirection {
                        device_id: d.device_id,
                        zone: z.zone_index,
                        swap_lr: z.swap_lr,
                        swap_tb: z.swap_tb,
                    },
                )
                &&& s.wired.contains_key(d.device_id) && !s.wired[d.device_id].supports_direction
                    ==> out[at + 1] == Err::<ActionView, ErrorView>(
                    ErrorView::DirectionUnsupported { device_id: d.device_id },
                )
                &&& !s.wired.contains_key(d.device_id) ==> out[at + 1] == Err::<
                    ActionView,
                    ErrorView,
                >(ErrorView::DeviceNotFound { device_id: d.device_id })
            }
            &&& !z.swap_lr && !z.swap_tb && j + 1 < d.zones.len() && s.wired.contains_key(
                d.device_id,
            ) ==> at + 1 < out.len() && out[at + 1] == Ok::<ActionView, ErrorView>(
                ActionView::WiredEffect {
                    device_id: d.device_id,
                    zone: d.zones[j + 1].zone_index,
                    effect: d.zones[j + 1].effect,
                },
            )
        }),
{
    let stored = ControllerView { config: Some(config), presets, ..s };
    let devices = config.devices;
    let all = device_asks(presets, devices, devices.len());
    let d = devices[k];
    let z = d.zones[j];
    law_config_asks_for_everything(s, table, config, presets);
    lemma_answers(stored, table, all, all.len());
    lemma_device_answers(presets, devices, devices.len());
    lemma_device_answers(presets, devices, k as nat);
    lemma_zone_answers(d.device_id, d.zones, d.zones.len());
    let own = zones_asks(d.device_id, d.zones, d.zones.len());
    let i = zone_answers(d.zones, j as nat) as int;
    let at = device_answers(presets, devices, k as nat) + i;
    assert(own[i] == (Ask::Effect { id: d.device_id, zone: z.zone_index, effect: z.effect }));
    lemma_device_place(presets, devices, k, devices.len(), i);
    assert(all[at] == own[i]);
    if z.swap_lr || z.swap_tb {
        lemma_device_place(presets, devices, k, devices.len(), i + 1);
        assert(all[at + 1] == own[i + 1]);
    } else if j + 1 < d.zones.len() {
        let y = d.zones[j + 1];
        assert(zone_answers(d.zones, (j + 1) as nat) == i + 1);
        assert(own[i + 1] == (Ask::Effect { id: d.device_id, zone: y.zone_index, effect: y.effect }));
        lemma_device_place(presets, devices, k, devices.len(), i + 1);
        assert(all[at + 1] == own[i + 1]);
    }
}

/// A preset asks for the colors of every zone of it that has any, in order, and
/// for nothing else.
pub proof fn law_preset_asks(id: Seq<char>, zones: Seq<PresetZoneView>, n: nat)
    requires
        n <= zones.len(),
    ensures
        preset_asks(id, zones, n) == zones.take(n as int).filter(
            |z: PresetZoneView| z.colors.len() > 0,
        ).map_values(|z: PresetZoneView| Ask::Colors { id, zone: z.zone, colors: z.colors }),
    decreases n,
{
    reveal(Seq::filter);
    let has = |z: PresetZoneView| z.colors.len() > 0;
    let ask = |z: PresetZoneView| Ask::Colors { id, zone: z.zone, colors: z.colors };
    if n == 0 {
        assert(zones.take(0).filter(has).map_values(ask) =~= Seq::empty());
    } else {
        law_preset_asks(id, zones, (n - 1) as nat);
        assert(zones.take(n as int).drop_last() =~= zones.take(n - 1));
        assert(zones.take(n as int).last() == zones[n - 1]);
        let f = zones.take(n - 1).filter(has);
        if has(zones[n - 1]) {
            assert(f.push(zones[n - 1]).map_values(ask) =~= f.map_values(ask).push(
                ask(zones[n - 1]),
            ));
        }
    }
}

} // verus!
