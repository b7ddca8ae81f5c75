//! What the lighting controller shows, from the history of its requests.

use vstd::prelude::*;
use crate::action::{ActionView, ErrorView};
use crate::bank::BankView;
use crate::bank_laws::{law_bank_stays_wf, law_refused_iff_out_of_range};
use crate::capabilities::WiredView;
use crate::config::{ConfigView, DeviceConfigView, PresetView, PresetZoneView};
use crate::controller_laws::{
    colors_one_by_one, effects_one_by_one, law_color_batch, law_effect_batch, law_resync_leaves_banks,
};
use crate::effect::{spec_is_animated, BreathingTable, EffectView, RgbMode};
use crate::mac::bank_id;
use crate::model::{bank_list_wf, find_preset, ControllerView, WirelessBankView};

verus! {

/// A request that can change the controller.
pub enum Command {
    Effect { id: Seq<char>, zone: u8, effect: EffectView },
    Effects { id: Seq<char>, zones: Seq<u8>, effect: EffectView },
    Colors { id: Seq<char>, zone: u8, colors: Seq<[u8; 3]> },
    ColorBatch { id: Seq<char>, writes: Seq<(u8, Seq<[u8; 3]>)>, one_shot: bool },
    Config { config: ConfigView, presets: Seq<PresetView> },
    OpenRgb { active: bool },
    Resync { order: Seq<Seq<char>>, macs: Seq<[u8; 6]>, now: u64 },
    Radio { present: bool },
    Found { found: Seq<WirelessBankView> },
    Wired { wired: Map<Seq<char>, WiredView> },
}

impl Command {
    /// Whether the layouts that the request names are ones.
    pub open spec fn valid(self) -> bool {
        self matches Command::Found { found } ==> bank_list_wf(found)
    }
}

/// One zone is given an effect or, without one, colors.
pub struct Setting {
    pub id: Seq<char>,
    pub zone: u8,
    pub effect: Option<EffectView>,
}

/// What a configuration sets on the zones of a device.
pub open spec fn zone_settings(d: DeviceConfigView) -> Seq<Setting> {
    Seq::new(
        d.zones.len(),
        |i: int|
            Setting {
                id: d.device_id,
                zone: d.zones[i].zone_index,
                effect: Some(d.zones[i].effect),
            },
    )
}

/// What the first `n` zones of a preset set.
pub open spec fn preset_settings(id: Seq<char>, zones: Seq<PresetZoneView>, n: nat) -> Seq<Setting>
    decreases n,
{
    if n == 0 {
        Seq::empty()
    } else {
        let before = preset_settings(id, zones, (n - 1) as nat);
        if zones[n - 1].colors.len() == 0 {
            before
        } else {
            before.push(Setting { id, zone: zones[n - 1].zone, effect: None })
        }
    }
}

/// What the preset that is active on a device sets.
pub open spec fn active_settings(presets: Seq<PresetView>, d: DeviceConfigView) -> Seq<Setting> {
    match d.active_preset {
        None => Seq::empty(),
        Some(name) => match find_preset(presets, name, d.device_id, 0) {
            None => Seq::empty(),
            Some(p) => preset_settings(d.device_id, p.zones, p.zones.len()),
        },
    }
}

/// What a configuration sets on its first `n` devices.
pub open spec fn device_settings(
    presets: Seq<PresetView>,
    devices: Seq<DeviceConfigView>,
    n: nat,
) -> Seq<Setting>
    decreases n,
{
    if n == 0 {
        Seq::empty()
    } else {
        let d = devices[n - 1];
        device_settings(presets, devices, (n - 1) as nat) + zone_settings(d) + active_settings(
            presets,
            d,
        )
    }
}

/// What a configuration sets, while OpenRGB does not have the lights.
pub open spec fn config_settings(config: ConfigView, presets: Seq<PresetView>) -> Seq<Setting> {
    if !config.enabled || config.openrgb_server {
        Seq::empty()
    } else {
        device_settings(presets, config.devices, config.devices.len())
    }
}

impl ControllerView {
    /// The controller after a request.
    pub open spec fn after(self, table: BreathingTable, c: Command) -> ControllerView {
        match c {
            Command::Effect { id, zone, effect } => self.set_effect(table, id, zone, effect).0,
            Command::Effects { id, zones, effect } => {
                self.set_effect_zones(table, id, zones, effect).0
            },
            Command::Colors { id, zone, colors } => self.set_direct_colors(id, zone, colors).0,
            Command::ColorBatch { id, writes, one_shot } => {
                self.apply_direct_zones(id, writes, one_shot).0
            },
            Command::Config { config, presets } => self.apply_config(table, config, presets).state,
            Command::OpenRgb { active } => self.set_openrgb_active(table, active).state,
            Command::Resync { order, macs, now } => self.restored(table, order, macs, now).0,
            Command::Radio { present } => ControllerView { wireless: present, ..self },
            Command::Found { found } => self.refresh(found),
            Command::Wired { wired } => ControllerView { wired, ..self },
        }
    }

    /// Whether what is set on this zone is taken.
    pub open spec fn takes(self, id: Seq<char>, zone: u8) -> bool {
        self.is_bank(id) && zone < self.banks[id].layout.total_zones(
            self.banks[id].fan_count as nat,
        )
    }

    /// What a request asks to be set, zone by zone.
    pub open spec fn settings(self, c: Command) -> Seq<Setting> {
        match c {
            Command::Effect { id, zone, effect } => seq![Setting { id, zone, effect: Some(effect) }],
            Command::Effects { id, zones, effect } => Seq::new(
                zones.len(),
                |i: int| Setting { id, zone: zones[i], effect: Some(effect) },
            ),
            Command::Colors { id, zone, .. } => seq![Setting { id, zone, effect: None }],
            Command::ColorBatch { id, writes, .. } => Seq::new(
                writes.len(),
                |i: int| Setting { id, zone: writes[i].0, effect: None },
            ),
            Command::Config { config, presets } => if self.openrgb_active {
                Seq::empty()
            } else {
                config_settings(config, presets)
            },
            Command::OpenRgb { active } => if self.openrgb_active && !active {
                match self.config {
                    Some(config) => config_settings(config, self.presets),
                    None => Seq::empty(),
                }
            } else {
                Seq::empty()
            },
            _ => Seq::empty(),
        }
    }
}

/// For each zone of each device, the effect that was set on it last; `None`
/// where that was colors, or nothing.
pub type Record = spec_fn(Seq<char>, u8) -> Option<EffectView>;

pub open spec fn blank_record() -> Record {
    |id: Seq<char>, zone: u8| None
}

/// A record once something has been set on a zone.
pub open spec fn noted(s: ControllerView, r: Record, x: Setting) -> Record {
    |id: Seq<char>, zone: u8|
        if id == x.id && zone == x.zone && s.takes(id, zone) {
            x.effect
        } else {
            r(id, zone)
        }
}

/// A record after the first `n` of a list of settings.
pub open spec fn noted_all(s: ControllerView, r: Record, xs: Seq<Setting>, n: nat) -> Record
    decreases n,
{
    if n == 0 {
        r
    } else {
        noted(s, noted_all(s, r, xs, (n - 1) as nat), xs[n - 1])
    }
}

/// The controller after the first `n` of a list of requests.
pub open spec fn state_after(
    start: ControllerView,
    table: BreathingTable,
    commands: Seq<Command>,
    n: nat,
) -> ControllerView
    decreases n,
{
    if n == 0 {
        start
    } else {
        state_after(start, table, commands, (n - 1) as nat).after(table, commands[n - 1])
    }
}

/// What was last set on each zone by the first `n` of a list of requests. A
/// refresh of the wireless devices starts anew.
pub open spec fn record_after(
    start: ControllerView,
    table: BreathingTable,
    commands: Seq<Command>,
    n: nat,
) -> Record
    decreases n,
{
    if n == 0 {
        blank_record()
    } else {
        let s = state_after(start, table, commands, (n - 1) as nat);
        let r = record_after(start, table, commands, (n - 1) as nat);
        let c = commands[n - 1];
        if c is Found && s.wireless {
            blank_record()
        } else {
            noted_all(s, r, s.settings(c), s.settings(c).len())
        }
    }
}

/// Whether the effect that was set last on a zone is animated.
pub open spec fn last_animated(r: Record, id: Seq<char>, zone: u8) -> bool {
    r(id, zone) matches Some(e) && spec_is_animated(e.mode)
}

/// Whether a zone is animated as a record says.
pub open spec fn shown_as(s: ControllerView, r: Record, id: Seq<char>, zone: u8) -> bool {
    if last_animated(r, id, zone) {
        &&& s.banks.contains_key(id)
        &&& s.banks[id].effects.contains_key(zone)
        &&& s.banks[id].effects[zone] == r(id, zone)->0
    } else {
        !(s.banks.contains_key(id) && s.banks[id].effects.contains_key(zone))
    }
}

/// Whether every zone is animated as a record says.
pub open spec fn agrees(s: ControllerView, r: Record) -> bool {
    forall|id: Seq<char>, zone: u8| #[trigger] shown_as(s, r, id, zone)
}

/// Whether a controller has the devices of another.
spec fn same_shape(s: ControllerView, t: ControllerView) -> bool {
    &&& t.wired == s.wired
    &&& t.wireless == s.wireless
    &&& t.banks.dom() =~= s.banks.dom()
    &&& forall|id: Seq<char>| #[trigger]
        t.banks.contains_key(id) ==> {
            &&& t.banks[id].layout == s.banks[id].layout
            &&& t.banks[id].fan_count == s.banks[id].fan_count
        }
}

proof fn lemma_noted_prefix(s: ControllerView, r: Record, a: Seq<Setting>, b: Seq<Setting>, n: nat)
    requires
        n <= a.len(),
        n <= b.len(),
        forall|i: int| 0 <= i < n ==> #[trigger] a[i] == b[i],
    ensures
        noted_all(s, r, a, n) == noted_all(s, r, b, n),
    decreases n,
{
    if n > 0 {
        lemma_noted_prefix(s, r, a, b, (n - 1) as nat);
        assert(a[n - 1] == b[n - 1]);
    }
}

proof fn lemma_noted_concat(s: ControllerView, r: Record, a: Seq<Setting>, b: Seq<Setting>, n: nat)
    requires
        n <= b.len(),
    ensures
        noted_all(s, r, a + b, (a.len() + n) as nat) == noted_all(
            s,
            noted_all(s, r, a, a.len()),
            b,
            n,
        ),
    decreases n,
{
    if n == 0 {
        lemma_noted_prefix(s, r, a + b, a, a.len());
    } else {
        lemma_noted_concat(s, r, a, b, (n - 1) as nat);
        assert((a + b)[a.len() + n - 1] == b[n - 1]);
    }
}

proof fn lemma_set_bank(
    s: ControllerView,
    t: ControllerView,
    r: Record,
    x: Setting,
    b: BankView,
)
    requires
        same_shape(s, t),
        t.wf(),
        agrees(t, r),
        t.takes(x.id, x.zone),
        b.wf(),
        b.mac == t.banks[x.id].mac,
        b.layout == t.banks[x.id].layout,
        b.fan_count == t.banks[x.id].fan_count,
        b.effects == (match x.effect {
            Some(e) => if spec_is_animated(e.mode) {
                t.banks[x.id].effects.insert(x.zone, e)
            } else {
                t.banks[x.id].effects.remove(x.zone)
            },
            None => t.banks[x.id].effects.remove(x.zone),
        }),
    ensures
        same_shape(s, t.with_bank(x.id, b)),
        t.with_bank(x.id, b).wf(),
        agrees(t.with_bank(x.id, b), noted(s, r, x)),
{
    let u = t.with_bank(x.id, b);
    let q = noted(s, r, x);
    assert(t.banks.contains_key(x.id));
    assert(s.takes(x.id, x.zone));
    assert forall|id: Seq<char>| #[trigger] u.banks.contains_key(id) implies {
        &&& u.banks[id].layout == s.banks[id].layout
        &&& u.banks[id].fan_count == s.banks[id].fan_count
        &&& u.banks[id].wf()
        &&& id == bank_id(u.banks[id].mac)
    } by {
        assert(t.banks.contains_key(id));
    }
    assert forall|id: Seq<char>, zone: u8| #[trigger] shown_as(u, q, id, zone) by {
        assert(shown_as(t, r, id, zone));
    }
}

proof fn lemma_not_taken(s: ControllerView, t: ControllerView, r: Record, x: Setting)
    requires
        same_shape(s, t),
        agrees(t, r),
        !t.takes(x.id, x.zone),
    ensures
        agrees(t, noted(s, r, x)),
{
    let q = noted(s, r, x);
    assert(t.banks.contains_key(x.id) == s.banks.contains_key(x.id));
    assert(!s.takes(x.id, x.zone));
    assert forall|id: Seq<char>, zone: u8| #[trigger] shown_as(t, q, id, zone) by {
        assert(shown_as(t, r, id, zone));
    }
}

proof fn lemma_effect(
    s: ControllerView,
    t: ControllerView,
    r: Record,
    table: BreathingTable,
    id: Seq<char>,
    zone: u8,
    e: EffectView,
)
    requires
        same_shape(s, t),
        t.wf(),
        agrees(t, r),
    ensures
        ({
            let u = t.set_effect(table, id, zone, e).0;
            &&& same_shape(s, u)
            &&& u.wf()
            &&& agrees(u, noted(s, r, Setting { id, zone, effect: Some(e) }))
        }),
{
    let x = Setting { id, zone, effect: Some(e) };
    if t.is_bank(id) {
        let b = t.banks[id];
        law_bank_stays_wf(b, zone, e, Seq::empty());
        law_refused_iff_out_of_range(b, zone, e, Seq::empty());
        if t.takes(id, zone) {
            lemma_set_bank(s, t, r, x, b.with_effect(zone, e)->0);
        } else {
            lemma_not_taken(s, t, r, x);
        }
    } else {
        lemma_not_taken(s, t, r, x);
    }
}

proof fn lemma_colors(
    s: ControllerView,
    t: ControllerView,
    r: Record,
    id: Seq<char>,
    zone: u8,
    colors: Seq<[u8; 3]>,
)
    requires
        same_shape(s, t),
        t.wf(),
        agrees(t, r),
    ensures
        ({
            let u = t.set_direct_colors(id, zone, colors).0;
            &&& same_shape(s, u)
            &&& u.wf()
            &&& agrees(u, noted(s, r, Setting { id, zone, effect: None }))
        }),
{
    let x = Setting { id, zone, effect: None };
    if t.is_bank(id) {
        let b = t.banks[id];
        law_bank_stays_wf(b, zone, arbitrary(), colors);
        law_refused_iff_out_of_range(b, zone, arbitrary(), colors);
        if t.takes(id, zone) {
            lemma_set_bank(s, t, r, x, b.with_colors(zone, colors)->0);
        } else {
            lemma_not_taken(s, t, r, x);
        }
    } else {
        lemma_not_taken(s, t, r, x);
    }
}

proof fn lemma_effects(
    s: ControllerView,
    r: Record,
    table: BreathingTable,
    id: Seq<char>,
    zones: Seq<u8>,
    e: EffectView,
    n: nat,
)
    requires
        s.wf(),
        agrees(s, r),
        n <= zones.len(),
    ensures
        ({
            let t = effects_one_by_one(s, table, id, zones, e, n);
            let xs = s.settings(Command::Effects { id, zones, effect: e });
            &&& same_shape(s, t)
            &&& t.wf()
            &&& agrees(t, noted_all(s, r, xs, n))
            &&& !s.is_bank(id) ==> t == s
        }),
    decreases n,
{
    if n > 0 {
        lemma_effects(s, r, table, id, zones, e, (n - 1) as nat);
        let xs = s.settings(Command::Effects { id, zones, effect: e });
        let t = effects_one_by_one(s, table, id, zones, e, (n - 1) as nat);
        lemma_effect(s, t, noted_all(s, r, xs, (n - 1) as nat), table, id, zones[n - 1], e);
    }
}

proof fn lemma_color_writes(
    s: ControllerView,
    r: Record,
    id: Seq<char>,
    writes: Seq<(u8, Seq<[u8; 3]>)>,
    n: nat,
)
    requires
        s.wf(),
        agrees(s, r),
        n <= writes.len(),
    ensures
        ({
            let t = colors_one_by_one(s, id, writes, n);
            let xs = s.settings(Command::ColorBatch { id, writes, one_shot: true });
            &&& same_shape(s, t)
            &&& t.wf()
            &&& agrees(t, noted_all(s, r, xs, n))
            &&& !s.is_bank(id) ==> t == s
        }),
    decreases n,
{
    if n > 0 {
        lemma_color_writes(s, r, id, writes, (n - 1) as nat);
        let xs = s.settings(Command::ColorBatch { id, writes, one_shot: true });
        let t = colors_one_by_one(s, id, writes, (n - 1) as nat);
        lemma_colors(
            s,
            t,
            noted_all(s, r, xs, (n - 1) as nat),
            id,
            writes[n - 1].0,
            writes[n - 1].1,
        );
    }
}

proof fn lemma_zones(
    s: ControllerView,
    t: ControllerView,
    r: Record,
    table: BreathingTable,
    d: DeviceConfigView,
    n: nat,
    out: Seq<Result<ActionView, ErrorView>>,
)
    requires
        same_shape(s, t),
        t.wf(),
        agrees(t, r),
        n <= d.zones.len(),
    ensures
        ({
            let u = t.run_zones(table, d, n, out).state;
            &&& same_shape(s, u)
            &&& u.wf()
            &&& agrees(u, noted_all(s, r, zone_settings(d), n))
        }),
    decreases n,
{
    if n > 0 {
        lemma_zones(s, t, r, table, d, (n - 1) as nat, out);
        let u = t.run_zones(table, d, (n - 1) as nat, out).state;
        let q = noted_all(s, r, zone_settings(d), (n - 1) as nat);
        let z = d.zones[n - 1];
        lemma_effect(s, u, q, table, d.device_id, z.zone_index, z.effect);
    }
}

proof fn lemma_preset(
    s: ControllerView,
    t: ControllerView,
    r: Record,
    id: Seq<char>,
    zones: Seq<PresetZoneView>,
    n: nat,
    out: Seq<Result<ActionView, ErrorView>>,
)
    requires
        same_shape(s, t),
        t.wf(),
        agrees(t, r),
        n <= zones.len(),
    ensures
        ({
            let u = t.run_preset(id, zones, n, out).state;
            let xs = preset_settings(id, zones, n);
            &&& same_shape(s, u)
            &&& u.wf()
            &&& agrees(u, noted_all(s, r, xs, xs.len()))
        }),
    decreases n,
{
    if n > 0 {
        lemma_preset(s, t, r, id, zones, (n - 1) as nat, out);
        let u = t.run_preset(id, zones, (n - 1) as nat, out).state;
        let before = preset_settings(id, zones, (n - 1) as nat);
        let xs = preset_settings(id, zones, n);
        let z = zones[n - 1];
        if z.colors.len() != 0 {
            lemma_noted_prefix(s, r, before, xs, before.len());
            lemma_colors(s, u, noted_all(s, r, before, before.len()), id, z.zone, z.colors);
        }
    }
}

proof fn lemma_devices(
    s: ControllerView,
    t: ControllerView,
    r: Record,
    table: BreathingTable,
    presets: Seq<PresetView>,
    devices: Seq<DeviceConfigView>,
    n: nat,
)
    requires
        same_shape(s, t),
        t.wf(),
        agrees(t, r),
        n <= devices.len(),
    ensures
        ({
            let u = t.run_devices(table, presets, devices, n).state;
            let xs = device_settings(presets, devices, n);
            &&& same_shape(s, u)
            &&& u.wf()
            &&& agrees(u, noted_all(s, r, xs, xs.len()))
        }),
    decreases n,
{
    if n > 0 {
        lemma_devices(s, t, r, table, presets, devices, (n - 1) as nat);
        let u = t.run_devices(table, presets, devices, (n - 1) as nat);
        let a = device_settings(presets, devices, (n - 1) as nat);
        let q = noted_all(s, r, a, a.len());
        let d = devices[n - 1];
        let b = zone_settings(d);
        let c = active_settings(presets, d);
        lemma_zones(s, u.state, q, table, d, d.zones.len(), u.out);
        lemma_noted_concat(s, r, a, b, b.len());
        lemma_noted_concat(s, r, a + b, c, c.len());
        let v = u.state.run_zones(table, d, d.zones.len(), u.out);
        let w = noted_all(s, q, b, b.len());
        if let Some(name) = d.active_preset {
            if let Some(p) = find_preset(presets, name, d.device_id, 0) {
                lemma_preset(s, v.state, w, d.device_id, p.zones, p.zones.len(), v.out);
            }
        }
    }
}

/// The banks that a refresh finds are well formed, and none is animated.
proof fn lemma_refresh(s: ControllerView, found: Seq<WirelessBankView>, n: nat)
    requires
        bank_list_wf(found),
        n <= found.len(),
    ensures
        forall|id: Seq<char>| #[trigger]
            s.refreshed_banks(found, n).contains_key(id) ==> {
                let b = s.refreshed_banks(found, n)[id];
                &&& b.wf()
                &&& id == bank_id(b.mac)
                &&& b.effects =~= Map::<u8, EffectView>::empty()
            },
    decreases n,
{
    if n > 0 {
        lemma_refresh(s, found, (n - 1) as nat);
        assert(found[n - 1].layout.wf());
        assert(s.refreshed(found[n - 1]).wf());
        let before = s.refreshed_banks(found, (n - 1) as nat);
        assert forall|id: Seq<char>| #[trigger]
            s.refreshed_banks(found, n).contains_key(id) implies {
            let b = s.refreshed_banks(found, n)[id];
            &&& b.wf()
            &&& id == bank_id(b.mac)
            &&& b.effects =~= Map::<u8, EffectView>::empty()
        } by {
            if id != bank_id(found[n - 1].mac) {
                assert(before.contains_key(id));
            }
        }
    }
}

proof fn lemma_refresh_starts_anew(s: ControllerView, found: Seq<WirelessBankView>)
    requires
        s.wireless,
        bank_list_wf(found),
    ensures
        s.refresh(found).wf(),
        agrees(s.refresh(found), blank_record()),
{
    lemma_refresh(s, found, found.len());
    let t = s.refresh(found);
    assert forall|id: Seq<char>, zone: u8| #[trigger] shown_as(t, blank_record(), id, zone) by {
        if t.banks.contains_key(id) {
            assert(s.refreshed_banks(found, found.len()).contains_key(id));
        }
    }
}

/// A controller whose banks are those of another agrees with the same record.
proof fn lemma_same_banks(s: ControllerView, t: ControllerView, r: Record)
    requires
        s.wf(),
        agrees(s, r),
        t.banks == s.banks,
    ensures
        t.wf(),
        agrees(t, r),
{
    assert forall|id: Seq<char>| #[trigger] t.banks.contains_key(id) implies t.banks[id].wf() && id
        == bank_id(t.banks[id].mac) by {
        assert(s.banks.contains_key(id));
    }
    assert forall|id: Seq<char>, zone: u8| #[trigger] shown_as(t, r, id, zone) by {
        assert(shown_as(s, r, id, zone));
    }
}

proof fn lemma_config(
    s: ControllerView,
    t: ControllerView,
    r: Record,
    table: BreathingTable,
    config: ConfigView,
    presets: Seq<PresetView>,
)
    requires
        s.wf(),
        agrees(s, r),
        t == (ControllerView { openrgb_active: t.openrgb_active, ..s }),
    ensures
        ({
            let u = t.apply_config(table, config, presets).state;
            let xs = if t.openrgb_active {
                Seq::empty()
            } else {
                config_settings(config, presets)
            };
            &&& u.wf()
            &&& agrees(u, noted_all(s, r, xs, xs.len()))
        }),
{
    let v = ControllerView { config: Some(config), presets, ..t };
    lemma_same_banks(s, v, r);
    assert(same_shape(s, v));
    lemma_devices(s, v, r, table, presets, config.devices, config.devices.len());
}

/// One request keeps the agreement.
proof fn lemma_command(s: ControllerView, r: Record, table: BreathingTable, c: Command)
    requires
        s.wf(),
        agrees(s, r),
        c.valid(),
    ensures
        s.after(table, c).wf(),
        agrees(
            s.after(table, c),
            if c is Found && s.wireless {
                blank_record()
            } else {
                noted_all(s, r, s.settings(c), s.settings(c).len())
            },
        ),
{
    assert(same_shape(s, s));
    match c {
        Command::Effect { id, zone, effect } => {
            lemma_effect(s, s, r, table, id, zone, effect);
            reveal_with_fuel(noted_all, 2);
        },
        Command::Colors { id, zone, colors } => {
            lemma_colors(s, s, r, id, zone, colors);
            reveal_with_fuel(noted_all, 2);
        },
        Command::Effects { id, zones, effect } => {
            lemma_effects(s, r, table, id, zones, effect, zones.len());
            if s.is_bank(id) {
                law_effect_batch(s, table, id, zones, effect);
            }
        },
        Command::ColorBatch { id, writes, one_shot } => {
            lemma_color_writes(s, r, id, writes, writes.len());
            if s.is_bank(id) {
                law_color_batch(s, id, writes, one_shot);
            }
        },
        Command::Config { config, presets } => {
            lemma_config(s, s, r, table, config, presets);
        },
        Command::OpenRgb { active } => {
            let t = ControllerView { openrgb_active: active, ..s };
            lemma_same_banks(s, t, r);
            if s.openrgb_active && !active {
                if let Some(config) = s.config {
                    lemma_config(s, t, r, table, config, s.presets);
                }
            }
        },
        Command::Resync { order, macs, now } => {
            law_resync_leaves_banks(s, table, order, macs, now, order.len());
            lemma_same_banks(s, s.after(table, c), r);
        },
        Command::Radio { .. } => {
            lemma_same_banks(s, s.after(table, c), r);
        },
        Command::Wired { .. } => {
            lemma_same_banks(s, s.after(table, c), r);
        },
        Command::Found { found } => {
            if s.wireless {
                lemma_refresh_starts_anew(s, found);
            }
        },
    }
}

proof fn lemma_history(
    start: ControllerView,
    table: BreathingTable,
    commands: Seq<Command>,
    n: nat,
)
    requires
        start.wf(),
        agrees(start, blank_record()),
        n <= commands.len(),
        forall|i: int| 0 <= i < n ==> (#[trigger] commands[i]).valid(),
    ensures
        state_after(start, table, commands, n).wf(),
        agrees(
            state_after(start, table, commands, n),
            record_after(start, table, commands, n),
        ),
    decreases n,
{
    if n > 0 {
        lemma_history(start, table, commands, (n - 1) as nat);
        let s = state_after(start, table, commands, (n - 1) as nat);
        let r = record_after(start, table, commands, (n - 1) as nat);
        assert(commands[n - 1].valid());
        lemma_command(s, r, table, commands[n - 1]);
    }
}

/// Whatever has been asked of a controller since it was set up, a bank is said
/// to be animated exactly if on some zone of it the effect that was set last
/// is animated: colors, a still effect or a refresh since then would have
/// ended it. Nothing else is ever said to be animated.
pub proof fn law_animated_mode_follows_history(
    wired: Map<Seq<char>, WiredView>,
    found: Option<Seq<WirelessBankView>>,
    table: BreathingTable,
    commands: Seq<Command>,
    id: Seq<char>,
)
    requires
        found matches Some(list) ==> bank_list_wf(list),
        forall|i: int| 0 <= i < commands.len() ==> (#[trigger] commands[i]).valid(),
    ensures
        ({
            let start = ControllerView::initial(wired, found);
            let s = state_after(start, table, commands, commands.len());
            let r = record_after(start, table, commands, commands.len());
            &&& s.active_animated_mode(id) == if exists|zone: u8| #[trigger]
                last_animated(r, id, zone) {
                Some(RgbMode::Breathing)
            } else {
                None
            }
            &&& forall|zone: u8| #[trigger]
                last_animated(r, id, zone) ==> s.banks.contains_key(id) && zone
                    < s.banks[id].layout.total_zones(s.banks[id].fan_count as nat)
        }),
{
    let start = ControllerView::initial(wired, found);
    let bare = ControllerView {
        wired,
        wireless: found is Some,
        banks: Map::empty(),
        config: None,
        presets: Seq::empty(),
        openrgb_active: false,
        resync_at: Map::empty(),
    };
    assert(agrees(bare, blank_record())) by {
        assert forall|i: Seq<char>, zone: u8| #[trigger]
            shown_as(bare, blank_record(), i, zone) by {}
    }
    if let Some(list) = found {
        lemma_refresh_starts_anew(bare, list);
    }
    lemma_history(start, table, commands, commands.len());
    let s = state_after(start, table, commands, commands.len());
    let r = record_after(start, table, commands, commands.len());
    assert forall|zone: u8| #[trigger] last_animated(r, id, zone) implies s.banks.contains_key(id)
        && s.banks[id].effects.contains_key(zone) by {
        assert(shown_as(s, r, id, zone));
    }
    if s.banks.contains_key(id) {
        let effects = s.banks[id].effects;
        if exists|zone: u8| #[trigger] last_animated(r, id, zone) {
            let zone = choose|zone: u8| #[trigger] last_animated(r, id, zone);
            assert(effects.contains_key(zone));
        } else {
            assert forall|zone: u8| !effects.contains_key(zone) by {
                assert(shown_as(s, r, id, zone));
                assert(!last_animated(r, id, zone));
            }
            assert(effects =~= Map::<u8, EffectView>::empty());
        }
    }
}

} // verus!
