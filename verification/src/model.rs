//! The lighting controller as a mathematical object: what each request does
//! to its state, and how it is answered.

use vstd::prelude::*;
use crate::action::{ActionView, ErrorView};
use crate::bank::{BankView, ONE_SHOT_HEADER_REPEATS, STREAM_HEADER_REPEATS};
use crate::capabilities::{bank_capabilities, CapabilitiesView, WiredView};
use crate::config::{ConfigView, DeviceConfigView, PresetView, PresetZoneView, ZoneConfigView};
use crate::effect::{BreathingTable, EffectView, RgbMode};
use crate::fan_type::{FanProfile, Layout};
use crate::mac::bank_id;

verus! {

/// Least time between two uploads that restore the same bank, in nanoseconds.
pub const WIRELESS_RESYNC_MIN_INTERVAL: u64 = 20_000_000_000;

/// A wireless device as far as lighting goes.
#[derive(Debug)]
pub struct WirelessBank {
    pub mac: [u8; 6],
    pub fan_count: u8,
    pub profile: FanProfile,
}

/// The mathematical content of a [`WirelessBank`].
pub struct WirelessBankView {
    pub mac: [u8; 6],
    pub fan_count: u8,
    pub layout: Layout,
}

impl View for WirelessBank {
    type V = WirelessBankView;

    open spec fn view(&self) -> WirelessBankView {
        WirelessBankView { mac: self.mac, fan_count: self.fan_count, layout: self.profile@ }
    }
}

pub open spec fn bank_list_view(banks: Seq<WirelessBank>) -> Seq<WirelessBankView> {
    banks.map_values(|b: WirelessBank| b@)
}

/// Whether every layout in the list is one.
pub open spec fn bank_list_wf(banks: Seq<WirelessBankView>) -> bool {
    forall|i: int| 0 <= i < banks.len() ==> (#[trigger] banks[i]).layout.wf()
}

/// Whether every device of the list has a layout that a bank can have.
pub fn banks_valid(banks: &[WirelessBank]) -> (r: bool)
    ensures
        r == bank_list_wf(bank_list_view(banks@)),
{
    let ghost list = bank_list_view(banks@);
    let mut i: usize = 0;
    while i < banks.len()
        invariant
            i <= banks@.len(),
            list == bank_list_view(banks@),
            forall|j: int| 0 <= j < i ==> (#[trigger] list[j]).layout.wf(),
        decreases banks@.len() - i,
    {
        proof {
            assert(list[i as int] == banks@[i as int]@);
        }
        if !banks[i].profile.is_valid() {
            return false;
        }
        i += 1;
    }
    true
}

/// The mathematical content of a lighting controller.
#[verifier::ext_equal]
pub struct ControllerView {
    pub wired: Map<Seq<char>, WiredView>,
    /// Whether there is a radio to send with.
    pub wireless: bool,
    pub banks: Map<Seq<char>, BankView>,
    pub config: Option<ConfigView>,
    pub presets: Seq<PresetView>,
    /// Whether an OpenRGB client has taken over.
    pub openrgb_active: bool,
    /// When each bank was last restored.
    pub resync_at: Map<[u8; 6], u64>,
}

/// The answers to a list of requests, and the state after them.
#[verifier::ext_equal]
pub struct Run {
    pub state: ControllerView,
    pub out: Seq<Result<ActionView, ErrorView>>,
}

/// A bank after a batch of changes, with the first refusal among them and
/// whether any was taken.
#[verifier::ext_equal]
pub struct Batch {
    pub bank: BankView,
    pub first_error: Option<ErrorView>,
    pub applied: bool,
}

impl Batch {
    pub open spec fn add(self, next: Option<BankView>, zone: u8) -> Batch {
        match next {
            Some(b) => Batch { bank: b, first_error: self.first_error, applied: true },
            None => Batch {
                bank: self.bank,
                first_error: if self.first_error is Some {
                    self.first_error
                } else {
                    Some(self.bank.zone_error(zone))
                },
                applied: self.applied,
            },
        }
    }
}

impl BankView {
    /// The bank after an effect on the first `n` of `zones`.
    pub open spec fn effect_batch(self, zones: Seq<u8>, e: EffectView, n: nat) -> Batch
        decreases n,
    {
        if n == 0 {
            Batch { bank: self, first_error: None, applied: false }
        } else {
            let b = self.effect_batch(zones, e, (n - 1) as nat);
            b.add(b.bank.with_effect(zones[n - 1], e), zones[n - 1])
        }
    }

    /// The bank after the first `n` of a list of color writes.
    pub open spec fn color_batch(self, zones: Seq<(u8, Seq<[u8; 3]>)>, n: nat) -> Batch
        decreases n,
    {
        if n == 0 {
            Batch { bank: self, first_error: None, applied: false }
        } else {
            let b = self.color_batch(zones, (n - 1) as nat);
            b.add(b.bank.with_colors(zones[n - 1].0, zones[n - 1].1), zones[n - 1].0)
        }
    }

    /// Zone number `zone` of the coarse division into fans: all LEDs of a
    /// device that is lights only, else as many LEDs as a fan has.
    pub open spec fn coarse_zone(self, zone: int) -> Option<Seq<[u8; 3]>> {
        let per_zone = self.coarse_len();
        let start = zone * per_zone;
        if start >= self.leds.len() {
            None
        } else {
            Some(
                self.leds.subrange(
                    start,
                    if start + per_zone < self.leds.len() {
                        start + per_zone
                    } else {
                        self.leds.len() as int
                    },
                ),
            )
        }
    }

    pub open spec fn coarse_len(self) -> int {
        if self.layout.is_rgb_only() {
            self.leds.len() as int
        } else {
            self.layout.leds_per_fan as int
        }
    }

    pub open spec fn coarse_count(self) -> int {
        if self.layout.is_rgb_only() {
            1
        } else if self.layout.is_aio() {
            self.fan_count + 1
        } else {
            self.fan_count as int
        }
    }

    /// The coarse zones below `n` that begin inside of the buffer.
    pub open spec fn coarse_zones(self, n: nat) -> Seq<PresetZoneView>
        decreases n,
    {
        if n == 0 {
            Seq::empty()
        } else {
            let before = self.coarse_zones((n - 1) as nat);
            match self.coarse_zone(n - 1) {
                Some(colors) => before.push(
                    PresetZoneView { zone: (n - 1) as u8, colors, effect: None },
                ),
                None => before,
            }
        }
    }
}

/// The contents of a list of color writes.
pub open spec fn color_writes_view(zones: Seq<(u8, Vec<[u8; 3]>)>) -> Seq<(u8, Seq<[u8; 3]>)> {
    zones.map_values(|z: (u8, Vec<[u8; 3]>)| (z.0, z.1@))
}

/// The first preset of the list, from place `i` on, with this name for this
/// device.
pub open spec fn find_preset(
    presets: Seq<PresetView>,
    name: Seq<char>,
    device_id: Seq<char>,
    i: int,
) -> Option<PresetView>
    decreases presets.len() - i,
{
    if i < 0 || i >= presets.len() {
        None
    } else if presets[i].name == name && presets[i].device_id == device_id {
        Some(presets[i])
    } else {
        find_preset(presets, name, device_id, i + 1)
    }
}

/// Whether a bank was restored too short a time ago to be restored again.
pub open spec fn rate_limited(resync_at: Map<[u8; 6], u64>, mac: [u8; 6], now: u64) -> bool {
    resync_at.contains_key(mac) && now - resync_at[mac] < WIRELESS_RESYNC_MIN_INTERVAL
}

impl ControllerView {
    /// Every bank is well formed and goes by the name of its address.
    pub open spec fn wf(self) -> bool {
        forall|id: Seq<char>| #[trigger]
            self.banks.contains_key(id) ==> self.banks[id].wf() && id == bank_id(self.banks[id].mac)
    }

    pub open spec fn is_bank(self, id: Seq<char>) -> bool {
        !self.wired.contains_key(id) && self.wireless && self.banks.contains_key(id)
    }

    pub open spec fn with_bank(self, id: Seq<char>, b: BankView) -> ControllerView {
        ControllerView { banks: self.banks.insert(id, b), ..self }
    }

    /// Sets an effect on one zone.
    pub open spec fn set_effect(
        self,
        table: BreathingTable,
        id: Seq<char>,
        zone: u8,
        e: EffectView,
    ) -> (ControllerView, Result<ActionView, ErrorView>) {
        if self.wired.contains_key(id) {
            (self, Ok(ActionView::WiredEffect { device_id: id, zone, effect: e }))
        } else if self.is_bank(id) {
            match self.banks[id].with_effect(zone, e) {
                Some(b) => (self.with_bank(id, b), Ok(b.upload(table))),
                None => (self, Err(self.banks[id].zone_error(zone))),
            }
        } else {
            (self, Err(ErrorView::DeviceNotFound { device_id: id }))
        }
    }

    /// Sets an effect on several zones, with one upload for all of them.
    pub open spec fn set_effect_zones(
        self,
        table: BreathingTable,
        id: Seq<char>,
        zones: Seq<u8>,
        e: EffectView,
    ) -> (ControllerView, Seq<ActionView>, Option<ErrorView>) {
        if self.wired.contains_key(id) {
            (
                self,
                Seq::new(
                    zones.len(),
                    |i: int| ActionView::WiredEffect { device_id: id, zone: zones[i], effect: e },
                ),
                None,
            )
        } else if self.is_bank(id) {
            let batch = self.banks[id].effect_batch(zones, e, zones.len());
            (
                self.with_bank(id, batch.bank),
                if batch.applied {
                    seq![batch.bank.upload(table)]
                } else {
                    Seq::empty()
                },
                batch.first_error,
            )
        } else {
            (self, Seq::empty(), Some(ErrorView::DeviceNotFound { device_id: id }))
        }
    }

    /// Writes colors to one zone.
    pub open spec fn set_direct_colors(self, id: Seq<char>, zone: u8, colors: Seq<[u8; 3]>) -> (
        ControllerView,
        Result<ActionView, ErrorView>,
    ) {
        if self.wired.contains_key(id) {
            (self, Ok(ActionView::WiredColors { device_id: id, zone, colors }))
        } else if self.is_bank(id) {
            match self.banks[id].with_colors(zone, colors) {
                Some(b) => (self.with_bank(id, b), Ok(b.direct_upload(ONE_SHOT_HEADER_REPEATS))),
                None => (self, Err(self.banks[id].zone_error(zone))),
            }
        } else {
            (self, Err(ErrorView::DeviceNotFound { device_id: id }))
        }
    }

    /// Writes colors to several zones, with one upload for all of them.
    pub open spec fn apply_direct_zones(
        self,
        id: Seq<char>,
        zones: Seq<(u8, Seq<[u8; 3]>)>,
        one_shot: bool,
    ) -> (ControllerView, Seq<ActionView>, Option<ErrorView>) {
        if self.wired.contains_key(id) {
            (
                self,
                Seq::new(
                    zones.len(),
                    |i: int|
                        ActionView::WiredColors {
                            device_id: id,
                            zone: zones[i].0,
                            colors: zones[i].1,
                        },
                ),
                None,
            )
        } else if self.is_bank(id) {
            let batch = self.banks[id].color_batch(zones, zones.len());
            (
                self.with_bank(id, batch.bank),
                if batch.applied {
                    seq![
                        batch.bank.direct_upload(
                            if one_shot {
                                ONE_SHOT_HEADER_REPEATS
                            } else {
                                STREAM_HEADER_REPEATS
                            },
                        ),
                    ]
                } else {
                    Seq::empty()
                },
                batch.first_error,
            )
        } else {
            (self, Seq::empty(), Some(ErrorView::DeviceNotFound { device_id: id }))
        }
    }

    pub open spec fn set_mb_rgb_sync(self, id: Seq<char>, enabled: bool) -> Result<
        ActionView,
        ErrorView,
    > {
        if !self.wired.contains_key(id) {
            Err(ErrorView::DeviceNotFound { device_id: id })
        } else if !self.wired[id].supports_mb_rgb_sync {
            Err(ErrorView::SyncUnsupported { device_id: id })
        } else {
            Ok(ActionView::WiredSync { device_id: id, enabled })
        }
    }

    pub open spec fn set_fan_direction(
        self,
        id: Seq<char>,
        zone: u8,
        swap_lr: bool,
        swap_tb: bool,
    ) -> Result<ActionView, ErrorView> {
        if !self.wired.contains_key(id) {
            Err(ErrorView::DeviceNotFound { device_id: id })
        } else if !self.wired[id].supports_direction {
            Err(ErrorView::DirectionUnsupported { device_id: id })
        } else {
            Ok(ActionView::WiredDirection { device_id: id, zone, swap_lr, swap_tb })
        }
    }

    /// Applies the configuration of a zone: its effect, and its direction
    /// where it asks for one.
    pub open spec fn run_zone(
        self,
        table: BreathingTable,
        id: Seq<char>,
        z: ZoneConfigView,
        out: Seq<Result<ActionView, ErrorView>>,
    ) -> Run {
        let (s, r) = self.set_effect(table, id, z.zone_index, z.effect);
        Run {
            state: s,
            out: if z.swap_lr || z.swap_tb {
                out.push(r).push(s.set_fan_direction(id, z.zone_index, z.swap_lr, z.swap_tb))
            } else {
                out.push(r)
            },
        }
    }

    /// Applies the configuration of the first `n` zones of a device.
    pub open spec fn run_zones(
        self,
        table: BreathingTable,
        d: DeviceConfigView,
        n: nat,
        out: Seq<Result<ActionView, ErrorView>>,
    ) -> Run
        decreases n,
    {
        if n == 0 {
            Run { state: self, out }
        } else {
            let r = self.run_zones(table, d, (n - 1) as nat, out);
            r.state.run_zone(table, d.device_id, d.zones[n - 1], r.out)
        }
    }

    /// Restores the first `n` zones of a preset; those without colors are
    /// left alone.
    pub open spec fn run_preset(
        self,
        id: Seq<char>,
        zones: Seq<PresetZoneView>,
        n: nat,
        out: Seq<Result<ActionView, ErrorView>>,
    ) -> Run
        decreases n,
    {
        if n == 0 {
            Run { state: self, out }
        } else {
            let r = self.run_preset(id, zones, (n - 1) as nat, out);
            let z = zones[n - 1];
            if z.colors.len() == 0 {
                r
            } else {
                let (s, o) = r.state.set_direct_colors(id, z.zone, z.colors);
                Run { state: s, out: r.out.push(o) }
            }
        }
    }

    /// Applies the configuration of a device: its zones, then the preset that
    /// is active on it.
    pub open spec fn run_device(
        self,
        table: BreathingTable,
        presets: Seq<PresetView>,
        d: DeviceConfigView,
        out: Seq<Result<ActionView, ErrorView>>,
    ) -> Run {
        let r = self.run_zones(table, d, d.zones.len(), out);
        match d.active_preset {
            None => r,
            Some(name) => match find_preset(presets, name, d.device_id, 0) {
                None => r,
                Some(p) => r.state.run_preset(d.device_id, p.zones, p.zones.len(), r.out),
            },
        }
    }

    /// Applies the configuration of the first `n` devices.
    pub open spec fn run_devices(
        self,
        table: BreathingTable,
        presets: Seq<PresetView>,
        devices: Seq<DeviceConfigView>,
        n: nat,
    ) -> Run
        decreases n,
    {
        if n == 0 {
            Run { state: self, out: Seq::empty() }
        } else {
            let r = self.run_devices(table, presets, devices, (n - 1) as nat);
            r.state.run_device(table, presets, devices[n - 1], r.out)
        }
    }

    /// Takes a configuration, and applies it unless lighting is off or in the
    /// hands of OpenRGB.
    pub open spec fn apply_config(
        self,
        table: BreathingTable,
        config: ConfigView,
        presets: Seq<PresetView>,
    ) -> Run {
        let s = ControllerView { config: Some(config), presets, ..self };
        if !config.enabled || config.openrgb_server || self.openrgb_active {
            Run { state: s, out: Seq::empty() }
        } else {
            s.run_devices(table, presets, config.devices, config.devices.len())
        }
    }

    /// Hands the lights to an OpenRGB client, or takes them back. When they
    /// come back, the stored configuration is applied again, unless its
    /// OpenRGB server is on.
    pub open spec fn set_openrgb_active(self, table: BreathingTable, active: bool) -> Run {
        let s = ControllerView { openrgb_active: active, ..self };
        if self.openrgb_active == active || active {
            Run { state: s, out: Seq::empty() }
        } else {
            match self.config {
                None => Run { state: s, out: Seq::empty() },
                Some(c) => if c.openrgb_server {
                    Run { state: s, out: Seq::empty() }
                } else {
                    s.apply_config(table, c, self.presets)
                },
            }
        }
    }

    /// Whether bank `id` is to be restored: it is among the drifted ones,
    /// something has been lit on it, and the last time is long enough ago.
    pub open spec fn resync_due(self, id: Seq<char>, macs: Seq<[u8; 6]>, now: u64) -> bool {
        let b = self.banks[id];
        macs.contains(b.mac) && !b.is_untouched() && !rate_limited(self.resync_at, b.mac, now)
    }

    /// Restores the due ones among the first `n` banks of a walk.
    pub open spec fn resync(
        self,
        table: BreathingTable,
        order: Seq<Seq<char>>,
        macs: Seq<[u8; 6]>,
        now: u64,
        n: nat,
    ) -> (ControllerView, Seq<ActionView>)
        decreases n,
    {
        if n == 0 {
            (self, Seq::empty())
        } else {
            let (s, out) = self.resync(table, order, macs, now, (n - 1) as nat);
            let id = order[n - 1];
            if s.resync_due(id, macs, now) {
                (
                    ControllerView { resync_at: s.resync_at.insert(s.banks[id].mac, now), ..s },
                    out.push(s.banks[id].upload(table)),
                )
            } else {
                (s, out)
            }
        }
    }

    /// Restores the due ones among all banks of a walk, if there is a radio.
    pub open spec fn restored(
        self,
        table: BreathingTable,
        order: Seq<Seq<char>>,
        macs: Seq<[u8; 6]>,
        now: u64,
    ) -> (ControllerView, Seq<ActionView>) {
        if self.wireless {
            self.resync(table, order, macs, now, order.len())
        } else {
            (self, Seq::empty())
        }
    }

    /// The state of a bank that is found again: its colors carry over if it
    /// has as many LEDs as before.
    pub open spec fn refreshed(self, d: WirelessBankView) -> BankView {
        let fresh = BankView::fresh(d.mac, d.fan_count, d.layout);
        let id = bank_id(d.mac);
        if self.banks.contains_key(id) && self.banks[id].leds.len() == fresh.leds.len() {
            BankView { leds: self.banks[id].leds, ..fresh }
        } else {
            fresh
        }
    }

    /// The banks by name, from the first `n` of a list of found devices.
    pub open spec fn refreshed_banks(self, found: Seq<WirelessBankView>, n: nat) -> Map<
        Seq<char>,
        BankView,
    >
        decreases n,
    {
        if n == 0 {
            Map::empty()
        } else {
            self.refreshed_banks(found, (n - 1) as nat).insert(
                bank_id(found[n - 1].mac),
                self.refreshed(found[n - 1]),
            )
        }
    }

    pub open spec fn refresh(self, found: Seq<WirelessBankView>) -> ControllerView {
        if self.wireless {
            ControllerView { banks: self.refreshed_banks(found, found.len()), ..self }
        } else {
            self
        }
    }

    /// A controller that has just been set up.
    pub open spec fn initial(
        wired: Map<Seq<char>, WiredView>,
        found: Option<Seq<WirelessBankView>>,
    ) -> ControllerView {
        let s = ControllerView {
            wired,
            wireless: found is Some,
            banks: Map::empty(),
            config: None,
            presets: Seq::empty(),
            openrgb_active: false,
            resync_at: Map::empty(),
        };
        match found {
            Some(list) => s.refresh(list),
            None => s,
        }
    }

    pub open spec fn zone_colors(self, id: Seq<char>, zone: u8) -> Option<Seq<[u8; 3]>> {
        if self.banks.contains_key(id) {
            self.banks[id].zone_leds(zone)
        } else {
            None
        }
    }

    pub open spec fn get_zone_colors(self, id: Seq<char>, zone: u8) -> Option<Seq<[u8; 3]>> {
        if self.banks.contains_key(id) {
            self.banks[id].coarse_zone(zone as int)
        } else {
            None
        }
    }

    pub open spec fn get_all_zone_colors(self, id: Seq<char>) -> Option<Seq<PresetZoneView>> {
        if self.banks.contains_key(id) {
            Some(self.banks[id].coarse_zones(self.banks[id].coarse_count() as nat))
        } else {
            None
        }
    }

    /// The mode of the zones of a bank that are animated. A still bank has
    /// none.
    pub open spec fn active_animated_mode(self, id: Seq<char>) -> Option<RgbMode> {
        if self.banks.contains_key(id) && !(self.banks[id].effects =~= Map::<u8, EffectView>::empty()) {
            Some(RgbMode::Breathing)
        } else {
            None
        }
    }

    /// What the wired devices and the banks offer, each in its walk order.
    pub open spec fn capabilities(
        self,
        wired_order: Seq<Seq<char>>,
        bank_order: Seq<Seq<char>>,
    ) -> Seq<CapabilitiesView> {
        Seq::new(
            wired_order.len(),
            |i: int| CapabilitiesView { device_id: wired_order[i], device: self.wired[wired_order[i]] },
        ) + Seq::new(
            bank_order.len(),
            |i: int| bank_capabilities(bank_order[i], self.banks[bank_order[i]]),
        )
    }
}

} // verus!
