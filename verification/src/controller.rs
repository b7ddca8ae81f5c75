//! The lighting controller: which device gets which effect, and what has to
//! be sent for it.
//!
//! The controller never touches a device. Each request changes its state and
//! answers with the actions that the caller then performs; the state does not
//! depend on how these turn out.

use vstd::prelude::*;
use crate::action::{actions_view, outcome_view, outcomes_view, Action, ActionView, ErrorView, RgbError};
use crate::bank::{
    apply_zone_colors_state, apply_zone_effect_state, direct_upload, is_untouched,
    upload_wireless_state, wireless_zone_slice, WirelessRgbState, ONE_SHOT_HEADER_REPEATS,
    STREAM_HEADER_REPEATS,
};
use crate::capabilities::{
    describe_bank, describe_wired, CapabilitiesView, RgbDeviceCapabilities, WiredDevice,
};
use crate::config::{
    clone_presets, preset_zones_view, presets_view, RgbAppConfig, RgbDeviceConfig, RgbPreset,
    RgbPresetZone, RgbZoneConfig,
};
use crate::effect::{copy_colors, BreathingTable, EffectView, RgbEffect, RgbMode};
use crate::mac::{bank_id, bank_id_string};
use crate::model::{
    bank_list_view, bank_list_wf, color_writes_view, find_preset, ControllerView, Run,
    WirelessBank, WIRELESS_RESYNC_MIN_INTERVAL,
};
use crate::vec_map::{MapKey, VecMap};

verus! {

/// Everything the controller knows.
pub struct RgbController {
    /// The wired devices, by name, as their drivers last described them.
    wired: VecMap<String, WiredDevice>,
    /// Whether there is a radio to send with.
    wireless: bool,
    /// The wireless banks, by name.
    wireless_state: VecMap<String, WirelessRgbState>,
    config: Option<RgbAppConfig>,
    presets: Vec<RgbPreset>,
    /// Whether an OpenRGB client has taken over.
    openrgb_active: bool,
    /// When each bank was last restored, in nanoseconds.
    wireless_resync_at: VecMap<[u8; 6], u64>,
    breathing: BreathingTable,
}

/// The answer to a request for several zones: what is to be performed, all of
/// it, and the first refusal.
#[derive(Debug)]
pub struct BatchAnswer {
    pub actions: Vec<Action>,
    pub refused: Option<RgbError>,
}

pub open spec fn refusal_view(e: Option<RgbError>) -> Option<ErrorView> {
    match e {
        Some(x) => Some(x@),
        None => None,
    }
}

pub open spec fn colors_view(c: Option<Vec<[u8; 3]>>) -> Option<Seq<[u8; 3]>> {
    match c {
        Some(x) => Some(x@),
        None => None,
    }
}

pub open spec fn capabilities_view(c: Seq<RgbDeviceCapabilities>) -> Seq<CapabilitiesView> {
    c.map_values(|x: RgbDeviceCapabilities| x@)
}

impl View for RgbController {
    type V = ControllerView;

    closed spec fn view(&self) -> ControllerView {
        ControllerView {
            wired: self.wired@.map_values(|d: WiredDevice| d@),
            wireless: self.wireless,
            banks: self.wireless_state@.map_values(|b: WirelessRgbState| b@),
            config: match self.config {
                Some(c) => Some(c@),
                None => None,
            },
            presets: presets_view(self.presets@),
            openrgb_active: self.openrgb_active,
            resync_at: self.wireless_resync_at@,
        }
    }
}

impl RgbController {
    /// The curve that breathing follows.
    pub closed spec fn table(&self) -> BreathingTable {
        self.breathing
    }

    /// The names of the wired devices, in the order of a walk.
    pub closed spec fn wired_order(&self) -> Seq<Seq<char>> {
        self.wired.ids()
    }

    /// The names of the banks, in the order of a walk.
    pub closed spec fn bank_order(&self) -> Seq<Seq<char>> {
        self.wireless_state.ids()
    }

    /// That the tables inside are maps of well-formed values.
    pub closed spec fn tables_wf(&self) -> bool {
        &&& self.wired.wf()
        &&& self.wireless_state.wf()
        &&& self.wireless_resync_at.wf()
        &&& forall|id: Seq<char>| #[trigger]
            self.wireless_state@.contains_key(id) ==> self.wireless_state@[id].wf()
    }

    pub open spec fn wf(&self) -> bool {
        &&& self.tables_wf()
        &&& self.table().wf()
        &&& self@.wf()
        &&& self.wired_order().no_duplicates()
        &&& self.bank_order().no_duplicates()
        &&& forall|id: Seq<char>|
            #![trigger self.wired_order().contains(id)]
            self.wired_order().contains(id) <==> self@.wired.contains_key(id)
        &&& forall|id: Seq<char>|
            #![trigger self.bank_order().contains(id)]
            self.bank_order().contains(id) <==> self@.banks.contains_key(id)
    }

    /// That a request left everything but the banks' states as it was.
    pub open spec fn same_devices(&self, other: &RgbController) -> bool {
        &&& self.table() == other.table()
        &&& self.wired_order() == other.wired_order()
        &&& self.bank_order() == other.bank_order()
    }

    /// Sets an effect on a zone. The answer is what has to be sent.
    pub fn set_effect(&mut self, device_id: &str, zone: u8, effect: &RgbEffect) -> (r: Result<
        Action,
        RgbError,
    >)
        requires
            old(self).wf(),
        ensures
            final(self).wf(),
            final(self).same_devices(old(self)),
            (final(self)@, outcome_view(r)) == old(self)@.set_effect(
                old(self).table(),
                device_id@,
                zone,
                effect@,
            ),
    {
        let id = device_id.to_owned();
        if self.wired.contains_key(&id) {
            return Ok(Action::WiredEffect { device_id: id, zone, effect: effect.clone() });
        }
        if self.wireless {
            if let Some(i) = self.wireless_state.position(&id) {
                let state = self.wireless_state.value_mut(i);
                let ghost bank = state@;
                let res = apply_zone_effect_state(state, zone, effect);
                proof {
                    match bank.with_effect(zone, effect@) {
                        Some(b) => {
                            assert(self@ =~= old(self)@.with_bank(device_id@, b));
                        },
                        None => {
                            assert(self@ =~= old(self)@);
                        },
                    }
                }
                return match res {
                    Ok(_) => Ok(
                        upload_wireless_state(self.wireless_state.value_at(i), &self.breathing),
                    ),
                    Err(e) => Err(e),
                };
            }
        }
        Err(RgbError::DeviceNotFound { device_id: id })
    }

    /// Sets an effect on several zones of a device, with one upload for all of
    /// them on a bank. Zones that are refused do not hold up the others.
    pub fn set_effect_zones(&mut self, device_id: &str, zones: &[u8], effect: &RgbEffect) -> (r:
        BatchAnswer)
        requires
            old(self).wf(),
        ensures
            final(self).wf(),
            final(self).same_devices(old(self)),
            (final(self)@, actions_view(r.actions@), refusal_view(r.refused)) == old(
                self,
            )@.set_effect_zones(old(self).table(), device_id@, zones@, effect@),
    {
        let id = device_id.to_owned();
        let mut actions: Vec<Action> = Vec::new();
        let ghost start = self@;
        if self.wired.contains_key(&id) {
            let mut k: usize = 0;
            while k < zones.len()
                invariant
                    k <= zones@.len(),
                    id@ == device_id@,
                    actions_view(actions@) =~= Seq::new(
                        k as nat,
                        |i: int|
                            ActionView::WiredEffect {
                                device_id: device_id@,
                                zone: zones@[i],
                                effect: effect@,
                            },
                    ),
                decreases zones@.len() - k,
            {
                let a = Action::WiredEffect {
                    device_id: id.clone(),
                    zone: zones[k],
                    effect: effect.clone(),
                };
                proof {
                    assert(actions_view(actions@.push(a)) =~= actions_view(actions@).push(a@));
                }
                actions.push(a);
                k += 1;
            }
            return BatchAnswer { actions, refused: None };
        }
        if self.wireless {
            if let Some(i) = self.wireless_state.position(&id) {
                let ghost bank = self@.banks[device_id@];
                let mut refused: Option<RgbError> = None;
                let mut applied = false;
                let mut k: usize = 0;
                proof {
                    assert(self@ =~= start.with_bank(device_id@, bank));
                }
                while k < zones.len()
                    invariant
                        k <= zones@.len(),
                        self.wf(),
                        self.same_devices(old(self)),
                        i < self.bank_order().len(),
                        self.bank_order()[i as int] == device_id@,
                        self@ == start.with_bank(
                            device_id@,
                            bank.effect_batch(zones@, effect@, k as nat).bank,
                        ),
                        refusal_view(refused) == bank.effect_batch(zones@, effect@, k as nat).first_error,
                        applied == bank.effect_batch(zones@, effect@, k as nat).applied,
                    decreases zones@.len() - k,
                {
                    let ghost batch = bank.effect_batch(zones@, effect@, k as nat);
                    let ghost here = self@;
                    let zone: u8 = zones[k];
                    let state = self.wireless_state.value_mut(i);
                    let ghost held = state@;
                    let res = apply_zone_effect_state(state, zone, effect);
                    proof {
                        assert(held == batch.bank);
                        match batch.bank.with_effect(zone, effect@) {
                            Some(b) => {
                                assert(self@ =~= start.with_bank(device_id@, b));
                            },
                            None => {
                                assert(self@ =~= here);
                            },
                        }
                    }
                    match res {
                        Ok(_) => {
                            applied = true;
                        },
                        Err(e) => {
                            if refused.is_none() {
                                refused = Some(e);
                            }
                        },
                    }
                    k += 1;
                }
                if applied {
                    let a = upload_wireless_state(
                        self.wireless_state.value_at(i),
                        &self.breathing,
                    );
                    actions.push(a);
                    proof {
                        assert(actions_view(actions@) =~= seq![a@]);
                    }
                } else {
                    proof {
                        assert(actions_view(actions@) =~= Seq::empty());
                    }
                }
                return BatchAnswer { actions, refused };
            }
        }
        proof {
            assert(actions_view(actions@) =~= Seq::empty());
        }
        BatchAnswer { actions, refused: Some(RgbError::DeviceNotFound { device_id: id }) }
    }

    /// Writes colors to a zone. The answer is what has to be sent.
    pub fn set_direct_colors(&mut self, device_id: &str, zone: u8, colors: &[[u8; 3]]) -> (r:
        Result<Action, RgbError>)
        requires
            old(self).wf(),
        ensures
            final(self).wf(),
            final(self).same_devices(old(self)),
            (final(self)@, outcome_view(r)) == old(self)@.set_direct_colors(
                device_id@,
                zone,
                colors@,
            ),
    {
        let id = device_id.to_owned();
        if self.wired.contains_key(&id) {
            return Ok(Action::WiredColors { device_id: id, zone, colors: copy_colors(colors) });
        }
        if self.wireless {
            if let Some(i) = self.wireless_state.position(&id) {
                let state = self.wireless_state.value_mut(i);
                let ghost bank = state@;
                let res = apply_zone_colors_state(state, zone, colors);
                proof {
                    match bank.with_colors(zone, colors@) {
                        Some(b) => {
                            assert(self@ =~= old(self)@.with_bank(device_id@, b));
                        },
                        None => {
                            assert(self@ =~= old(self)@);
                        },
                    }
                }
                return match res {
                    Ok(_) => Ok(
                        direct_upload(self.wireless_state.value_at(i), ONE_SHOT_HEADER_REPEATS),
                    ),
                    Err(e) => Err(e),
                };
            }
        }
        Err(RgbError::DeviceNotFound { device_id: id })
    }

    /// Writes colors to several zones of a device, with one upload for all of
    /// them on a bank. Zones that are refused do not hold up the others. With
    /// `one_shot` the upload is repeated until it can be relied on; a frame of
    /// a stream is made up for by the next one.
    pub fn apply_direct_zones(
        &mut self,
        device_id: &str,
        zones: &[(u8, Vec<[u8; 3]>)],
        one_shot: bool,
    ) -> (r: BatchAnswer)
        requires
            old(self).wf(),
        ensures
            final(self).wf(),
            final(self).same_devices(old(self)),
            (final(self)@, actions_view(r.actions@), refusal_view(r.refused)) == old(
                self,
            )@.apply_direct_zones(device_id@, color_writes_view(zones@), one_shot),
    {
        let id = device_id.to_owned();
        let mut actions: Vec<Action> = Vec::new();
        let ghost start = self@;
        let ghost writes = color_writes_view(zones@);
        if self.wired.contains_key(&id) {
            let mut k: usize = 0;
            while k < zones.len()
                invariant
                    k <= zones@.len(),
                    id@ == device_id@,
                    writes == color_writes_view(zones@),
                    actions_view(actions@) =~= Seq::new(
                        k as nat,
                        |i: int|
                            ActionView::WiredColors {
                                device_id: device_id@,
                                zone: writes[i].0,
                                colors: writes[i].1,
                            },
                    ),
                decreases zones@.len() - k,
            {
                let a = Action::WiredColors {
                    device_id: id.clone(),
                    zone: zones[k].0,
                    colors: copy_colors(&zones[k].1),
                };
                proof {
                    assert(actions_view(actions@.push(a)) =~= actions_view(actions@).push(a@));
                }
                actions.push(a);
                k += 1;
            }
            return BatchAnswer { actions, refused: None };
        }
        if self.wireless {
            if let Some(i) = self.wireless_state.position(&id) {
                let ghost bank = self@.banks[device_id@];
                let mut refused: Option<RgbError> = None;
                let mut applied = false;
                let mut k: usize = 0;
                proof {
                    assert(self@ =~= start.with_bank(device_id@, bank));
                }
                while k < zones.len()
                    invariant
                        k <= zones@.len(),
                        writes == color_writes_view(zones@),
                        self.wf(),
                        self.same_devices(old(self)),
                        i < self.bank_order().len(),
                        self.bank_order()[i as int] == device_id@,
                        self@ == start.with_bank(
                            device_id@,
                            bank.color_batch(writes, k as nat).bank,
                        ),
                        refusal_view(refused) == bank.color_batch(writes, k as nat).first_error,
                        applied == bank.color_batch(writes, k as nat).applied,
                    decreases zones@.len() - k,
                {
                    let ghost batch = bank.color_batch(writes, k as nat);
                    let ghost here = self@;
                    let zone: u8 = zones[k].0;
                    let state = self.wireless_state.value_mut(i);
                    let ghost held = state@;
                    let res = apply_zone_colors_state(state, zone, &zones[k].1);
                    proof {
                        assert(held == batch.bank);
                        assert(writes[k as int] == (zone, zones@[k as int].1@));
                        match batch.bank.with_colors(zone, writes[k as int].1) {
                            Some(b) => {
                                assert(self@ =~= start.with_bank(device_id@, b));
                            },
                            None => {
                                assert(self@ =~= here);
                            },
                        }
                    }
                    match res {
                        Ok(_) => {
                            applied = true;
                        },
                        Err(e) => {
                            if refused.is_none() {
                                refused = Some(e);
                            }
                        },
                    }
                    k += 1;
                }
                if applied {
                    let repeats: u8 = if one_shot {
                        ONE_SHOT_HEADER_REPEATS
                    } else {
                        STREAM_HEADER_REPEATS
                    };
                    let a = direct_upload(self.wireless_state.value_at(i), repeats);
                    actions.push(a);
                    proof {
                        assert(actions_view(actions@) =~= seq![a@]);
                    }
                } else {
                    proof {
                        assert(actions_view(actions@) =~= Seq::empty());
                    }
                }
                return BatchAnswer { actions, refused };
            }
        }
        proof {
            assert(actions_view(actions@) =~= Seq::empty());
        }
        BatchAnswer { actions, refused: Some(RgbError::DeviceNotFound { device_id: id }) }
    }

    /// Hands a wired device to the mainboard's lighting, or takes it back.
    pub fn set_mb_rgb_sync(&self, device_id: &str, enabled: bool) -> (r: Result<Action, RgbError>)
        requires
            self.wf(),
        ensures
            outcome_view(r) == self@.set_mb_rgb_sync(device_id@, enabled),
    {
        let id = device_id.to_owned();
        if let Some(dev) = self.wired.get(&id) {
            if !dev.supports_mb_rgb_sync {
                return Err(RgbError::SyncUnsupported { device_id: id });
            }
            return Ok(Action::WiredSync { device_id: id, enabled });
        }
        Err(RgbError::DeviceNotFound { device_id: id })
    }

    /// Sets which way round the patterns of a wired zone run.
    pub fn set_fan_direction(&self, device_id: &str, zone: u8, swap_lr: bool, swap_tb: bool) -> (r:
        Result<Action, RgbError>)
        requires
            self.wf(),
        ensures
            outcome_view(r) == self@.set_fan_direction(device_id@, zone, swap_lr, swap_tb),
    {
        let id = device_id.to_owned();
        if let Some(dev) = self.wired.get(&id) {
            if !dev.supports_direction {
                return Err(RgbError::DirectionUnsupported { device_id: id });
            }
            return Ok(Action::WiredDirection { device_id: id, zone, swap_lr, swap_tb });
        }
        Err(RgbError::DeviceNotFound { device_id: id })
    }

    fn run_zones(
        &mut self,
        d: &RgbDeviceConfig,
        out: &mut Vec<Result<Action, RgbError>>,
    )
        requires
            old(self).wf(),
        ensures
            final(self).wf(),
            final(self).same_devices(old(self)),
            (Run { state: final(self)@, out: outcomes_view(final(out)@) }) == old(self)@.run_zones(
                old(self).table(),
                d@,
                d@.zones.len(),
                outcomes_view(old(out)@),
            ),
    {
        let ghost s0 = self@;
        let ghost t = self.table();
        let ghost o0 = outcomes_view(out@);
        let mut k: usize = 0;
        while k < d.zones.len()
            invariant
                k <= d.zones@.len(),
                self.wf(),
                self.same_devices(old(self)),
                t == self.table(),
                (Run { state: self@, out: outcomes_view(out@) }) == s0.run_zones(
                    t,
                    d@,
                    k as nat,
                    o0,
                ),
            decreases d.zones@.len() - k,
        {
            let z: &RgbZoneConfig = &d.zones[k];
            proof {
                assert(d@.zones[k as int] == z@);
            }
            let ghost before = outcomes_view(out@);
            let r = self.set_effect(d.device_id.as_str(), z.zone_index, &z.effect);
            let ghost r1 = outcome_view(r);
            out.push(r);
            proof {
                assert(outcomes_view(out@) =~= before.push(r1));
            }
            if z.swap_lr || z.swap_tb {
                let q = self.set_fan_direction(
                    d.device_id.as_str(),
                    z.zone_index,
                    z.swap_lr,
                    z.swap_tb,
                );
                let ghost r2 = outcome_view(q);
                out.push(q);
                proof {
                    assert(outcomes_view(out@) =~= before.push(r1).push(r2));
                }
            }
            k += 1;
        }
    }

    fn run_preset(
        &mut self,
        device_id: &String,
        zones: &Vec<RgbPresetZone>,
        out: &mut Vec<Result<Action, RgbError>>,
    )
        requires
            old(self).wf(),
        ensures
            final(self).wf(),
            final(self).same_devices(old(self)),
            (Run { state: final(self)@, out: outcomes_view(final(out)@) }) == old(self)@.run_preset(
                device_id@,
                preset_zones_view(zones@),
                zones@.len(),
                outcomes_view(old(out)@),
            ),
    {
        let ghost s0 = self@;
        let ghost o0 = outcomes_view(out@);
        let ghost zs = preset_zones_view(zones@);
        let mut k: usize = 0;
        while k < zones.len()
            invariant
                k <= zones@.len(),
                zs == preset_zones_view(zones@),
                self.wf(),
                self.same_devices(old(self)),
                (Run { state: self@, out: outcomes_view(out@) }) == s0.run_preset(
                    device_id@,
                    zs,
                    k as nat,
                    o0,
                ),
            decreases zones@.len() - k,
        {
            let z: &RgbPresetZone = &zones[k];
            proof {
                assert(zs[k as int] == z@);
            }
            if z.colors.len() != 0 {
                let ghost before = outcomes_view(out@);
                let r = self.set_direct_colors(device_id.as_str(), z.zone, &z.colors);
                let ghost r1 = outcome_view(r);
                out.push(r);
                proof {
                    assert(outcomes_view(out@) =~= before.push(r1));
                }
            }
            k += 1;
        }
    }

    fn run_device(
        &mut self,
        presets: &[RgbPreset],
        d: &RgbDeviceConfig,
        out: &mut Vec<Result<Action, RgbError>>,
    )
        requires
            old(self).wf(),
        ensures
            final(self).wf(),
            final(self).same_devices(old(self)),
            (Run { state: final(self)@, out: outcomes_view(final(out)@) }) == old(self)@.run_device(
                old(self).table(),
                presets_view(presets@),
                d@,
                outcomes_view(old(out)@),
            ),
    {
        self.run_zones(d, out);
        if let Some(name) = &d.active_preset {
            if let Some(i) = preset_position(presets, name, &d.device_id) {
                proof {
                    assert(presets_view(presets@)[i as int] == presets@[i as int]@);
                    assert(presets@[i as int]@.zones == preset_zones_view(
                        presets@[i as int].zones@,
                    ));
                }
                self.run_preset(&d.device_id, &presets[i].zones, out);
            }
        }
    }

    /// Takes a configuration, and applies it unless lighting is off or in the
    /// hands of OpenRGB. The answers come in the order in which the
    /// configuration asks; one that is refused does not hold up the others.
    pub fn apply_config(&mut self, config: &RgbAppConfig, presets: &[RgbPreset]) -> (r: Vec<
        Result<Action, RgbError>,
    >)
        requires
            old(self).wf(),
        ensures
            final(self).wf(),
            final(self).same_devices(old(self)),
            (Run { state: final(self)@, out: outcomes_view(r@) }) == old(self)@.apply_config(
                old(self).table(),
                config@,
                presets_view(presets@),
            ),
    {
        let ghost t = self.table();
        self.config = Some(config.clone());
        self.presets = clone_presets(presets);
        let ghost s0 = ControllerView {
            config: Some(config@),
            presets: presets_view(presets@),
            ..old(self)@
        };
        let mut out: Vec<Result<Action, RgbError>> = Vec::new();
        proof {
            assert(self@ =~= s0);
            assert(outcomes_view(out@) =~= Seq::empty());
        }
        if !config.enabled {
            return out;
        }
        if config.openrgb_server {
            return out;
        }
        if self.openrgb_active {
            return out;
        }
        let ghost devices = config@.devices;
        let ghost ps = presets_view(presets@);
        let mut k: usize = 0;
        while k < config.devices.len()
            invariant
                k <= config.devices@.len(),
                devices == config@.devices,
                ps == presets_view(presets@),
                self.wf(),
                self.same_devices(old(self)),
                t == self.table(),
                (Run { state: self@, out: outcomes_view(out@) }) == s0.run_devices(
                    t,
                    ps,
                    devices,
                    k as nat,
                ),
            decreases config.devices@.len() - k,
        {
            proof {
                assert(devices[k as int] == config.devices@[k as int]@);
            }
            self.run_device(presets, &config.devices[k], &mut out);
            k += 1;
        }
        out
    }

    /// Hands the lights to an OpenRGB client, or takes them back.
    pub fn set_openrgb_active(&mut self, active: bool) -> (r: Vec<Result<Action, RgbError>>)
        requires
            old(self).wf(),
        ensures
            final(self).wf(),
            final(self).same_devices(old(self)),
            (Run { state: final(self)@, out: outcomes_view(r@) }) == old(self)@.set_openrgb_active(
                old(self).table(),
                active,
            ),
    {
        let none: Vec<Result<Action, RgbError>> = Vec::new();
        proof {
            assert(outcomes_view(none@) =~= Seq::empty());
        }
        if self.openrgb_active == active {
            proof {
                assert(self@ =~= (ControllerView { openrgb_active: active, ..old(self)@ }));
            }
            return none;
        }
        self.openrgb_active = active;
        proof {
            assert(self@ =~= (ControllerView { openrgb_active: active, ..old(self)@ }));
        }
        if active {
            return none;
        }
        let stored: Option<RgbAppConfig> = match &self.config {
            Some(c) => Some(c.clone()),
            None => None,
        };
        match stored {
            None => none,
            Some(c) => {
                if c.openrgb_server {
                    none
                } else {
                    let presets = clone_presets(&self.presets);
                    self.apply_config(&c, &presets)
                }
            },
        }
    }

    /// Restores banks whose firmware has lost its lighting: for each bank
    /// among `macs` that has been lit and was not restored of late, what it
    /// showed is sent again. A bank counts as restored whether or not the
    /// upload succeeds.
    pub fn resync_wireless_state(&mut self, macs: &[[u8; 6]], now: u64) -> (r: Vec<Action>)
        requires
            old(self).wf(),
        ensures
            final(self).wf(),
            final(self).same_devices(old(self)),
            (final(self)@, actions_view(r@)) == old(self)@.restored(
                old(self).table(),
                old(self).bank_order(),
                macs@,
                now,
            ),
    {
        let mut out: Vec<Action> = Vec::new();
        proof {
            assert(actions_view(out@) =~= Seq::empty());
        }
        if !self.wireless {
            return out;
        }
        let ghost s0 = self@;
        let ghost t = self.table();
        let ghost order = self.bank_order();
        let mut k: usize = 0;
        while k < self.wireless_state.len()
            invariant
                self.wf(),
                self.same_devices(old(self)),
                t == self.table(),
                order == self.bank_order(),
                k <= order.len(),
                self@.banks == s0.banks,
                (self@, actions_view(out@)) == s0.resync(t, order, macs@, now, k as nat),
            decreases order.len() - k,
        {
            let state = self.wireless_state.value_at(k);
            let ghost b = state@;
            let ghost here = self@;
            proof {
                assert(self@.banks[order[k as int]] == b);
            }
            if contains_mac(macs, &state.mac) && !is_untouched(state) {
                let mac: [u8; 6] = state.mac;
                let limited = match self.wireless_resync_at.get(&mac) {
                    Some(t0) => now < *t0 || now - *t0 < WIRELESS_RESYNC_MIN_INTERVAL,
                    None => false,
                };
                if !limited {
                    let a = upload_wireless_state(state, &self.breathing);
                    self.wireless_resync_at.insert(mac, now);
                    proof {
                        assert(self@ =~= (ControllerView {
                            resync_at: here.resync_at.insert(b.mac, now),
                            ..here
                        }));
                        assert(actions_view(out@.push(a)) =~= actions_view(out@).push(a@));
                    }
                    out.push(a);
                }
            }
            k += 1;
        }
        out
    }

    /// The colors of a zone of a bank. Of a wired device none are kept.
    pub fn zone_colors(&self, device_id: &str, zone: u8) -> (r: Option<Vec<[u8; 3]>>)
        requires
            self.wf(),
        ensures
            colors_view(r) == self@.zone_colors(device_id@, zone),
    {
        let id = device_id.to_owned();
        let state = match self.wireless_state.get(&id) {
            Some(s) => s,
            None => return None,
        };
        match wireless_zone_slice(state, zone as usize) {
            Some((start, len)) => {
                assert(start + len <= state.led_state.len());
                Some(copy_range(&state.led_state, start, start + len))
            },
            None => None,
        }
    }

    /// The animated mode that a bank plays, if any of its zones is animated.
    pub fn active_animated_mode(&self, device_id: &str) -> (r: Option<RgbMode>)
        requires
            self.wf(),
        ensures
            r == self@.active_animated_mode(device_id@),
    {
        let id = device_id.to_owned();
        let state = match self.wireless_state.get(&id) {
            Some(s) => s,
            None => return None,
        };
        if state.sub_zone_effects.len() == 0 {
            proof {
                assert(state@.effects =~= Map::<u8, EffectView>::empty());
            }
            return None;
        }
        let e = state.sub_zone_effects.value_at(0);
        proof {
            let z = state.sub_zone_effects.ids()[0];
            assert(state@.effects.contains_key(z));
            assert(self@.banks[device_id@] == state@);
            assert(state@.effects[z] == e@);
        }
        Some(e.mode)
    }

    /// What every device offers to a client.
    pub fn capabilities(&self) -> (r: Vec<RgbDeviceCapabilities>)
        requires
            self.wf(),
        ensures
            capabilities_view(r@) == self@.capabilities(self.wired_order(), self.bank_order()),
    {
        let mut caps: Vec<RgbDeviceCapabilities> = Vec::new();
        let ghost want = self@.capabilities(self.wired_order(), self.bank_order());
        let ghost wired_n = self.wired_order().len();
        let mut k: usize = 0;
        while k < self.wired.len()
            invariant
                self.wf(),
                want == self@.capabilities(self.wired_order(), self.bank_order()),
                k <= self.wired_order().len(),
                capabilities_view(caps@) =~= want.take(k as int),
            decreases self.wired_order().len() - k,
        {
            let c = describe_wired(self.wired.key_at(k), self.wired.value_at(k));
            proof {
                assert(c@ == want[k as int]);
                assert(capabilities_view(caps@.push(c)) =~= capabilities_view(caps@).push(c@));
            }
            caps.push(c);
            k += 1;
        }
        let mut j: usize = 0;
        while j < self.wireless_state.len()
            invariant
                self.wf(),
                want == self@.capabilities(self.wired_order(), self.bank_order()),
                wired_n == self.wired_order().len(),
                j <= self.bank_order().len(),
                capabilities_view(caps@) =~= want.take(wired_n + j),
            decreases self.bank_order().len() - j,
        {
            let c = describe_bank(self.wireless_state.key_at(j), self.wireless_state.value_at(j));
            proof {
                assert(c@ == want[wired_n + j]);
                assert(capabilities_view(caps@.push(c)) =~= capabilities_view(caps@).push(c@));
            }
            caps.push(c);
            j += 1;
        }
        proof {
            assert(want.take(wired_n + j) =~= want);
        }
        caps
    }
}

impl RgbController {
    /// How many zones the coarse division of a bank has, and how many LEDs
    /// each of them.
    fn zone_layout(state: &WirelessRgbState) -> (r: (usize, usize))
        requires
            state.wf(),
        ensures
            r.0 == state@.coarse_count(),
            r.1 == state@.coarse_len(),
    {
        if state.profile.total_led_count_override.is_some() {
            return (1, state.led_state.len());
        }
        let total_zones: usize = if state.profile.fan_type.is_aio() {
            state.fan_count as usize + 1
        } else {
            state.fan_count as usize
        };
        (total_zones, state.leds_per_fan as usize)
    }

    /// The colors of one zone of the coarse division of a bank.
    pub fn get_zone_colors(&self, device_id: &str, zone: u8) -> (r: Option<Vec<[u8; 3]>>)
        requires
            self.wf(),
        ensures
            colors_view(r) == self@.get_zone_colors(device_id@, zone),
    {
        let id = device_id.to_owned();
        let state = match self.wireless_state.get(&id) {
            Some(s) => s,
            None => return None,
        };
        proof {
            assert(self@.banks[device_id@] == state@);
        }
        coarse_colors(state, zone as usize)
    }

    /// The colors of all zones of the coarse division of a bank, as a preset
    /// keeps them.
    pub fn get_all_zone_colors(&self, device_id: &str) -> (r: Option<Vec<RgbPresetZone>>)
        requires
            self.wf(),
        ensures
            match r {
                Some(zones) => Some(preset_zones_view(zones@)) == self@.get_all_zone_colors(
                    device_id@,
                ),
                None => self@.get_all_zone_colors(device_id@) is None,
            },
    {
        let id = device_id.to_owned();
        let state = match self.wireless_state.get(&id) {
            Some(s) => s,
            None => return None,
        };
        let ghost b = state@;
        proof {
            assert(self@.banks[device_id@] == b);
        }
        let (total_zones, _): (usize, usize) = Self::zone_layout(state);
        let mut zones: Vec<RgbPresetZone> = Vec::new();
        proof {
            assert(preset_zones_view(zones@) =~= Seq::empty());
        }
        let mut z: usize = 0;
        while z < total_zones
            invariant
                z <= total_zones <= 256,
                state.wf(),
                b == state@,
                preset_zones_view(zones@) == b.coarse_zones(z as nat),
            decreases total_zones - z,
        {
            if let Some(colors) = coarse_colors(state, z) {
                let entry = RgbPresetZone { zone: z as u8, colors, effect: None };
                proof {
                    assert(preset_zones_view(zones@.push(entry)) =~= preset_zones_view(
                        zones@,
                    ).push(entry@));
                }
                zones.push(entry);
            }
            z += 1;
        }
        Some(zones)
    }

    /// Whether the name is that of a wireless bank.
    pub fn is_wireless(&self, device_id: &str) -> (r: bool)
        requires
            self.wf(),
        ensures
            r == self@.banks.contains_key(device_id@),
    {
        let id = device_id.to_owned();
        self.wireless_state.contains_key(&id)
    }

    /// Says whether there is a radio to send with.
    pub fn set_wireless(&mut self, present: bool)
        requires
            old(self).wf(),
        ensures
            final(self).wf(),
            final(self).same_devices(old(self)),
            final(self)@ == (ControllerView { wireless: present, ..old(self)@ }),
    {
        self.wireless = present;
        proof {
            assert(self@ =~= (ControllerView { wireless: present, ..old(self)@ }));
        }
    }

    /// Takes the wireless devices that have been found in place of those
    /// known before. Without a radio nothing is taken.
    pub fn refresh_wireless_devices(&mut self, found: &[WirelessBank])
        requires
            old(self).wf(),
            bank_list_wf(bank_list_view(found@)),
        ensures
            final(self).wf(),
            final(self).table() == old(self).table(),
            final(self).wired_order() == old(self).wired_order(),
            final(self)@ == old(self)@.refresh(bank_list_view(found@)),
    {
        if !self.wireless {
            return;
        }
        let ghost s0 = self@;
        let ghost list = bank_list_view(found@);
        let mut fresh: VecMap<String, WirelessRgbState> = VecMap::new();
        let mut k: usize = 0;
        proof {
            assert(fresh@.map_values(|b: WirelessRgbState| b@) =~= Map::empty());
        }
        while k < found.len()
            invariant
                k <= found@.len(),
                self.wf(),
                s0 == self@,
                list == bank_list_view(found@),
                bank_list_wf(list),
                fresh.wf(),
                fresh@.map_values(|b: WirelessRgbState| b@) == s0.refreshed_banks(list, k as nat),
                forall|id: Seq<char>| #[trigger]
                    fresh@.contains_key(id) ==> fresh@[id].wf() && id == bank_id(fresh@[id].mac),
            decreases found@.len() - k,
        {
            let d: &WirelessBank = &found[k];
            proof {
                assert(list[k as int] == d@);
            }
            let id = bank_id_string(&d.mac);
            let mut state = WirelessRgbState::new(d.mac, d.fan_count, d.profile.clone());
            let ghost blank = state@;
            if let Some(known) = self.wireless_state.get(&id) {
                if known.led_state.len() == state.led_state.len() {
                    state.led_state = copy_colors(&known.led_state);
                }
                proof {
                    assert(s0.banks[id@] == known@);
                }
            }
            proof {
                assert(state@ =~= s0.refreshed(d@));
                assert(fresh@.insert(id@, state).map_values(|b: WirelessRgbState| b@)
                    =~= fresh@.map_values(|b: WirelessRgbState| b@).insert(id@, state@));
            }
            fresh.insert(id, state);
            k += 1;
        }
        self.wireless_state = fresh;
        proof {
            assert(self@ =~= s0.refresh(list));
        }
    }

    /// Takes what the drivers of the wired devices say now in place of what
    /// they said before. Requests go by what was taken last, so a caller takes
    /// it anew before a request that depends on it.
    pub fn refresh_wired_devices(&mut self, wired: VecMap<String, WiredDevice>)
        requires
            old(self).wf(),
            wired.wf(),
        ensures
            final(self).wf(),
            final(self).table() == old(self).table(),
            final(self).wired_order() == wired.ids(),
            final(self).bank_order() == old(self).bank_order(),
            final(self)@ == (ControllerView {
                wired: wired@.map_values(|d: WiredDevice| d@),
                ..old(self)@
            }),
    {
        self.wired = wired;
        proof {
            assert(self@ =~= (ControllerView {
                wired: wired@.map_values(|d: WiredDevice| d@),
                ..old(self)@
            }));
        }
    }

    /// Sets up a controller for the wired devices and, where there is a
    /// radio, for the wireless devices found so far.
    pub fn new(
        wired: VecMap<String, WiredDevice>,
        wireless: Option<Vec<WirelessBank>>,
        breathing: BreathingTable,
    ) -> (r: Self)
        requires
            wired.wf(),
            breathing.wf(),
            wireless matches Some(found) ==> bank_list_wf(bank_list_view(found@)),
        ensures
            r.wf(),
            r.table() == breathing,
            r.wired_order() == wired.ids(),
            r@ == ControllerView::initial(
                wired@.map_values(|d: WiredDevice| d@),
                match wireless {
                    Some(found) => Some(bank_list_view(found@)),
                    None => None,
                },
            ),
    {
        let mut r = RgbController {
            wired,
            wireless: wireless.is_some(),
            wireless_state: VecMap::new(),
            config: None,
            presets: Vec::new(),
            openrgb_active: false,
            wireless_resync_at: VecMap::new(),
            breathing,
        };
        proof {
            assert(r@.banks =~= Map::empty());
            assert(r@.presets =~= Seq::empty());
        }
        if let Some(found) = wireless {
            r.refresh_wireless_devices(&found);
        }
        r
    }
}

/// The colors of one zone of the coarse division of a bank.
fn coarse_colors(state: &WirelessRgbState, zone: usize) -> (r: Option<Vec<[u8; 3]>>)
    requires
        state.wf(),
        zone <= 256,
    ensures
        colors_view(r) == state@.coarse_zone(zone as int),
{
    let (_, per_zone): (usize, usize) = RgbController::zone_layout(state);
    proof {
        assert(state.fan_count * state.leds_per_fan <= 255 * 255) by (nonlinear_arith)
            requires
                state.fan_count <= 255,
                state.leds_per_fan <= 255,
        ;
        assert(0 <= zone * per_zone <= 256 * 65535) by (nonlinear_arith)
            requires
                zone <= 256,
                0 <= per_zone <= 65535,
        ;
    }
    let start: usize = zone * per_zone;
    if start >= state.led_state.len() {
        return None;
    }
    let end: usize = if start + per_zone < state.led_state.len() {
        start + per_zone
    } else {
        state.led_state.len()
    };
    Some(copy_range(&state.led_state, start, end))
}

/// The place of the first preset with this name for this device.
fn preset_position(presets: &[RgbPreset], name: &String, device_id: &String) -> (r: Option<usize>)
    ensures
        match r {
            Some(i) => {
                &&& i < presets@.len()
                &&& find_preset(presets_view(presets@), name@, device_id@, 0) == Some(
                    presets_view(presets@)[i as int],
                )
            },
            None => find_preset(presets_view(presets@), name@, device_id@, 0) is None,
        },
{
    let ghost ps = presets_view(presets@);
    let mut i: usize = 0;
    while i < presets.len()
        invariant
            i <= presets@.len(),
            ps == presets_view(presets@),
            find_preset(ps, name@, device_id@, 0) == find_preset(ps, name@, device_id@, i as int),
        decreases presets@.len() - i,
    {
        proof {
            assert(ps[i as int] == presets@[i as int]@);
        }
        if presets[i].name == *name && presets[i].device_id == *device_id {
            return Some(i);
        }
        i += 1;
    }
    None
}

fn contains_mac(macs: &[[u8; 6]], mac: &[u8; 6]) -> (r: bool)
    ensures
        r == macs@.contains(*mac),
{
    let mut i: usize = 0;
    while i < macs.len()
        invariant
            i <= macs@.len(),
            forall|j: int| 0 <= j < i ==> macs@[j] != *mac,
        decreases macs@.len() - i,
    {
        if macs[i].same(mac) {
            return true;
        }
        i += 1;
    }
    false
}

/// A copy of the LEDs from `start` up to `end`.
fn copy_range(leds: &Vec<[u8; 3]>, start: usize, end: usize) -> (r: Vec<[u8; 3]>)
    requires
        start <= end <= leds@.len(),
    ensures
        r@ == leds@.subrange(start as int, end as int),
{
    let mut r: Vec<[u8; 3]> = Vec::new();
    let mut i: usize = start;
    while i < end
        invariant
            start <= i <= end <= leds@.len(),
            r@ =~= leds@.subrange(start as int, i as int),
        decreases end - i,
    {
        r.push(leds[i]);
        i += 1;
    }
    r
}

} // verus!
