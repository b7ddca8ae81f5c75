//! The lighting part of the configuration, and stored color presets.

use vstd::prelude::*;
use crate::effect::{copy_colors, EffectView, RgbEffect};

verus! {

/// What a user has set for a zone.
#[derive(Debug)]
pub struct RgbZoneConfig {
    pub zone_index: u8,
    pub effect: RgbEffect,
    pub swap_lr: bool,
    pub swap_tb: bool,
}

/// What a user has set for a device.
#[derive(Debug)]
pub struct RgbDeviceConfig {
    pub device_id: String,
    pub zones: Vec<RgbZoneConfig>,
    pub active_preset: Option<String>,
}

/// The lighting configuration.
#[derive(Debug)]
pub struct RgbAppConfig {
    pub enabled: bool,
    pub openrgb_server: bool,
    pub devices: Vec<RgbDeviceConfig>,
}

/// The colors that a preset gives a zone.
#[derive(Debug)]
pub struct RgbPresetZone {
    pub zone: u8,
    pub colors: Vec<[u8; 3]>,
    pub effect: Option<RgbEffect>,
}

/// A stored set of colors for a device.
#[derive(Debug)]
pub struct RgbPreset {
    pub name: String,
    pub device_id: String,
    pub zones: Vec<RgbPresetZone>,
}

/// The mathematical content of an [`RgbZoneConfig`].
#[verifier::ext_equal]
pub struct ZoneConfigView {
    pub zone_index: u8,
    pub effect: EffectView,
    pub swap_lr: bool,
    pub swap_tb: bool,
}

/// The mathematical content of an [`RgbDeviceConfig`].
#[verifier::ext_equal]
pub struct DeviceConfigView {
    pub device_id: Seq<char>,
    pub zones: Seq<ZoneConfigView>,
    pub active_preset: Option<Seq<char>>,
}

/// The mathematical content of an [`RgbAppConfig`].
#[verifier::ext_equal]
pub struct ConfigView {
    pub enabled: bool,
    pub openrgb_server: bool,
    pub devices: Seq<DeviceConfigView>,
}

/// The mathematical content of an [`RgbPresetZone`].
#[verifier::ext_equal]
pub struct PresetZoneView {
    pub zone: u8,
    pub colors: Seq<[u8; 3]>,
    pub effect: Option<EffectView>,
}

/// The mathematical content of an [`RgbPreset`].
#[verifier::ext_equal]
pub struct PresetView {
    pub name: Seq<char>,
    pub device_id: Seq<char>,
    pub zones: Seq<PresetZoneView>,
}

impl View for RgbZoneConfig {
    type V = ZoneConfigView;

    open spec fn view(&self) -> ZoneConfigView {
        ZoneConfigView {
            zone_index: self.zone_index,
            effect: self.effect@,
            swap_lr: self.swap_lr,
            swap_tb: self.swap_tb,
        }
    }
}

impl View for RgbDeviceConfig {
    type V = DeviceConfigView;

    open spec fn view(&self) -> DeviceConfigView {
        DeviceConfigView {
            device_id: self.device_id@,
            zones: self.zones@.map_values(|z: RgbZoneConfig| z@),
            active_preset: match self.active_preset {
                Some(p) => Some(p@),
                None => None,
            },
        }
    }
}

impl View for RgbAppConfig {
    type V = ConfigView;

    open spec fn view(&self) -> ConfigView {
        ConfigView {
            enabled: self.enabled,
            openrgb_server: self.openrgb_server,
            devices: self.devices@.map_values(|d: RgbDeviceConfig| d@),
        }
    }
}

impl View for RgbPresetZone {
    type V = PresetZoneView;

    open spec fn view(&self) -> PresetZoneView {
        PresetZoneView {
            zone: self.zone,
            colors: self.colors@,
            effect: match self.effect {
                Some(e) => Some(e@),
                None => None,
            },
        }
    }
}

impl View for RgbPreset {
    type V = PresetView;

    open spec fn view(&self) -> PresetView {
        PresetView {
            name: self.name@,
            device_id: self.device_id@,
            zones: self.zones@.map_values(|z: RgbPresetZone| z@),
        }
    }
}

/// The contents of a list of presets.
pub open spec fn presets_view(presets: Seq<RgbPreset>) -> Seq<PresetView> {
    presets.map_values(|p: RgbPreset| p@)
}

/// The contents of a list of preset zones.
pub open spec fn preset_zones_view(zones: Seq<RgbPresetZone>) -> Seq<PresetZoneView> {
    zones.map_values(|z: RgbPresetZone| z@)
}

impl Clone for RgbZoneConfig {
    fn clone(&self) -> (r: Self)
        ensures
            r@ == self@,
    {
        RgbZoneConfig {
            zone_index: self.zone_index,
            effect: self.effect.clone(),
            swap_lr: self.swap_lr,
            swap_tb: self.swap_tb,
        }
    }
}

impl Clone for RgbDeviceConfig {
    fn clone(&self) -> (r: Self)
        ensures
            r@ == self@,
    {
        let r = RgbDeviceConfig {
            device_id: self.device_id.clone(),
            zones: self.zones.clone(),
            active_preset: match &self.active_preset {
                Some(p) => Some(p.clone()),
                None => None,
            },
        };
        proof {
            assert(r@.zones =~= self@.zones);
        }
        r
    }
}

impl Clone for RgbAppConfig {
    fn clone(&self) -> (r: Self)
        ensures
            r@ == self@,
    {
        let r = RgbAppConfig {
            enabled: self.enabled,
            openrgb_server: self.openrgb_server,
            devices: self.devices.clone(),
        };
        proof {
            assert(r@.devices =~= self@.devices);
        }
        r
    }
}

impl Clone for RgbPresetZone {
    fn clone(&self) -> (r: Self)
        ensures
            r@ == self@,
    {
        RgbPresetZone {
            zone: self.zone,
            colors: copy_colors(&self.colors),
            effect: match &self.effect {
                Some(e) => Some(e.clone()),
                None => None,
            },
        }
    }
}

impl Clone for RgbPreset {
    fn clone(&self) -> (r: Self)
        ensures
            r@ == self@,
    {
        let r = RgbPreset {
            name: self.name.clone(),
            device_id: self.device_id.clone(),
            zones: self.zones.clone(),
        };
        proof {
            assert(r@.zones =~= self@.zones);
        }
        r
    }
}

pub fn clone_presets(presets: &[RgbPreset]) -> (r: Vec<RgbPreset>)
    ensures
        presets_view(r@) == presets_view(presets@),
{
    let mut r: Vec<RgbPreset> = Vec::new();
    let mut i: usize = 0;
    while i < presets.len()
        invariant
            i <= presets@.len(),
            presets_view(r@) =~= presets_view(presets@).take(i as int),
        decreases presets@.len() - i,
    {
        let p = presets[i].clone();
        proof {
            assert(presets_view(r@.push(p)) =~= presets_view(r@).push(p@));
        }
        r.push(p);
        i += 1;
    }
    r
}

} // verus!
