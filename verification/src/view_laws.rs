//! What the contents of values are, field by field.

use vstd::prelude::*;
use crate::action::{Action, ActionView, ErrorView, RgbError};
use crate::bank::WirelessRgbState;
use crate::capabilities::{RgbDeviceCapabilities, RgbZoneInfo, WiredDevice};
use crate::config::{RgbAppConfig, RgbDeviceConfig, RgbPreset, RgbPresetZone, RgbZoneConfig};
use crate::direct_color::DeviceWrite;
use crate::effect::RgbEffect;
use crate::fan_type::{FanProfile, SubZone};
use crate::model::WirelessBank;
use crate::network::WirelessNetwork;

verus! {

/// An action holds the device and zone that it is for, and what is to be done.
pub proof fn law_action_content(a: Action, i: int)
    ensures
        match a {
            Action::WiredEffect { device_id, zone, effect } => a@ == (ActionView::WiredEffect {
                device_id: device_id@,
                zone,
                effect: effect@,
            }),
            Action::WiredColors { device_id, zone, colors } => a@ == (ActionView::WiredColors {
                device_id: device_id@,
                zone,
                colors: colors@,
            }),
            Action::WiredSync { device_id, enabled } => a@ == (ActionView::WiredSync {
                device_id: device_id@,
                enabled,
            }),
            Action::WiredDirection { device_id, zone, swap_lr, swap_tb } => a@ == (
            ActionView::WiredDirection { device_id: device_id@, zone, swap_lr, swap_tb }),
            Action::SendDirect { mac, leds, effect_index, repeats } => a@ == (
            ActionView::SendDirect { mac, leds: leds@, effect_index, repeats }),
            Action::SendFrames { mac, frames, interval_ms, effect_index, repeats } => {
                &&& a@ is SendFrames
                &&& a@->SendFrames_mac == mac
                &&& a@->frames.len() == frames@.len()
                &&& 0 <= i < frames@.len() ==> a@->frames[i] == frames@[i]@
                &&& a@->interval_ms == interval_ms
                &&& a@->SendFrames_effect_index == effect_index
                &&& a@->SendFrames_repeats == repeats
            },
        },
{
}

/// An error holds what was asked for and, for a zone, what the bank has.
pub proof fn law_error_content(e: RgbError)
    ensures
        match e {
            RgbError::DeviceNotFound { device_id } => e@ == (ErrorView::DeviceNotFound {
                device_id: device_id@,
            }),
            RgbError::SyncUnsupported { device_id } => e@ == (ErrorView::SyncUnsupported {
                device_id: device_id@,
            }),
            RgbError::DirectionUnsupported { device_id } => e@ == (
            ErrorView::DirectionUnsupported { device_id: device_id@ }),
            RgbError::ZoneOutOfRange { zone, total_zones, fan_type, fan_count } => e@ == (
            ErrorView::ZoneOutOfRange {
                zone,
                total_zones: total_zones as nat,
                fan_type,
                fan_count,
            }),
        },
{
}

/// The content of an effect is all of it.
pub proof fn law_effect_content(e: RgbEffect)
    ensures
        e@.mode == e.mode,
        e@.colors == e.colors@,
        e@.speed == e.speed,
        e@.brightness == e.brightness,
        e@.direction == e.direction,
{
}

/// The content of a bank is its address, its fans, what it is, the colors of
/// its LEDs and the effects that its parts show.
pub proof fn law_bank_content(b: WirelessRgbState, part: u8)
    ensures
        b@.mac == b.mac,
        b@.fan_count == b.fan_count,
        b@.layout == b.profile@,
        b@.leds == b.led_state@,
        b@.effects.contains_key(part) == b.sub_zone_effects@.contains_key(part),
        b.sub_zone_effects@.contains_key(part) ==> b@.effects[part] == b.sub_zone_effects@[part]@,
{
}

/// The content of a description of a kind of device is all of it.
pub proof fn law_profile_content(p: FanProfile, z: SubZone, i: int)
    ensures
        p@.fan_type == p.fan_type,
        p@.display_name == p.display_name@,
        p@.leds_per_fan == p.leds_per_fan,
        p@.pump_led_count == p.pump_led_count,
        p@.total_led_count_override is Some == p.total_led_count_override is Some,
        p.total_led_count_override matches Some(n) ==> p@.total_led_count_override == Some(
            n as nat,
        ),
        p@.sub_zones.len() == p.sub_zones@.len(),
        0 <= i < p.sub_zones@.len() ==> p@.sub_zones[i] == p.sub_zones@[i]@,
        z@.name == z.name@,
        z@.led_count == z.led_count,
{
}

/// The content of what a driver says of a device is all of it.
pub proof fn law_wired_content(d: WiredDevice, z: RgbZoneInfo, i: int)
    ensures
        d@.device_name == d.device_name@,
        d@.supported_modes == d.supported_modes@,
        d@.zones.len() == d.zones@.len(),
        0 <= i < d.zones@.len() ==> d@.zones[i] == d.zones@[i]@,
        d@.supports_direct == d.supports_direct,
        d@.supports_mb_rgb_sync == d.supports_mb_rgb_sync,
        d@.total_led_count == d.total_led_count,
        d@.supported_scopes.len() == d.supported_scopes@.len(),
        0 <= i < d.supported_scopes@.len() ==> d@.supported_scopes[i] == d.supported_scopes@[i]@,
        d@.supports_direction == d.supports_direction,
        z@.name == z.name@,
        z@.led_count == z.led_count,
{
}

/// The content of what a client is told of a device is all of it.
pub proof fn law_capabilities_content(c: RgbDeviceCapabilities, i: int)
    ensures
        c@.device_id == c.device_id@,
        c@.device.device_name == c.device_name@,
        c@.device.supported_modes == c.supported_modes@,
        c@.device.zones.len() == c.zones@.len(),
        0 <= i < c.zones@.len() ==> c@.device.zones[i] == c.zones@[i]@,
        c@.device.supports_direct == c.supports_direct,
        c@.device.supports_mb_rgb_sync == c.supports_mb_rgb_sync,
        c@.device.total_led_count == c.total_led_count,
        c@.device.supported_scopes.len() == c.supported_scopes@.len(),
        0 <= i < c.supported_scopes@.len() ==> c@.device.supported_scopes[i]
            == c.supported_scopes@[i]@,
        c@.device.supports_direction == c.supports_direction,
{
}

/// The content of a configuration is all of it.
pub proof fn law_config_content(c: RgbAppConfig, d: RgbDeviceConfig, z: RgbZoneConfig, i: int)
    ensures
        c@.enabled == c.enabled,
        c@.openrgb_server == c.openrgb_server,
        c@.devices.len() == c.devices@.len(),
        0 <= i < c.devices@.len() ==> c@.devices[i] == c.devices@[i]@,
        d@.device_id == d.device_id@,
        d@.zones.len() == d.zones@.len(),
        0 <= i < d.zones@.len() ==> d@.zones[i] == d.zones@[i]@,
        d@.active_preset is Some == d.active_preset is Some,
        d.active_preset matches Some(p) ==> d@.active_preset == Some(p@),
        z@.zone_index == z.zone_index,
        z@.effect == z.effect@,
        z@.swap_lr == z.swap_lr,
        z@.swap_tb == z.swap_tb,
{
}

/// The content of a preset is all of it.
pub proof fn law_preset_content(p: RgbPreset, z: RgbPresetZone, i: int)
    ensures
        p@.name == p.name@,
        p@.device_id == p.device_id@,
        p@.zones.len() == p.zones@.len(),
        0 <= i < p.zones@.len() ==> p@.zones[i] == p.zones@[i]@,
        z@.zone == z.zone,
        z@.colors == z.colors@,
        z@.effect is Some == z.effect is Some,
        z.effect matches Some(e) ==> z@.effect == Some(e@),
{
}

/// The content of a network is all of it.
pub proof fn law_network_content(n: WirelessNetwork)
    ensures
        n@.devices == n.devices@,
        n@.mobo_pwm == n.mobo_pwm,
        n@.master_mac == n.master_mac,
        n@.master_channel == n.master_channel,
        n@.pending == n.pending_addr@,
        n@.limbo == n.limbo_since@,
{
}

/// The content of a write is the device, and its zones with their colors in
/// order.
pub proof fn law_write_content(w: DeviceWrite, i: int)
    ensures
        w@.device_id == w.device_id@,
        w@.zones.len() == w.zones@.len(),
        0 <= i < w.zones@.len() ==> w@.zones[i] == (w.zones@[i].0, w.zones@[i].1@),
{
}

/// The content of a bank that is to be set up is all of it.
pub proof fn law_bank_to_set_up_content(b: WirelessBank)
    ensures
        b@.mac == b.mac,
        b@.fan_count == b.fan_count,
        b@.layout == b.profile@,
{
}

} // verus!
