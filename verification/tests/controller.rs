use lianli_rgb::action::{Action, RgbError};
use lianli_rgb::capabilities::{RgbZoneInfo, WiredDevice};
use lianli_rgb::config::{RgbAppConfig, RgbDeviceConfig, RgbPreset, RgbPresetZone, RgbZoneConfig};
use lianli_rgb::controller::RgbController;
use lianli_rgb::effect::{
    breathing_cycles_per_window, effect_index_from_state, BreathingTable, RgbEffect, RgbMode,
    BREATHING_LEVELS,
};
use lianli_rgb::fan_type::{FanProfile, SubZone, WirelessFanType};
use lianli_rgb::mac::{bank_id_string, mac_string};
use lianli_rgb::model::{banks_valid, WirelessBank};
use lianli_rgb::vec_map::VecMap;

const MAC: [u8; 6] = [0xde, 0xad, 0xbe, 0xef, 0x00, 0x01];
const OTHER: [u8; 6] = [1, 2, 3, 4, 5, 6];
const BANK: &str = "wireless:de:ad:be:ef:00:01";
const SECOND: u64 = 1_000_000_000;

fn sub(name: &str, led_count: u8) -> SubZone {
    SubZone { name: name.to_string(), led_count }
}

/// A fan of two parts, with three and four LEDs.
fn duo() -> FanProfile {
    FanProfile {
        fan_type: WirelessFanType::Fan(36),
        display_name: "Duo".to_string(),
        leds_per_fan: 7,
        pump_led_count: 0,
        total_led_count_override: None,
        sub_zones: vec![sub("Inner", 3), sub("Outer", 4)],
    }
}

fn cooler() -> FanProfile {
    FanProfile {
        fan_type: WirelessFanType::WaterBlock2,
        display_name: "Cooler".to_string(),
        leds_per_fan: 4,
        pump_led_count: 6,
        total_led_count_override: None,
        sub_zones: vec![sub("Fan", 4)],
    }
}

fn lights(fan_type: WirelessFanType, leds: u16) -> FanProfile {
    FanProfile {
        fan_type,
        display_name: "Lights".to_string(),
        leds_per_fan: 0,
        pump_led_count: 0,
        total_led_count_override: Some(leds),
        sub_zones: vec![],
    }
}

fn bank(mac: [u8; 6], fan_count: u8, profile: FanProfile) -> WirelessBank {
    WirelessBank { mac, fan_count, profile }
}

/// One flash in the middle of each breath.
fn table() -> BreathingTable {
    let mut levels = Vec::with_capacity(BREATHING_LEVELS);
    for speed in 0..5u8 {
        for brightness in 0..5u32 {
            for frame in 0..480 {
                let lit = (frame * breathing_cycles_per_window(speed)) % 480 == 240;
                for v in 0..256u32 {
                    levels.push(if lit { (v * brightness / 4) as u8 } else { 0 });
                }
            }
        }
    }
    BreathingTable::from_levels(levels).unwrap()
}

fn strip(sync: bool, direction: bool) -> WiredDevice {
    WiredDevice {
        device_name: "Strip".to_string(),
        supported_modes: vec![RgbMode::Static, RgbMode::Rainbow],
        zones: vec![RgbZoneInfo { name: "All".to_string(), led_count: 60 }],
        supports_direct: true,
        supports_mb_rgb_sync: sync,
        total_led_count: 60,
        supported_scopes: vec!["all".to_string()],
        supports_direction: direction,
    }
}

fn controller(banks: Vec<WirelessBank>) -> RgbController {
    let mut wired = VecMap::new();
    wired.insert("strip".to_string(), strip(true, true));
    wired.insert("plain".to_string(), strip(false, false));
    RgbController::new(wired, Some(banks), table())
}

fn one_bank() -> RgbController {
    controller(vec![bank(MAC, 2, duo())])
}

fn effect(mode: RgbMode, color: [u8; 3]) -> RgbEffect {
    RgbEffect { mode, colors: vec![color], speed: 2, brightness: 4, direction: 0 }
}

fn still(color: [u8; 3]) -> RgbEffect {
    effect(RgbMode::Static, color)
}

fn direct(leds: Vec<[u8; 3]>, repeats: u8) -> Action {
    let effect_index = effect_index_from_state(&leds);
    Action::SendDirect { mac: MAC, leds, effect_index, repeats }
}

fn leds(parts: &[(usize, [u8; 3])]) -> Vec<[u8; 3]> {
    let mut r = Vec::new();
    for (n, c) in parts {
        for _ in 0..*n {
            r.push(*c);
        }
    }
    r
}

fn not_found(id: &str) -> RgbError {
    RgbError::DeviceNotFound { device_id: id.to_string() }
}

fn out_of_range(zone: u8) -> RgbError {
    RgbError::ZoneOutOfRange {
        zone,
        total_zones: 4,
        fan_type: WirelessFanType::Fan(36),
        fan_count: 2,
    }
}

#[test]
fn addresses_as_text() {
    assert_eq!(mac_string(&MAC), "de:ad:be:ef:00:01");
    assert_eq!(mac_string(&[0, 9, 10, 15, 16, 255]), "00:09:0a:0f:10:ff");
    assert_eq!(bank_id_string(&MAC), BANK);
    assert_ne!(bank_id_string(&MAC), bank_id_string(&OTHER));
}

#[test]
fn errors_as_text() {
    assert_eq!(not_found("x").message(), "RGB device not found: x");
    assert_eq!(
        RgbError::SyncUnsupported { device_id: "x".to_string() }.message(),
        "Device x does not support MB RGB sync"
    );
    assert_eq!(
        RgbError::DirectionUnsupported { device_id: "x".to_string() }.message(),
        "Device x does not support fan direction"
    );
    assert_eq!(
        out_of_range(200).message(),
        "Zone 200 out of range (device has 4 zones, fan_type=Fan(36), fan_count=2)"
    );
}

#[test]
fn wired_requests_are_passed_on() {
    let mut c = one_bank();
    let e = effect(RgbMode::Rainbow, [1, 2, 3]);
    assert_eq!(
        c.set_effect("strip", 9, &e),
        Ok(Action::WiredEffect { device_id: "strip".to_string(), zone: 9, effect: e.clone() })
    );
    assert_eq!(
        c.set_direct_colors("strip", 1, &[[7, 8, 9]]),
        Ok(Action::WiredColors { device_id: "strip".to_string(), zone: 1, colors: vec![[7, 8, 9]] })
    );
    let a = c.set_effect_zones("strip", &[3, 4], &e);
    assert_eq!(a.refused, None);
    assert_eq!(
        a.actions,
        vec![
            Action::WiredEffect { device_id: "strip".to_string(), zone: 3, effect: e.clone() },
            Action::WiredEffect { device_id: "strip".to_string(), zone: 4, effect: e },
        ]
    );
    let a = c.apply_direct_zones("strip", &[(0, vec![[1, 1, 1]]), (5, vec![])], true);
    assert_eq!(a.refused, None);
    assert_eq!(
        a.actions,
        vec![
            Action::WiredColors { device_id: "strip".to_string(), zone: 0, colors: vec![[1, 1, 1]] },
            Action::WiredColors { device_id: "strip".to_string(), zone: 5, colors: vec![] },
        ]
    );
    assert_eq!(c.zone_colors("strip", 0), None);
}

#[test]
fn sync_and_direction() {
    let c = one_bank();
    assert_eq!(
        c.set_mb_rgb_sync("strip", true),
        Ok(Action::WiredSync { device_id: "strip".to_string(), enabled: true })
    );
    assert_eq!(
        c.set_mb_rgb_sync("plain", true),
        Err(RgbError::SyncUnsupported { device_id: "plain".to_string() })
    );
    assert_eq!(c.set_mb_rgb_sync(BANK, true), Err(not_found(BANK)));
    assert_eq!(
        c.set_fan_direction("strip", 2, true, false),
        Ok(Action::WiredDirection {
            device_id: "strip".to_string(),
            zone: 2,
            swap_lr: true,
            swap_tb: false,
        })
    );
    assert_eq!(
        c.set_fan_direction("plain", 2, true, false),
        Err(RgbError::DirectionUnsupported { device_id: "plain".to_string() })
    );
    assert_eq!(c.set_fan_direction(BANK, 0, true, true), Err(not_found(BANK)));
}

#[test]
fn bank_effect_is_uploaded_whole() {
    let mut c = one_bank();
    let a = c.set_effect(BANK, 1, &still([9, 8, 7])).unwrap();
    assert_eq!(a, direct(leds(&[(3, [0; 3]), (4, [9, 8, 7]), (7, [0; 3])]), 8));
    assert_eq!(c.zone_colors(BANK, 1), Some(vec![[9, 8, 7]; 4]));
    assert_eq!(c.zone_colors(BANK, 0), Some(vec![[0, 0, 0]; 3]));
    assert_eq!(c.zone_colors(BANK, 4), None);
    assert_eq!(c.set_effect(BANK, 4, &still([1, 1, 1])), Err(out_of_range(4)));
}

#[test]
fn animation_is_uploaded_as_frames() {
    let mut c = one_bank();
    c.set_effect(BANK, 3, &still([1, 2, 3])).unwrap();
    match c.set_effect(BANK, 0, &effect(RgbMode::Breathing, [200, 100, 50])).unwrap() {
        Action::SendFrames { mac, frames, interval_ms, effect_index, repeats } => {
            assert_eq!(mac, MAC);
            assert_eq!(interval_ms, 25);
            assert_eq!(repeats, 8);
            let base = leds(&[(3, [200, 100, 50]), (7, [0; 3]), (4, [1, 2, 3])]);
            assert_eq!(effect_index, effect_index_from_state(&base));
            let dark = leds(&[(10, [0; 3]), (4, [1, 2, 3])]);
            assert_eq!(frames.len(), 480);
            for (i, f) in frames.iter().enumerate() {
                assert_eq!(f, if i % 120 == 60 { &base } else { &dark });
            }
        }
        other => panic!("{other:?}"),
    }
    assert_eq!(c.active_animated_mode(BANK), Some(RgbMode::Breathing));
    c.set_direct_colors(BANK, 0, &[[0, 0, 1]]).unwrap();
    assert_eq!(c.active_animated_mode(BANK), None);
    assert_eq!(c.active_animated_mode("strip"), None);
}

#[test]
fn effect_batch_is_uploaded_once() {
    let mut c = one_bank();
    let a = c.set_effect_zones(BANK, &[0, 77, 3, 88], &still([5, 5, 5]));
    assert_eq!(
        a.actions,
        vec![direct(leds(&[(3, [5; 3]), (7, [0; 3]), (4, [5; 3])]), 8)]
    );
    assert_eq!(a.refused, Some(out_of_range(77)));
    let a = c.set_effect_zones(BANK, &[88], &still([6, 6, 6]));
    assert_eq!(a.actions, vec![]);
    assert_eq!(a.refused, Some(out_of_range(88)));
    let a = c.set_effect_zones("nobody", &[0], &still([6, 6, 6]));
    assert_eq!(a.actions, vec![]);
    assert_eq!(a.refused, Some(not_found("nobody")));
}

#[test]
fn batch_comes_to_the_same_as_single_requests() {
    let e = effect(RgbMode::Breathing, [4, 4, 4]);
    let mut a = one_bank();
    let batch = a.set_effect_zones(BANK, &[2, 0, 9], &e);
    let mut b = one_bank();
    b.set_effect(BANK, 2, &e).unwrap();
    let last = b.set_effect(BANK, 0, &e).unwrap();
    b.set_effect(BANK, 9, &e).unwrap_err();
    assert_eq!(batch.actions, vec![last]);
    for z in 0..4 {
        assert_eq!(a.zone_colors(BANK, z), b.zone_colors(BANK, z));
    }
}

#[test]
fn color_batch_is_uploaded_once() {
    let mut c = one_bank();
    let writes = vec![(0, vec![[1; 3]]), (9, vec![[2; 3]]), (3, vec![[3; 3]; 9])];
    let want = leds(&[(1, [1; 3]), (9, [0; 3]), (4, [3; 3])]);
    let a = c.apply_direct_zones(BANK, &writes, true);
    assert_eq!(a.actions, vec![direct(want.clone(), 8)]);
    assert_eq!(a.refused, Some(out_of_range(9)));
    let a = c.apply_direct_zones(BANK, &writes, false);
    assert_eq!(a.actions, vec![direct(want, 2)]);
    let a = c.apply_direct_zones(BANK, &[], false);
    assert_eq!(a.actions, vec![]);
    assert_eq!(a.refused, None);
    assert_eq!(c.apply_direct_zones("nobody", &writes, true).refused, Some(not_found("nobody")));
}

#[test]
fn direct_colors_do_not_send_the_animation() {
    let mut c = one_bank();
    c.set_effect(BANK, 1, &effect(RgbMode::Breathing, [6, 6, 6])).unwrap();
    let a = c.set_direct_colors(BANK, 0, &[[1; 3]; 3]).unwrap();
    assert_eq!(a, direct(leds(&[(3, [1; 3]), (4, [6; 3]), (7, [0; 3])]), 8));
    assert_eq!(c.active_animated_mode(BANK), Some(RgbMode::Breathing));
}

#[test]
fn banks_need_the_radio() {
    let mut c = RgbController::new(VecMap::new(), None, table());
    assert_eq!(c.set_effect(BANK, 0, &still([1; 3])), Err(not_found(BANK)));
    c.refresh_wireless_devices(&[bank(MAC, 2, duo())]);
    assert!(!c.is_wireless(BANK));
    c.set_wireless(true);
    c.refresh_wireless_devices(&[bank(MAC, 2, duo())]);
    assert!(c.is_wireless(BANK));
    c.set_effect(BANK, 0, &still([1; 3])).unwrap();
    c.set_wireless(false);
    assert!(c.is_wireless(BANK));
    assert_eq!(c.set_effect(BANK, 0, &still([2; 3])), Err(not_found(BANK)));
    assert_eq!(c.set_direct_colors(BANK, 0, &[[2; 3]]), Err(not_found(BANK)));
    assert_eq!(c.zone_colors(BANK, 0), Some(vec![[1; 3]; 3]));
    assert_eq!(c.resync_wireless_state(&[MAC], 0), vec![]);
}

#[test]
fn refresh_keeps_colors_of_same_size() {
    let mut c = one_bank();
    c.set_effect(BANK, 0, &effect(RgbMode::Breathing, [7; 3])).unwrap();
    c.refresh_wireless_devices(&[bank(MAC, 2, duo()), bank(OTHER, 1, duo())]);
    assert_eq!(c.zone_colors(BANK, 0), Some(vec![[7; 3]; 3]));
    assert_eq!(c.active_animated_mode(BANK), None);
    assert!(c.is_wireless(&bank_id_string(&OTHER)));
    c.refresh_wireless_devices(&[bank(MAC, 3, duo())]);
    assert_eq!(c.zone_colors(BANK, 0), Some(vec![[0; 3]; 3]));
    assert!(!c.is_wireless(&bank_id_string(&OTHER)));
}

#[test]
fn drifted_banks_are_restored_at_a_bounded_rate() {
    let mut c = controller(vec![bank(MAC, 2, duo()), bank(OTHER, 1, duo())]);
    assert_eq!(c.resync_wireless_state(&[MAC, OTHER], 0), vec![]);
    let up = c.set_effect(BANK, 0, &still([7; 3])).unwrap();
    assert_eq!(c.resync_wireless_state(&[OTHER], 0), vec![]);
    assert_eq!(c.resync_wireless_state(&[OTHER, MAC], SECOND), vec![up]);
    assert_eq!(c.resync_wireless_state(&[MAC], SECOND), vec![]);
    assert_eq!(c.resync_wireless_state(&[MAC], 0), vec![]);
    assert_eq!(c.resync_wireless_state(&[MAC], 21 * SECOND - 1), vec![]);
    assert_eq!(c.resync_wireless_state(&[MAC], 21 * SECOND).len(), 1);
    assert_eq!(c.resync_wireless_state(&[MAC], 22 * SECOND).len(), 0);
}

#[test]
fn openrgb_does_not_keep_banks_from_being_restored() {
    let mut c = one_bank();
    c.set_effect(BANK, 0, &still([7; 3])).unwrap();
    c.set_openrgb_active(true);
    assert_eq!(c.resync_wireless_state(&[MAC], 0).len(), 1);
}

fn zone_config(zone_index: u8, color: [u8; 3], swap_lr: bool) -> RgbZoneConfig {
    RgbZoneConfig { zone_index, effect: still(color), swap_lr, swap_tb: false }
}

fn config(enabled: bool, openrgb_server: bool) -> RgbAppConfig {
    RgbAppConfig {
        enabled,
        openrgb_server,
        devices: vec![
            RgbDeviceConfig {
                device_id: BANK.to_string(),
                zones: vec![zone_config(0, [1; 3], false), zone_config(9, [1; 3], true)],
                active_preset: Some("warm".to_string()),
            },
            RgbDeviceConfig {
                device_id: "strip".to_string(),
                zones: vec![zone_config(0, [2; 3], true)],
                active_preset: Some("cold".to_string()),
            },
        ],
    }
}

fn preset_zone(zone: u8, colors: Vec<[u8; 3]>) -> RgbPresetZone {
    RgbPresetZone { zone, colors, effect: None }
}

fn presets() -> Vec<RgbPreset> {
    vec![
        RgbPreset {
            name: "warm".to_string(),
            device_id: "strip".to_string(),
            zones: vec![preset_zone(0, vec![[40; 3]])],
        },
        RgbPreset {
            name: "warm".to_string(),
            device_id: BANK.to_string(),
            zones: vec![preset_zone(1, vec![[50; 3]]), preset_zone(2, vec![])],
        },
        RgbPreset {
            name: "warm".to_string(),
            device_id: BANK.to_string(),
            zones: vec![preset_zone(3, vec![[60; 3]])],
        },
    ]
}

fn want_answers() -> Vec<Result<Action, RgbError>> {
    vec![
        Ok(direct(leds(&[(3, [1; 3]), (11, [0; 3])]), 8)),
        Err(out_of_range(9)),
        Err(not_found(BANK)),
        Ok(direct(leds(&[(3, [1; 3]), (1, [50; 3]), (10, [0; 3])]), 8)),
        Ok(Action::WiredEffect { device_id: "strip".to_string(), zone: 0, effect: still([2; 3]) }),
        Ok(Action::WiredDirection {
            device_id: "strip".to_string(),
            zone: 0,
            swap_lr: true,
            swap_tb: false,
        }),
    ]
}

#[test]
fn config_is_applied_in_order() {
    let mut c = one_bank();
    assert_eq!(c.apply_config(&config(true, false), &presets()), want_answers());
    assert_eq!(c.zone_colors(BANK, 0), Some(vec![[1; 3]; 3]));
    assert_eq!(c.zone_colors(BANK, 3), Some(vec![[0; 3]; 4]));
}

#[test]
fn config_waits_for_its_turn() {
    let mut c = one_bank();
    assert_eq!(c.apply_config(&config(false, false), &presets()), vec![]);
    assert_eq!(c.apply_config(&config(true, true), &presets()), vec![]);
    assert_eq!(c.zone_colors(BANK, 0), Some(vec![[0; 3]; 3]));
    assert_eq!(c.set_openrgb_active(true), vec![]);
    assert_eq!(c.set_openrgb_active(true), vec![]);
    assert_eq!(c.apply_config(&config(true, false), &presets()), vec![]);
    assert_eq!(c.set_openrgb_active(false), want_answers());
    assert_eq!(c.set_openrgb_active(false), vec![]);
}

#[test]
fn openrgb_server_keeps_the_lights() {
    let mut c = one_bank();
    c.apply_config(&config(true, true), &presets());
    c.set_openrgb_active(true);
    c.set_direct_colors(BANK, 0, &[[77; 3]]).unwrap();
    assert_eq!(c.set_openrgb_active(false), vec![]);
    assert_eq!(c.zone_colors(BANK, 0).unwrap()[0], [77; 3]);
}

#[test]
fn without_config_nothing_is_restored() {
    let mut c = one_bank();
    c.set_openrgb_active(true);
    assert_eq!(c.set_openrgb_active(false), vec![]);
}

#[test]
fn coarse_zones_are_fans() {
    let mut c = one_bank();
    c.set_direct_colors(BANK, 1, &[[4; 3]]).unwrap();
    let fan = leds(&[(3, [0; 3]), (1, [4; 3]), (3, [0; 3])]);
    assert_eq!(c.get_zone_colors(BANK, 0), Some(fan.clone()));
    assert_eq!(c.get_zone_colors(BANK, 1), Some(vec![[0; 3]; 7]));
    assert_eq!(c.get_zone_colors(BANK, 2), None);
    assert_eq!(c.get_zone_colors("strip", 0), None);
    let all = c.get_all_zone_colors(BANK).unwrap();
    assert_eq!(all.len(), 2);
    assert_eq!(all[0].zone, 0);
    assert_eq!(all[0].colors, fan);
    assert!(all[0].effect.is_none());
    assert_eq!(all[1].zone, 1);
    assert!(c.get_all_zone_colors("strip").is_none());
}

#[test]
fn coarse_zones_joined_are_the_buffer() {
    let mut c = one_bank();
    for z in 0..4 {
        c.set_direct_colors(BANK, z, &[[z + 1; 3]; 4]).unwrap();
    }
    let all = c.get_all_zone_colors(BANK).unwrap();
    let mut joined = Vec::new();
    for (i, z) in all.iter().enumerate() {
        assert_eq!(z.zone as usize, i);
        assert_eq!(c.get_zone_colors(BANK, z.zone), Some(z.colors.clone()));
        joined.extend_from_slice(&z.colors);
    }
    assert_eq!(joined, leds(&[(3, [1; 3]), (4, [2; 3]), (3, [3; 3]), (4, [4; 3])]));
}

#[test]
fn coarse_zones_of_a_cooler_end_short() {
    let c = controller(vec![bank(MAC, 2, cooler())]);
    let all = c.get_all_zone_colors(BANK).unwrap();
    let sizes: Vec<usize> = all.iter().map(|z| z.colors.len()).collect();
    assert_eq!(sizes, vec![4, 4, 4]);
    assert_eq!(c.get_zone_colors(BANK, 3).unwrap().len(), 2);
    assert_eq!(c.get_zone_colors(BANK, 4), None);
}

#[test]
fn coarse_zone_of_lights_is_everything() {
    let c = controller(vec![bank(MAC, 0, lights(WirelessFanType::V150, 88))]);
    assert_eq!(c.get_zone_colors(BANK, 0).unwrap().len(), 88);
    assert_eq!(c.get_zone_colors(BANK, 1), None);
    assert_eq!(c.get_all_zone_colors(BANK).unwrap().len(), 1);
}

#[test]
fn capabilities_of_all_devices() {
    let c = controller(vec![bank(MAC, 2, duo()), bank(OTHER, 1, cooler())]);
    let caps = c.capabilities();
    let ids: Vec<&str> = caps.iter().map(|d| d.device_id.as_str()).collect();
    assert_eq!(ids, vec!["strip", "plain", BANK, "wireless:01:02:03:04:05:06"]);
    assert_eq!(caps[0].device_name, "Strip");
    assert_eq!(caps[0].supported_modes, vec![RgbMode::Static, RgbMode::Rainbow]);
    assert_eq!(caps[0].zones[0].name, "All");
    assert_eq!(caps[0].total_led_count, 60);
    assert_eq!(caps[0].supported_scopes, vec!["all"]);
    assert!(caps[0].supports_direction && caps[0].supports_mb_rgb_sync);
    let b = &caps[2];
    assert_eq!(b.device_name, "Duo");
    assert_eq!(b.supported_modes, vec![RgbMode::Static, RgbMode::Direct, RgbMode::Breathing]);
    let zones: Vec<(&str, u16)> = b.zones.iter().map(|z| (z.name.as_str(), z.led_count)).collect();
    assert_eq!(
        zones,
        vec![("Fan 1 Inner", 3), ("Fan 1 Outer", 4), ("Fan 2 Inner", 3), ("Fan 2 Outer", 4)]
    );
    assert_eq!(b.total_led_count, 14);
    assert!(b.supports_direct && !b.supports_mb_rgb_sync && !b.supports_direction);
    assert!(b.supported_scopes.is_empty());
    let zones: Vec<(&str, u16)> =
        caps[3].zones.iter().map(|z| (z.name.as_str(), z.led_count)).collect();
    assert_eq!(zones, vec![("Pump Head", 6), ("Fan 1", 4)]);
    assert_eq!(caps[3].total_led_count, 10);
}

#[test]
fn capabilities_of_lights() {
    for (kind, name) in [
        (WirelessFanType::Lc217, "Case Ring"),
        (WirelessFanType::Led88, "Screen Ring"),
        (WirelessFanType::V150, "LED Strip"),
        (WirelessFanType::Strimer(3), "LED Strip"),
    ] {
        let c = controller(vec![bank(MAC, 0, lights(kind, 300))]);
        let caps = c.capabilities();
        assert_eq!(caps[2].zones.len(), 1);
        assert_eq!(caps[2].zones[0].name, name);
        assert_eq!(caps[2].zones[0].led_count, 300);
        assert_eq!(caps[2].total_led_count, 300);
    }
}

#[test]
fn lists_of_banks_are_checked() {
    let mut odd = duo();
    odd.leds_per_fan = 6;
    assert!(banks_valid(&[]));
    assert!(banks_valid(&[bank(MAC, 2, duo()), bank(OTHER, 0, cooler())]));
    assert!(!banks_valid(&[bank(MAC, 2, duo()), bank(OTHER, 0, odd)]));
}

#[test]
fn other_requests_do_not_reset_the_rate() {
    let mut c = one_bank();
    c.set_effect(BANK, 0, &still([7; 3])).unwrap();
    assert_eq!(c.resync_wireless_state(&[MAC], SECOND).len(), 1);
    c.set_effect(BANK, 0, &still([8; 3])).unwrap();
    c.apply_direct_zones(BANK, &[(1, vec![[1; 3]])], true);
    c.apply_config(&config(true, false), &presets());
    c.set_openrgb_active(true);
    c.refresh_wireless_devices(&[bank(MAC, 2, duo())]);
    assert_eq!(c.resync_wireless_state(&[MAC], 2 * SECOND), vec![]);
    assert_eq!(c.resync_wireless_state(&[MAC], 21 * SECOND).len(), 1);
}

fn mono() -> FanProfile {
    FanProfile {
        fan_type: WirelessFanType::Fan(20),
        display_name: "Mono".to_string(),
        leds_per_fan: 4,
        pump_led_count: 0,
        total_led_count_override: None,
        sub_zones: vec![sub("Fan", 4)],
    }
}

#[test]
fn preset_brings_colors_back() {
    let mut c = controller(vec![bank(MAC, 2, mono())]);
    c.set_direct_colors(BANK, 0, &[[1; 3], [2; 3]]).unwrap();
    c.set_direct_colors(BANK, 1, &[[3; 3]; 4]).unwrap();
    let zones = c.get_all_zone_colors(BANK).unwrap();
    let saved = vec![RgbPreset {
        name: "saved".to_string(),
        device_id: BANK.to_string(),
        zones,
    }];
    c.set_effect(BANK, 0, &effect(RgbMode::Breathing, [9; 3])).unwrap();
    c.set_effect(BANK, 1, &still([9; 3])).unwrap();
    let wanted = RgbAppConfig {
        enabled: true,
        openrgb_server: false,
        devices: vec![RgbDeviceConfig {
            device_id: BANK.to_string(),
            zones: vec![],
            active_preset: Some("saved".to_string()),
        }],
    };
    let out = c.apply_config(&wanted, &saved);
    let back = leds(&[(1, [1; 3]), (1, [2; 3]), (2, [0; 3]), (4, [3; 3])]);
    assert_eq!(out.len(), 2);
    assert_eq!(out[1], Ok(direct(back, 8)));
    assert_eq!(c.active_animated_mode(BANK), None);
}

#[test]
fn drivers_are_asked_anew() {
    let mut c = one_bank();
    c.set_effect(BANK, 0, &still([7; 3])).unwrap();
    let mut wired = VecMap::new();
    let mut changed = strip(false, true);
    changed.zones = vec![];
    wired.insert("strip".to_string(), changed);
    wired.insert("plain".to_string(), strip(true, false));
    c.refresh_wired_devices(wired);
    assert_eq!(
        c.set_mb_rgb_sync("strip", true),
        Err(RgbError::SyncUnsupported { device_id: "strip".to_string() })
    );
    assert!(c.set_mb_rgb_sync("plain", true).is_ok());
    let caps = c.capabilities();
    assert_eq!(caps.len(), 3);
    assert!(caps[0].zones.is_empty());
    assert!(caps[1].supports_mb_rgb_sync);
    assert_eq!(c.zone_colors(BANK, 0), Some(vec![[7; 3]; 3]));
}

#[test]
fn animated_mode_follows_what_was_set_last() {
    let breathing = effect(RgbMode::Breathing, [5; 3]);
    let mut c = one_bank();
    let mode = |c: &RgbController| c.active_animated_mode(BANK);
    assert_eq!(mode(&c), None);
    c.set_effect_zones(BANK, &[0, 1, 99], &breathing);
    assert_eq!(mode(&c), Some(RgbMode::Breathing));
    c.set_effect(BANK, 0, &still([1; 3])).unwrap();
    assert_eq!(mode(&c), Some(RgbMode::Breathing));
    c.set_effect(BANK, 99, &still([1; 3])).unwrap_err();
    assert_eq!(mode(&c), Some(RgbMode::Breathing));
    c.apply_direct_zones(BANK, &[(1, vec![])], false);
    assert_eq!(mode(&c), None);
    c.set_effect(BANK, 99, &breathing).unwrap_err();
    assert_eq!(mode(&c), None);
    c.set_effect(BANK, 3, &breathing).unwrap();
    c.set_effect(BANK, 3, &effect(RgbMode::Off, [0; 3])).unwrap();
    assert_eq!(mode(&c), None);
    c.set_effect(BANK, 3, &breathing).unwrap();
    c.set_wireless(false);
    c.refresh_wireless_devices(&[]);
    assert_eq!(mode(&c), Some(RgbMode::Breathing));
    c.set_wireless(true);
    c.refresh_wireless_devices(&[bank(MAC, 2, duo())]);
    assert_eq!(mode(&c), None);
    c.set_effect("strip", 0, &breathing).unwrap();
    assert_eq!(c.active_animated_mode("strip"), None);
}
