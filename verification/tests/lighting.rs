use lianli_rgb::action::{count_done, settle, Action, RgbError};
use lianli_rgb::bank::{
    apply_zone_colors_state, apply_zone_effect_state, is_untouched, render_composite_frames,
    upload_wireless_state, wireless_total_zones, wireless_zone_slice, WirelessRgbState,
};
use lianli_rgb::effect::{
    breathing_cycles_per_window, effect_index_from_state, pattern_is_animated, render_zone_color,
    BreathingTable, RgbEffect, RgbMode, BREATHING_LEVELS, COMPOSITE_FRAMES,
};
use lianli_rgb::fan_type::{FanProfile, SubZone, WirelessFanType};

const MAC: [u8; 6] = [0xde, 0xad, 0xbe, 0xef, 0x00, 0x01];

fn sub(name: &str, led_count: u8) -> SubZone {
    SubZone { name: name.to_string(), led_count }
}

fn infinity() -> FanProfile {
    FanProfile {
        fan_type: WirelessFanType::Fan(36),
        display_name: "SL-Infinity".to_string(),
        leds_per_fan: 44,
        pump_led_count: 0,
        total_led_count_override: None,
        sub_zones: vec![
            sub("Blades", 8),
            sub("Left Outer", 10),
            sub("Left Inner", 8),
            sub("Right Outer", 10),
            sub("Right Inner", 8),
        ],
    }
}

fn cooler() -> FanProfile {
    FanProfile {
        fan_type: WirelessFanType::WaterBlock,
        display_name: "Water Block".to_string(),
        leds_per_fan: 20,
        pump_led_count: 24,
        total_led_count_override: None,
        sub_zones: vec![sub("Fan", 20)],
    }
}

fn ring() -> FanProfile {
    FanProfile {
        fan_type: WirelessFanType::Lc217,
        display_name: "LC217".to_string(),
        leds_per_fan: 0,
        pump_led_count: 0,
        total_led_count_override: Some(96),
        sub_zones: vec![],
    }
}

fn table() -> BreathingTable {
    let mut levels = Vec::with_capacity(BREATHING_LEVELS);
    for speed in 0..5u8 {
        for brightness in 0..5u8 {
            for frame in 0..COMPOSITE_FRAMES {
                let scale = (brightness as f32 / 4.0).clamp(0.0, 1.0);
                let cycles = breathing_cycles_per_window(speed) as f32;
                let t = (frame as f32 * cycles) / COMPOSITE_FRAMES as f32;
                let factor = (std::f32::consts::PI * t.fract()).sin() * scale;
                for v in 0..=255u8 {
                    levels.push((v as f32 * factor) as u8);
                }
            }
        }
    }
    BreathingTable::from_levels(levels).unwrap()
}

fn effect(mode: RgbMode, color: [u8; 3], speed: u8, brightness: u8) -> RgbEffect {
    RgbEffect { mode, colors: vec![color], speed, brightness, direction: 0 }
}

#[test]
fn infinity_parts_follow_each_other() {
    let s = WirelessRgbState::new(MAC, 2, infinity());
    assert_eq!(s.led_state.len(), 88);
    assert_eq!(wireless_total_zones(&s), 10);
    let want = [(0, 8), (8, 10), (18, 8), (26, 10), (36, 8)];
    for (i, w) in want.iter().enumerate() {
        assert_eq!(wireless_zone_slice(&s, i), Some(*w));
        assert_eq!(wireless_zone_slice(&s, i + 5), Some((w.0 + 44, w.1)));
    }
    assert_eq!(wireless_zone_slice(&s, 10), None);
    assert_eq!(wireless_zone_slice(&s, usize::MAX), None);
}

#[test]
fn cooler_has_its_pump_first() {
    let s = WirelessRgbState::new(MAC, 3, cooler());
    assert_eq!(s.led_state.len(), 84);
    assert_eq!(wireless_total_zones(&s), 4);
    assert_eq!(wireless_zone_slice(&s, 0), Some((0, 24)));
    assert_eq!(wireless_zone_slice(&s, 1), Some((24, 20)));
    assert_eq!(wireless_zone_slice(&s, 3), Some((64, 20)));
    assert_eq!(wireless_zone_slice(&s, 4), None);
}

#[test]
fn cooler_without_fans_has_its_pump() {
    let s = WirelessRgbState::new(MAC, 0, cooler());
    assert_eq!(wireless_total_zones(&s), 1);
    assert_eq!(wireless_zone_slice(&s, 0), Some((0, 24)));
    assert_eq!(wireless_zone_slice(&s, 1), None);
}

#[test]
fn lights_only_is_one_zone() {
    let s = WirelessRgbState::new(MAC, 0, ring());
    assert_eq!(s.led_state.len(), 96);
    assert_eq!(wireless_total_zones(&s), 1);
    assert_eq!(wireless_zone_slice(&s, 0), Some((0, 96)));
    assert_eq!(wireless_zone_slice(&s, 1), None);
}

#[test]
fn every_led_has_one_zone() {
    for (profile, fans) in [(infinity(), 3u8), (cooler(), 2), (ring(), 0)] {
        let s = WirelessRgbState::new(MAC, fans, profile);
        let mut owners = vec![0; s.led_state.len()];
        for z in 0..wireless_total_zones(&s) {
            let (start, len) = wireless_zone_slice(&s, z).unwrap();
            for p in start..start + len {
                owners[p] += 1;
            }
        }
        assert!(owners.iter().all(|n| *n == 1));
    }
}

#[test]
fn brightness_scales_by_quarters() {
    let c = [255, 100, 7];
    let show = |b| render_zone_color(&effect(RgbMode::Static, c, 0, b), 1)[0];
    assert_eq!(show(0), [0, 0, 0]);
    assert_eq!(show(1), [63, 25, 1]);
    assert_eq!(show(2), [127, 50, 3]);
    assert_eq!(show(3), [191, 75, 5]);
    assert_eq!(show(4), c);
    assert_eq!(show(255), c);
}

#[test]
fn brightness_agrees_with_the_ratio() {
    for b in 0..=255u8 {
        for v in 0..=255u8 {
            let scale = (b as f32 / 4.0).clamp(0.0, 1.0);
            let want = (v as f32 * scale) as u8;
            let got = render_zone_color(&effect(RgbMode::Static, [v, v, v], 0, b), 1);
            assert_eq!(got, vec![[want; 3]]);
        }
    }
}

#[test]
fn uniform_colors() {
    assert_eq!(render_zone_color(&effect(RgbMode::Off, [9, 9, 9], 0, 4), 3), vec![[0, 0, 0]; 3]);
    let bare = RgbEffect { mode: RgbMode::Static, colors: vec![], speed: 0, brightness: 4, direction: 0 };
    assert_eq!(render_zone_color(&bare, 2), vec![[255, 255, 255]; 2]);
    assert_eq!(render_zone_color(&bare, 0), Vec::<[u8; 3]>::new());
}

#[test]
fn only_breathing_is_animated() {
    assert!(pattern_is_animated(RgbMode::Breathing));
    for m in [RgbMode::Off, RgbMode::Static, RgbMode::Direct, RgbMode::Rainbow, RgbMode::Other(7)] {
        assert!(!pattern_is_animated(m));
    }
}

#[test]
fn breathing_cycles_divide_the_loop() {
    let got: Vec<u32> = (0..7u8).map(breathing_cycles_per_window).collect();
    assert_eq!(got, vec![1, 2, 4, 6, 12, 12, 12]);
    assert_eq!(breathing_cycles_per_window(255), 12);
    for c in got {
        assert_eq!(COMPOSITE_FRAMES as u32 % c, 0);
    }
}

#[test]
fn effect_index_is_fnv() {
    assert_eq!(effect_index_from_state(&[]), [0x81, 0x1c, 0x9d, 0xc5]);
    assert_eq!(effect_index_from_state(&[*b"abc"]), [0x1a, 0x47, 0xe9, 0x0b]);
    assert_eq!(effect_index_from_state(&[*b"foo", *b"bar"]), [0xbf, 0x9c, 0xf9, 0x68]);
    assert_ne!(effect_index_from_state(&[[0, 0, 0]; 44]), [0, 0, 0, 0]);
}

#[test]
fn one_byte_changes_the_mark() {
    let base = vec![[7u8, 0, 200]; 12];
    let mark = effect_index_from_state(&base);
    for i in 0..base.len() {
        for c in 0..3 {
            for v in 0..=255u8 {
                let mut other = base.clone();
                other[i][c] = v;
                assert_eq!(effect_index_from_state(&other) == mark, other == base);
            }
        }
    }
}

#[test]
fn table_needs_all_levels() {
    assert!(BreathingTable::from_levels(vec![0; BREATHING_LEVELS - 1]).is_none());
    assert!(BreathingTable::from_levels(vec![0; BREATHING_LEVELS + 1]).is_none());
    assert_eq!(table().level(0, 4, 240, 255), 255);
}

#[test]
fn table_is_read_at_its_place() {
    let t = table();
    assert_eq!(t.level(0, 4, 240, 200), 200);
    assert_eq!(t.level(0, 4, 120, 200), 141);
    assert_eq!(t.level(0, 2, 240, 200), 100);
    assert_eq!(t.level(0, 9, 240, 255), 255);
    assert_eq!(t.level(4, 4, 20, 200), 200);
    assert_eq!(t.level(200, 4, 20, 200), 200);
    assert_eq!(t.level(4, 4, 40, 200), 0);
    assert_eq!(t.level(3, 0, 17, 255), 0);
}

#[test]
fn tables_without_breaths_are_refused() {
    let full: Vec<u8> = (0..BREATHING_LEVELS).map(|i| (i % 256) as u8).collect();
    assert!(BreathingTable::from_levels(full).is_none());
    assert!(BreathingTable::from_levels(vec![0; BREATHING_LEVELS]).is_none());
    assert!(BreathingTable::from_levels(vec![1; BREATHING_LEVELS]).is_none());
}

#[test]
fn composite_breathes_at_its_speed() {
    let t = table();
    for (speed, frames_per_breath) in [(0, 480), (1, 240), (2, 120), (3, 80), (4, 40)] {
        let mut s = WirelessRgbState::new(MAC, 1, infinity());
        apply_zone_colors_state(&mut s, 0, &vec![[200, 100, 7]; 8]).unwrap();
        apply_zone_effect_state(&mut s, 0, &effect(RgbMode::Breathing, [1; 3], speed, 3)).unwrap();
        let (frames, _) = render_composite_frames(&s, &t);
        for (i, f) in frames.iter().enumerate() {
            assert!(f[0][0] <= 150 && f[0][1] <= 75 && f[0][2] <= 5);
            if i % frames_per_breath == 0 {
                assert_eq!(f[0], [0, 0, 0]);
            }
            if i % frames_per_breath == frames_per_breath / 2 {
                assert_eq!(f[0], [150, 75, 5]);
            }
        }
    }
}

#[test]
fn zones_follow_each_other() {
    for (profile, fans) in [(infinity(), 3u8), (cooler(), 2), (ring(), 0)] {
        let s = WirelessRgbState::new(MAC, fans, profile);
        let mut end = 0;
        for z in 0..wireless_total_zones(&s) {
            let (start, len) = wireless_zone_slice(&s, z).unwrap();
            assert_eq!(start, end);
            end = start + len;
        }
    }
}

#[test]
fn leds_of_no_part_are_skipped() {
    let mut p = infinity();
    p.leds_per_fan = 50;
    let s = WirelessRgbState::new(MAC, 2, p);
    assert_eq!(wireless_zone_slice(&s, 4), Some((36, 8)));
    assert_eq!(wireless_zone_slice(&s, 5), Some((50, 8)));
}

#[test]
fn static_effect_fills_its_zone() {
    let mut s = WirelessRgbState::new(MAC, 1, infinity());
    apply_zone_effect_state(&mut s, 1, &effect(RgbMode::Static, [10, 20, 30], 0, 4)).unwrap();
    for p in 0..44 {
        let want = if (8..18).contains(&p) { [10, 20, 30] } else { [0, 0, 0] };
        assert_eq!(s.led_state[p], want);
    }
    assert_eq!(s.sub_zone_effects.len(), 0);
}

#[test]
fn breathing_keeps_lit_colors() {
    let mut s = WirelessRgbState::new(MAC, 1, infinity());
    let own: Vec<[u8; 3]> = (0..8).map(|i| [i, 2 * i, 100]).collect();
    apply_zone_colors_state(&mut s, 0, &own).unwrap();
    apply_zone_effect_state(&mut s, 0, &effect(RgbMode::Breathing, [255, 0, 0], 2, 4)).unwrap();
    assert_eq!(s.led_state[..8].to_vec(), own);
    assert_eq!(s.sub_zone_effects.len(), 1);
}

#[test]
fn breathing_lights_a_dark_zone() {
    let mut s = WirelessRgbState::new(MAC, 1, infinity());
    apply_zone_effect_state(&mut s, 4, &effect(RgbMode::Breathing, [255, 0, 80], 2, 2)).unwrap();
    assert_eq!(s.led_state[36..44].to_vec(), vec![[127, 0, 40]; 8]);
    assert!(s.led_state[..36].iter().all(|c| *c == [0, 0, 0]));
}

#[test]
fn colors_end_an_animation() {
    let mut s = WirelessRgbState::new(MAC, 1, infinity());
    apply_zone_effect_state(&mut s, 0, &effect(RgbMode::Breathing, [1, 1, 1], 2, 4)).unwrap();
    apply_zone_effect_state(&mut s, 1, &effect(RgbMode::Breathing, [1, 1, 1], 2, 4)).unwrap();
    apply_zone_colors_state(&mut s, 0, &[[5, 5, 5]]).unwrap();
    assert!(!s.sub_zone_effects.contains_key(&0));
    assert!(s.sub_zone_effects.contains_key(&1));
    assert_eq!(s.led_state[0], [5, 5, 5]);
    assert_eq!(s.led_state[1], [1, 1, 1]);
}

#[test]
fn surplus_colors_are_dropped() {
    let mut s = WirelessRgbState::new(MAC, 1, infinity());
    apply_zone_colors_state(&mut s, 0, &vec![[7, 7, 7]; 20]).unwrap();
    assert_eq!(s.led_state[..8].to_vec(), vec![[7, 7, 7]; 8]);
    assert_eq!(s.led_state[8], [0, 0, 0]);
}

#[test]
fn unknown_zone_is_refused() {
    let mut s = WirelessRgbState::new(MAC, 2, infinity());
    let e = apply_zone_effect_state(&mut s, 10, &effect(RgbMode::Static, [1, 1, 1], 0, 4)).unwrap_err();
    assert_eq!(
        e,
        RgbError::ZoneOutOfRange { zone: 10, total_zones: 10, fan_type: WirelessFanType::Fan(36), fan_count: 2 }
    );
    assert_eq!(
        e.message(),
        "Zone 10 out of range (device has 10 zones, fan_type=Fan(36), fan_count=2)"
    );
    assert!(apply_zone_colors_state(&mut s, 255, &[[1, 1, 1]]).is_err());
    assert!(is_untouched(&s));
}

#[test]
fn effects_on_two_zones_commute() {
    let a = effect(RgbMode::Breathing, [9, 8, 7], 1, 3);
    let b = effect(RgbMode::Static, [1, 2, 3], 0, 4);
    let mut x = WirelessRgbState::new(MAC, 1, infinity());
    apply_zone_effect_state(&mut x, 0, &a).unwrap();
    apply_zone_effect_state(&mut x, 3, &b).unwrap();
    let mut y = WirelessRgbState::new(MAC, 1, infinity());
    apply_zone_effect_state(&mut y, 3, &b).unwrap();
    apply_zone_effect_state(&mut y, 0, &a).unwrap();
    assert_eq!(x.led_state, y.led_state);
    assert_eq!(x.sub_zone_effects.len(), y.sub_zone_effects.len());
}

#[test]
fn composite_breathes_each_led_and_keeps_the_rest() {
    let t = table();
    let mut s = WirelessRgbState::new(MAC, 1, infinity());
    let own: Vec<[u8; 3]> = (0..8).map(|i| [200, 10 * i, 255]).collect();
    apply_zone_colors_state(&mut s, 0, &own).unwrap();
    apply_zone_effect_state(&mut s, 0, &effect(RgbMode::Breathing, [1, 1, 1], 0, 4)).unwrap();
    apply_zone_effect_state(&mut s, 1, &effect(RgbMode::Static, [3, 4, 5], 0, 4)).unwrap();
    apply_zone_effect_state(&mut s, 2, &effect(RgbMode::Breathing, [200, 0, 0], 4, 4)).unwrap();
    let (frames, interval) = render_composite_frames(&s, &t);
    assert_eq!(frames.len(), 480);
    assert_eq!(interval, 25);
    assert!(frames.iter().all(|f| f.len() == 44));
    assert_eq!(frames[0][0], [0, 0, 0]);
    assert_eq!(frames[240][..8].to_vec(), own);
    assert_eq!(frames[120][3], [141, 21, 180]);
    for f in &frames {
        assert_eq!(f[8..18].to_vec(), vec![[3, 4, 5]; 10]);
        assert_eq!(f[26..44].to_vec(), vec![[0, 0, 0]; 18]);
    }
    assert_eq!(frames[20][18], [200, 0, 0]);
    assert_eq!(frames[40][18], [0, 0, 0]);
}

#[test]
fn upload_follows_the_state() {
    let t = table();
    let mut s = WirelessRgbState::new(MAC, 1, infinity());
    apply_zone_effect_state(&mut s, 0, &effect(RgbMode::Static, [3, 4, 5], 0, 4)).unwrap();
    assert_eq!(
        upload_wireless_state(&s, &t),
        Action::SendDirect {
            mac: MAC,
            leds: s.led_state.clone(),
            effect_index: effect_index_from_state(&s.led_state),
            repeats: 8,
        }
    );
    apply_zone_effect_state(&mut s, 0, &effect(RgbMode::Breathing, [3, 4, 5], 0, 4)).unwrap();
    match upload_wireless_state(&s, &t) {
        Action::SendFrames { mac, frames, interval_ms, effect_index, repeats } => {
            assert_eq!(mac, MAC);
            assert_eq!(frames.len(), 480);
            assert_eq!(interval_ms, 25);
            assert_eq!(effect_index, effect_index_from_state(&s.led_state));
            assert_eq!(repeats, 8);
        }
        other => panic!("{other:?}"),
    }
    assert_eq!(s.led_state[0], [3, 4, 5]);
}

#[test]
fn untouched_until_lit() {
    let mut s = WirelessRgbState::new(MAC, 1, infinity());
    assert!(is_untouched(&s));
    apply_zone_effect_state(&mut s, 0, &effect(RgbMode::Breathing, [0, 0, 0], 0, 4)).unwrap();
    assert!(!is_untouched(&s));
    let mut s = WirelessRgbState::new(MAC, 1, infinity());
    apply_zone_colors_state(&mut s, 4, &[[0, 0, 1]]).unwrap();
    assert!(!is_untouched(&s));
}

#[test]
fn successes_are_counted() {
    assert_eq!(count_done::<u8>(&vec![]), 0);
    assert_eq!(count_done::<u8>(&vec![Ok(()), Err(1), Ok(()), Err(2)]), 2);
    assert_eq!(count_done::<u8>(&vec![Err(1)]), 0);
}

#[test]
fn batch_reports_the_first_error() {
    assert_eq!(settle::<u8>(None, vec![Ok(()), Ok(())]), Ok(()));
    assert_eq!(settle::<u8>(None, vec![Ok(()), Err(1), Err(2)]), Err(1));
    assert_eq!(settle(Some(9), vec![Err(1)]), Err(9));
    assert_eq!(settle::<u8>(None, vec![]), Ok(()));
}

#[test]
fn layouts_are_checked() {
    assert!(infinity().is_valid());
    assert!(cooler().is_valid());
    assert!(ring().is_valid());
    let mut p = infinity();
    p.leds_per_fan = 43;
    assert!(!p.is_valid());
    let mut p = infinity();
    p.sub_zones.clear();
    assert!(!p.is_valid());
    let mut p = infinity();
    p.sub_zones = (0..256).map(|_| sub("Part", 0)).collect();
    assert!(!p.is_valid());
    p.sub_zones.pop();
    assert!(p.is_valid());
}
