use lianli_rgb::action::Action;
use lianli_rgb::capabilities::WiredDevice;
use lianli_rgb::controller::RgbController;
use lianli_rgb::direct_color::{
    begin_turn, flush_bank, flush_pause, flush_wired, plan_flush, DeviceWrite, DirectColorBuffer,
    FlushClock, FlushTurn, TurnStart, TurnStep, EMPTY_PAUSE, FLUSH_IDLE_FLOOR, FLUSH_INTERVAL,
};
use lianli_rgb::effect::{
    breathing_cycles_per_window, effect_index_from_state, BreathingTable, BREATHING_LEVELS,
};
use lianli_rgb::fan_type::{FanProfile, SubZone, WirelessFanType};
use lianli_rgb::model::WirelessBank;
use lianli_rgb::vec_map::VecMap;

const MAC: [u8; 6] = [0xa, 0xb, 0xc, 0xd, 0xe, 0xf];
const BANK: &str = "wireless:0a:0b:0c:0d:0e:0f";
const MS: u64 = 1_000_000;

/// One flash in the middle of each breath.
fn table() -> BreathingTable {
    let mut levels = Vec::with_capacity(BREATHING_LEVELS);
    for speed in 0..5u8 {
        for brightness in 0..5u32 {
            for frame in 0..480 {
                let lit = (frame * breathing_cycles_per_window(speed)) % 480 == 240;
                for v in 0..256u32 {
                    levels.push(if lit { (v * brightness / 4) as u8 } else { 0 });
                }
            }
        }
    }
    BreathingTable::from_levels(levels).unwrap()
}

fn controller() -> RgbController {
    let profile = FanProfile {
        fan_type: WirelessFanType::Fan(20),
        display_name: "Mono".to_string(),
        leds_per_fan: 2,
        pump_led_count: 0,
        total_led_count_override: None,
        sub_zones: vec![SubZone { name: "Fan".to_string(), led_count: 2 }],
    };
    let mut wired = VecMap::new();
    wired.insert(
        "strip".to_string(),
        WiredDevice {
            device_name: "Strip".to_string(),
            supported_modes: vec![],
            zones: vec![],
            supports_direct: true,
            supports_mb_rgb_sync: false,
            total_led_count: 1,
            supported_scopes: vec![],
            supports_direction: false,
        },
    );
    RgbController::new(
        wired,
        Some(vec![WirelessBank { mac: MAC, fan_count: 2, profile }]),
        table(),
    )
}

fn write(device_id: &str, zones: Vec<(u8, Vec<[u8; 3]>)>) -> DeviceWrite {
    DeviceWrite { device_id: device_id.to_string(), zones }
}

fn ids(writes: &[DeviceWrite]) -> Vec<&str> {
    writes.iter().map(|w| w.device_id.as_str()).collect()
}

#[test]
fn newest_colors_win() {
    let mut b = DirectColorBuffer::new();
    b.set("a".to_string(), 1, vec![[1; 3]]);
    b.set("a".to_string(), 2, vec![[2; 3]]);
    b.set("a".to_string(), 1, vec![[3; 3], [4; 3]]);
    let all = b.take_all();
    assert_eq!(all.len(), 1);
    let zones = all.get(&"a".to_string()).unwrap();
    assert_eq!(zones.len(), 2);
    assert_eq!(zones.get(&1), Some(&vec![[3; 3], [4; 3]]));
    assert_eq!(zones.get(&2), Some(&vec![[2; 3]]));
    assert_eq!(b.take_all().len(), 0);
}

#[test]
fn single_leds_are_patched_where_pending() {
    let mut b = DirectColorBuffer::new();
    assert!(!b.patch_led("a", 1, 0, [9; 3]));
    b.set("a".to_string(), 1, vec![[1; 3], [2; 3]]);
    assert!(b.patch_led("a", 1, 1, [9; 3]));
    assert!(!b.patch_led("a", 1, 2, [9; 3]));
    assert!(!b.patch_led("a", 2, 0, [9; 3]));
    assert!(!b.patch_led("b", 1, 0, [9; 3]));
    let all = b.take_all();
    let zones = all.get(&"a".to_string()).unwrap();
    assert_eq!(zones.get(&1), Some(&vec![[1; 3], [9; 3]]));
    assert!(!b.patch_led("a", 1, 0, [9; 3]));
}

#[test]
fn flush_splits_by_kind() {
    let c = controller();
    let mut b = DirectColorBuffer::new();
    b.set(BANK.to_string(), 0, vec![[1; 3]]);
    b.set("strip".to_string(), 0, vec![[2; 3]]);
    b.set("nobody".to_string(), 7, vec![[3; 3]]);
    let plan = plan_flush(&c, &b.take_all());
    assert_eq!(ids(&plan.wired), vec!["strip", "nobody"]);
    assert_eq!(ids(&plan.wireless), vec![BANK]);
    assert_eq!(plan.wired[1].zones, vec![(7, vec![[3; 3]])]);
    assert_eq!(plan.wireless[0].zones, vec![(0, vec![[1; 3]])]);
}

#[test]
fn wired_writes_go_zone_by_zone() {
    let mut c = controller();
    let r = flush_wired(
        &mut c,
        &vec![
            write("strip", vec![(0, vec![[2; 3]]), (1, vec![])]),
            write("nobody", vec![(7, vec![[3; 3]])]),
        ],
    );
    assert_eq!(r.len(), 3);
    assert_eq!(
        r[0],
        Ok(Action::WiredColors { device_id: "strip".to_string(), zone: 0, colors: vec![[2; 3]] })
    );
    assert_eq!(
        r[1],
        Ok(Action::WiredColors { device_id: "strip".to_string(), zone: 1, colors: vec![] })
    );
    assert_eq!(r[2].as_ref().unwrap_err().message(), "RGB device not found: nobody");
}

#[test]
fn bank_writes_go_out_together() {
    let mut c = controller();
    let mut clock = FlushClock::new();
    let w = write(BANK, vec![(1, vec![[2; 3]; 2]), (0, vec![[1; 3]])]);
    let leds = vec![[1; 3], [0; 3], [2; 3], [2; 3]];
    let want = |repeats: u8| {
        vec![Action::SendDirect {
            mac: MAC,
            leds: leds.clone(),
            effect_index: effect_index_from_state(&leds),
            repeats,
        }]
    };
    assert_eq!(flush_bank(&clock, &mut c, &w, 0).actions, want(8));
    clock.flushed(BANK, 0);
    assert_eq!(flush_bank(&clock, &mut c, &w, 1000 * MS).actions, want(2));
    assert_eq!(flush_bank(&clock, &mut c, &w, 1000 * MS + 1).actions, want(8));
}

#[test]
fn stream_is_told_per_device() {
    let mut clock = FlushClock::new();
    assert!(clock.is_one_shot("a", 5));
    clock.flushed("a", 500 * MS);
    assert!(!clock.is_one_shot("a", 500 * MS));
    assert!(!clock.is_one_shot("a", 0));
    assert!(!clock.is_one_shot("a", 1500 * MS));
    assert!(clock.is_one_shot("a", 1500 * MS + 1));
    assert!(clock.is_one_shot("b", 501 * MS));
    clock.flushed("a", 1500 * MS);
    assert!(!clock.is_one_shot("a", 2500 * MS));
}

#[test]
fn pause_after_a_flush() {
    assert_eq!(FLUSH_INTERVAL, 33 * MS);
    assert_eq!(FLUSH_IDLE_FLOOR, 15 * MS);
    assert_eq!(EMPTY_PAUSE, 5 * MS);
    assert_eq!(flush_pause(0), 33 * MS);
    assert_eq!(flush_pause(10 * MS), 23 * MS);
    assert_eq!(flush_pause(18 * MS), 15 * MS);
    assert_eq!(flush_pause(19 * MS), 15 * MS);
    assert_eq!(flush_pause(33 * MS), 15 * MS);
    assert_eq!(flush_pause(u64::MAX), 15 * MS);
}

#[test]
fn stopped_writer_takes_nothing() {
    let mut b = DirectColorBuffer::new();
    assert!(matches!(begin_turn(&mut b, true), TurnStart::Stop));
    b.set("a".to_string(), 1, vec![[1; 3]]);
    assert!(matches!(begin_turn(&mut b, true), TurnStart::Stop));
    assert_eq!(b.take_all().len(), 1);
}

#[test]
fn idle_writer_rests() {
    let mut b = DirectColorBuffer::new();
    match begin_turn(&mut b, false) {
        TurnStart::Rest(pause) => assert_eq!(pause, 5 * MS),
        _ => panic!("nothing is pending"),
    }
}

#[test]
fn turn_serves_wired_devices_first() {
    let mut c = controller();
    let mut clock = FlushClock::new();
    let mut b = DirectColorBuffer::new();
    b.set(BANK.to_string(), 9, vec![[9; 3]]);
    b.set(BANK.to_string(), 0, vec![[1; 3]]);
    b.set("nobody".to_string(), 7, vec![[3; 3]]);
    b.set("strip".to_string(), 0, vec![[2; 3]]);
    let updates = match begin_turn(&mut b, false) {
        TurnStart::Flush(u) => u,
        _ => panic!("colors are pending"),
    };
    assert_eq!(b.take_all().len(), 0);
    let mut turn = FlushTurn::new(plan_flush(&c, &updates));
    match turn.step(&mut clock, &mut c, 0) {
        TurnStep::Wired(out) => {
            assert_eq!(out.len(), 2);
            assert!(out[0].is_err());
            assert_eq!(
                out[1],
                Ok(Action::WiredColors {
                    device_id: "strip".to_string(),
                    zone: 0,
                    colors: vec![[2; 3]]
                })
            );
        }
        _ => panic!("the wired devices come first"),
    }
    assert!(clock.is_one_shot(BANK, 100 * MS));
    match turn.step(&mut clock, &mut c, 100 * MS) {
        TurnStep::Bank(id, answer) => {
            assert_eq!(id, BANK);
            assert_eq!(answer.actions.len(), 1);
            assert!(answer.refused.is_some());
        }
        _ => panic!("then the bank"),
    }
    assert!(clock.is_one_shot(BANK, 100 * MS));
    assert!(matches!(turn.step(&mut clock, &mut c, 130 * MS), TurnStep::Done));
    assert!(!clock.is_one_shot(BANK, 1130 * MS));
    assert!(clock.is_one_shot(BANK, 1130 * MS + 1));
    assert!(matches!(turn.step(&mut clock, &mut c, 900 * MS), TurnStep::Done));
    assert!(clock.is_one_shot(BANK, 1130 * MS + 1));
    assert!(clock.is_one_shot("strip", 130 * MS));
}
