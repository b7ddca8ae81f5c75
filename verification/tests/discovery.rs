use lianli_rgb::discovery::{parse_device_record, DiscoveredDevice};
use lianli_rgb::fan_type::WirelessFanType;
use lianli_rgb::network::{
    getdev_command, UnexpectedResponse, WirelessNetwork, PWM_UNAVAILABLE,
};
use lianli_rgb::slots::{any_slot_shared, slots_differ, sorted_slots};

const MASTER: [u8; 6] = [0xaa, 0xbb, 0xcc, 0xdd, 0xee, 0xff];

fn record(id: u8, device_type: u8) -> Vec<u8> {
    let mut r = vec![0u8; 42];
    r[..6].copy_from_slice(&[id, 2, 3, 4, 5, 0x6f]);
    r[6..12].copy_from_slice(&MASTER);
    r[12] = 8;
    r[13] = 1;
    r[18] = device_type;
    r[19] = 4;
    r[20..24].copy_from_slice(&[9, 8, 7, 6]);
    r[24..28].copy_from_slice(&[36, 36, 0, 0]);
    for (i, rpm) in [1000u16, 1001, 1002, 1003].iter().enumerate() {
        r[28 + 2 * i] = (rpm >> 8) as u8;
        r[29 + 2 * i] = *rpm as u8;
    }
    r[36..40].copy_from_slice(&[50, 60, 70, 80]);
    r[40] = 77;
    r[41] = 0x1c;
    r
}

fn parse(r: &[u8]) -> DiscoveredDevice {
    parse_device_record(r, 5).unwrap()
}

fn answer(records: &[Vec<u8>]) -> Vec<u8> {
    let mut a = vec![0x10, records.len() as u8, 30, 90];
    for r in records {
        a.extend_from_slice(r);
    }
    a
}

#[test]
fn record_fields() {
    let d = parse(&record(1, 0));
    assert_eq!(d.mac, [1, 2, 3, 4, 5, 0x6f]);
    assert_eq!(d.master_mac, MASTER);
    assert_eq!(d.channel, 8);
    assert_eq!(d.rx_type, 1);
    assert_eq!(d.device_type, 0);
    assert_eq!(d.fan_count, 2);
    assert_eq!(d.fan_types, [36, 36, 0, 0]);
    assert_eq!(d.fan_rpms, [1000, 1001, 1002, 1003]);
    assert_eq!(d.current_pwm, [50, 60, 70, 80]);
    assert_eq!(d.cmd_seq, 77);
    assert_eq!(d.fan_type, WirelessFanType::Fan(36));
    assert_eq!(d.list_index, 5);
    assert_eq!(d.coolant_temp_c, None);
    assert_eq!(d.effect_index, [9, 8, 7, 6]);
    assert_eq!(d.mac_str(), "01:02:03:04:05:6f");
    assert!(!d.is_aio());
    assert_eq!(d.pump_rpm(), None);
    assert_eq!(d.describe(), "01:02:03:04:05:6f (Fan(36), 2 fans, ch=8, rx=1)");
}

#[test]
fn records_that_are_none() {
    assert!(parse_device_record(&record(1, 0)[..41], 0).is_none());
    assert!(parse_device_record(&[], 0).is_none());
    let mut r = record(1, 0);
    r[41] = 0x1d;
    assert!(parse_device_record(&r, 0).is_none());
    assert!(parse_device_record(&record(1, 0xff), 0).is_none());
    let mut long = record(1, 0);
    long.push(0);
    assert!(parse_device_record(&long, 0).is_some());
}

#[test]
fn fans_are_counted_by_slots() {
    let mut r = record(1, 0);
    r[24..28].copy_from_slice(&[0, 20, 0, 21]);
    assert_eq!(parse(&r).fan_count, 2);
    assert_eq!(parse(&r).fan_type, WirelessFanType::Fan(20));
    r[24..28].copy_from_slice(&[1, 2, 3, 4]);
    assert_eq!(parse(&r).fan_count, 4);
    r[24..28].copy_from_slice(&[0, 0, 0, 0]);
    assert_eq!(parse(&r).fan_count, 4);
    assert_eq!(parse(&r).fan_type, WirelessFanType::Unknown);
    r[19] = 3;
    assert_eq!(parse(&r).fan_count, 3);
    r[19] = 200;
    assert_eq!(parse(&r).fan_count, 4);
}

#[test]
fn device_types() {
    assert_eq!(parse(&record(1, 10)).fan_type, WirelessFanType::WaterBlock);
    assert_eq!(parse(&record(1, 11)).fan_type, WirelessFanType::WaterBlock2);
    assert_eq!(parse(&record(1, 1)).fan_type, WirelessFanType::Strimer(1));
    assert_eq!(parse(&record(1, 9)).fan_type, WirelessFanType::Strimer(9));
    assert_eq!(parse(&record(1, 65)).fan_type, WirelessFanType::Lc217);
    assert_eq!(parse(&record(1, 66)).fan_type, WirelessFanType::V150);
    assert_eq!(parse(&record(1, 88)).fan_type, WirelessFanType::Led88);
    assert_eq!(parse(&record(1, 12)).fan_type, WirelessFanType::Fan(36));
}

#[test]
fn coolers_report_their_coolant() {
    let mut r = record(1, 10);
    r[24..28].copy_from_slice(&[36, 36, 36, 31]);
    let d = parse(&r);
    assert!(d.is_aio());
    assert_eq!(d.coolant_temp_c, Some(31));
    assert_eq!(d.fan_count, 3);
    assert_eq!(d.fan_types, [36, 36, 36, 0]);
    assert_eq!(d.pump_rpm(), Some(1003));
    assert_eq!(
        d.describe(),
        "01:02:03:04:05:6f (WaterBlock, 3 fans, pump=1003rpm, coolant=31°C, ch=8, rx=1)"
    );
    r[27] = 0;
    assert_eq!(parse(&r).coolant_temp_c, None);
    assert_eq!(
        parse(&r).describe(),
        "01:02:03:04:05:6f (WaterBlock, 3 fans, pump=1003rpm, ch=8, rx=1)"
    );
    r[24..28].copy_from_slice(&[0, 0, 0, 31]);
    r[19] = 2;
    assert_eq!(parse(&r).fan_count, 2);
    r[18] = 0;
    assert_eq!(parse(&r).coolant_temp_c, None);
    assert_eq!(parse(&r).fan_count, 1);
}

#[test]
fn command_asks_for_page_one() {
    let c = getdev_command();
    assert_eq!(c.len(), 64);
    assert_eq!(c[..2].to_vec(), vec![0x10, 0x01]);
    assert!(c[2..].iter().all(|b| *b == 0));
}

#[test]
fn short_and_strange_answers() {
    let mut n = WirelessNetwork::new(MASTER, 8);
    assert!(n.poll_and_discover(&[], 0).is_ok());
    assert!(n.poll_and_discover(&[0x11, 1, 2], 0).is_ok());
    assert_eq!(n.mobo_pwm, PWM_UNAVAILABLE);
    assert_eq!(n.poll_and_discover(&[0x11, 1, 2, 3], 0).unwrap_err(), UnexpectedResponse(0x11));
    assert_eq!(n.mobo_pwm, PWM_UNAVAILABLE);
}

#[test]
fn mainboard_duty_cycle() {
    let mut n = WirelessNetwork::new(MASTER, 8);
    let mut pwm = |a: u8, b: u8| {
        n.poll_and_discover(&[0x10, 0, a, b], 0).unwrap();
        n.mobo_pwm
    };
    assert_eq!(pwm(30, 90), 191);
    assert_eq!(pwm(0, 255), 255);
    assert_eq!(pwm(127, 0), 0);
    assert_eq!(pwm(0, 0), 0xffff);
    assert_eq!(pwm(128, 90), 0xffff);
}

#[test]
fn too_many_devices_are_none() {
    let mut n = WirelessNetwork::new(MASTER, 8);
    let mut a = answer(&[record(1, 0)]);
    a[1] = 13;
    n.poll_and_discover(&a, 0).unwrap();
    assert_eq!(n.devices.len(), 0);
    assert_eq!(n.mobo_pwm, 191);
}

#[test]
fn truncated_answer_gives_what_is_there() {
    let mut n = WirelessNetwork::new(MASTER, 8);
    let mut a = answer(&[record(1, 0), record(2, 0)]);
    a.pop();
    let r = n.poll_and_discover(&a, 0).unwrap();
    assert_eq!(n.devices.len(), 1);
    assert_eq!(r.population, Some((1, 0)));
    assert!(r.slots.is_none());
}

#[test]
fn bound_and_unbound_are_told() {
    let mut n = WirelessNetwork::new(MASTER, 8);
    let mut stranger = record(2, 0);
    stranger[6] = 0;
    let r = n.poll_and_discover(&answer(&[record(1, 0), stranger]), 0).unwrap();
    assert_eq!(r.population, Some((1, 1)));
    assert_eq!(n.devices[1].list_index, 1);
}

#[test]
fn lost_fans_are_not_believed() {
    let mut n = WirelessNetwork::new(MASTER, 8);
    n.poll_and_discover(&answer(&[record(1, 0)]), 0).unwrap();
    let mut r = record(1, 0);
    r[19] = 0;
    r[24..28].copy_from_slice(&[0; 4]);
    n.poll_and_discover(&answer(&[r]), 1).unwrap();
    assert_eq!(n.devices[0].fan_count, 2);
}

#[test]
fn impossible_slot_is_not_believed() {
    let mut n = WirelessNetwork::new(MASTER, 8);
    let mut r = record(1, 0);
    r[13] = 202;
    n.poll_and_discover(&answer(&[r.clone()]), 0).unwrap();
    assert_eq!(n.devices.len(), 0);
    n.poll_and_discover(&answer(&[record(1, 0)]), 1).unwrap();
    n.poll_and_discover(&answer(&[r.clone()]), 2).unwrap();
    n.poll_and_discover(&answer(&[r]), 3).unwrap();
    assert_eq!(n.devices[0].rx_type, 1);
    let mut edge = record(2, 0);
    edge[13] = 14;
    n.poll_and_discover(&answer(&[record(1, 0), edge]), 4).unwrap();
    assert_eq!(n.devices.len(), 2);
}

#[test]
fn stray_channel_is_not_believed() {
    let mut n = WirelessNetwork::new(MASTER, 8);
    n.poll_and_discover(&answer(&[record(1, 0), record(2, 0)]), 0).unwrap();
    let mut r = record(2, 0);
    r[12] = 40;
    for now in 1..4 {
        n.poll_and_discover(&answer(&[record(1, 0), r.clone()]), now).unwrap();
        assert_eq!(n.master_channel, 8);
        assert_eq!(n.devices[1].channel, 8);
    }
}

#[test]
fn move_is_believed_the_second_time() {
    let mut n = WirelessNetwork::new(MASTER, 8);
    n.poll_and_discover(&answer(&[record(1, 0)]), 0).unwrap();
    let mut r = record(1, 0);
    r[13] = 3;
    n.poll_and_discover(&answer(&[r.clone()]), 1).unwrap();
    assert_eq!(n.devices[0].rx_type, 1);
    let report = n.poll_and_discover(&answer(&[r.clone()]), 2).unwrap();
    assert_eq!(n.devices[0].rx_type, 3);
    let slots = report.slots.unwrap();
    assert_eq!(slots.assignment, vec![([1, 2, 3, 4, 5, 0x6f], 3)]);
    assert!(!slots.shared);
    assert_eq!(report.population, None);
    assert!(!n.pending_addr.contains_key(&[1, 2, 3, 4, 5, 0x6f]));
}

#[test]
fn glitch_is_forgotten() {
    let mut n = WirelessNetwork::new(MASTER, 8);
    let mut r = record(1, 0);
    r[13] = 3;
    for rec in [record(1, 0), r.clone(), record(1, 0), r] {
        n.poll_and_discover(&answer(&[rec]), 0).unwrap();
        assert_eq!(n.devices[0].rx_type, 1);
    }
}

#[test]
fn network_moves_together() {
    let mut n = WirelessNetwork::new(MASTER, 8);
    n.poll_and_discover(&answer(&[record(1, 0), record(2, 0)]), 0).unwrap();
    let moved: Vec<Vec<u8>> = [1, 2]
        .iter()
        .map(|i| {
            let mut r = record(*i, 0);
            r[12] = 2;
            r
        })
        .collect();
    n.poll_and_discover(&answer(&moved), 1).unwrap();
    assert_eq!(n.master_channel, 2);
    assert_eq!(n.devices[0].channel, 8);
    n.poll_and_discover(&answer(&moved), 2).unwrap();
    assert_eq!(n.devices[0].channel, 2);
    assert_eq!(n.devices[1].channel, 2);
}

#[test]
fn dongle_record_sets_the_channel() {
    let mut n = WirelessNetwork::new(MASTER, 8);
    let mut own = record(0, 0xff);
    own[..6].copy_from_slice(&MASTER);
    own[12] = 5;
    n.poll_and_discover(&answer(&[own.clone()]), 0).unwrap();
    assert_eq!(n.master_channel, 5);
    assert_eq!(n.devices.len(), 0);
    own[12] = 0;
    n.poll_and_discover(&answer(&[own.clone()]), 0).unwrap();
    assert_eq!(n.master_channel, 5);
    own[12] = 6;
    own[0] = 1;
    n.poll_and_discover(&answer(&[own]), 0).unwrap();
    assert_eq!(n.master_channel, 5);
}

#[test]
fn limbo_is_followed_and_left() {
    let mac = [1, 2, 3, 4, 5, 0x6f];
    let mut n = WirelessNetwork::new(MASTER, 8);
    n.poll_and_discover(&answer(&[record(1, 0), record(2, 0)]), 0).unwrap();
    let mut r = record(1, 0);
    r[12] = 0;
    r[13] = 99;
    n.poll_and_discover(&answer(&[r.clone(), record(2, 0)]), 10).unwrap();
    n.poll_and_discover(&answer(&[r, record(2, 0)]), 20).unwrap();
    assert_eq!(n.devices[0].channel, 0);
    assert_eq!(n.devices[0].rx_type, 99);
    assert_eq!(n.limbo_since.get(&mac), Some(&10));
    n.poll_and_discover(&answer(&[record(1, 0), record(2, 0)]), 30).unwrap();
    assert!(!n.limbo_since.contains_key(&mac));
    assert_eq!(n.devices[0].channel, 0);
    n.poll_and_discover(&answer(&[record(1, 0), record(2, 0)]), 40).unwrap();
    assert_eq!(n.devices[0].channel, 8);
    assert_eq!(n.devices[0].rx_type, 1);
}

#[test]
fn slots_are_sorted_and_compared() {
    let mut a = parse(&record(9, 0));
    a.rx_type = 2;
    let b = parse(&record(1, 0));
    let mut c = parse(&record(5, 0));
    c.master_mac = [0; 6];
    let x = sorted_slots(&vec![a, b, c], &MASTER);
    let y = sorted_slots(&vec![b, a], &MASTER);
    assert_eq!(x, vec![([1, 2, 3, 4, 5, 0x6f], 1), ([9, 2, 3, 4, 5, 0x6f], 2)]);
    assert!(!slots_differ(&x, &y));
    assert!(!any_slot_shared(&x));
    a.rx_type = 1;
    let z = sorted_slots(&vec![a, b], &MASTER);
    assert!(slots_differ(&x, &z));
    assert!(any_slot_shared(&z));
}

#[test]
fn corrupt_double_of_a_record_does_not_hinder_a_move() {
    let mut n = WirelessNetwork::new(MASTER, 8);
    n.poll_and_discover(&answer(&[record(1, 0)]), 0).unwrap();
    let mut moved = record(1, 0);
    moved[13] = 3;
    let mut broken = record(1, 0);
    broken[13] = 202;
    n.poll_and_discover(&answer(&[moved.clone(), broken.clone()]), 1).unwrap();
    assert!(n.devices.iter().all(|d| d.rx_type == 1));
    assert_eq!(n.pending_addr.get(&[1, 2, 3, 4, 5, 0x6f]), Some(&(3, 8)));
    n.poll_and_discover(&answer(&[moved, broken]), 2).unwrap();
    assert_eq!(n.devices[0].rx_type, 3);
    assert!(!n.pending_addr.contains_key(&[1, 2, 3, 4, 5, 0x6f]));
}

#[test]
fn list_follows_the_records() {
    let mut n = WirelessNetwork::new(MASTER, 8);
    n.poll_and_discover(&answer(&[record(1, 0), record(2, 0), record(3, 0)]), 0).unwrap();
    let mut bad = record(3, 0);
    bad[13] = 99;
    let mut nonsense = record(9, 0);
    nonsense[13] = 99;
    let mut fresh = record(1, 0);
    fresh[40] = 5;
    n.poll_and_discover(&answer(&[bad, nonsense, record(4, 0), fresh]), 1).unwrap();
    let ids: Vec<u8> = n.devices.iter().map(|d| d.mac[0]).collect();
    assert_eq!(ids, vec![3, 4, 1]);
    assert_eq!(n.devices[0].rx_type, 1);
    assert_eq!(n.devices[0].list_index, 2);
    assert_eq!(n.devices[2].cmd_seq, 5);
    n.poll_and_discover(&[0x10, 0, 30, 90], 2).unwrap();
    assert_eq!(n.devices.len(), 3);
}

#[test]
fn channel_changes_are_told() {
    let mut n = WirelessNetwork::new(MASTER, 8);
    let mut own = record(0, 0xff);
    own[..6].copy_from_slice(&MASTER);
    own[12] = 5;
    let r = n.poll_and_discover(&answer(&[own.clone(), record(1, 0)]), 0).unwrap();
    assert_eq!(r.announced, Some(5));
    assert_eq!(r.moved, Some(8));
    own[12] = 8;
    let r = n.poll_and_discover(&answer(&[own.clone(), record(1, 0)]), 1).unwrap();
    assert_eq!((r.announced, r.moved), (None, None));
    own[12] = 6;
    let r = n.poll_and_discover(&answer(&[own]), 2).unwrap();
    assert_eq!((r.announced, r.moved), (Some(6), None));
    let r = n.poll_and_discover(&[0x10, 0, 0, 0], 3).unwrap();
    assert_eq!((r.announced, r.moved), (None, None));
}
