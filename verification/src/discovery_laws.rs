//! What each byte of a device record means.

use vstd::prelude::*;
use crate::discovery::{is_device_record, record_device};
use crate::fan_type::WirelessFanType;

verus! {

/// A record is one of a device exactly if it has all 42 bytes, ends with the
/// marker, and is not that of the dongle.
pub proof fn law_which_records_are_devices(data: Seq<u8>)
    ensures
        is_device_record(data) <==> data.len() >= 42 && data[41] == 0x1C && data[18] != 0xFF,
{
}

/// Addresses, channel, slot, type, lighting mark, duty cycles and counter are
/// the bytes at their places, and the list index is the one given.
pub proof fn law_record_bytes(data: Seq<u8>, list_index: u8, i: int)
    ensures
        ({
            let d = record_device(data, list_index);
            &&& 0 <= i < 6 ==> d.mac[i] == data[i]
            &&& 0 <= i < 6 ==> d.master_mac[i] == data[6 + i]
            &&& d.channel == data[12]
            &&& d.rx_type == data[13]
            &&& d.device_type == data[18]
            &&& 0 <= i < 4 ==> d.effect_index[i] == data[20 + i]
            &&& 0 <= i < 4 ==> d.current_pwm[i] == data[36 + i]
            &&& d.cmd_seq == data[40]
            &&& d.list_index == list_index
        }),
{
}

/// A fan speed is a number of two bytes, the high one first.
pub proof fn law_record_speeds(data: Seq<u8>, list_index: u8, i: int)
    requires
        0 <= i < 4,
    ensures
        record_device(data, list_index).fan_rpms[i] / 256 == data[28 + 2 * i],
        record_device(data, list_index).fan_rpms[i] % 256 == data[29 + 2 * i],
{
}

/// The fourth slot of a liquid cooler is its coolant temperature, and nothing
/// else has one.
pub proof fn law_record_slots(data: Seq<u8>, list_index: u8, i: int)
    requires
        0 <= i < 4,
    ensures
        ({
            let d = record_device(data, list_index);
            let cooler = data[18] == 10 || data[18] == 11;
            &&& i < 3 || !cooler ==> d.fan_types[i] == data[24 + i]
            &&& cooler ==> d.fan_types[3] == 0
            &&& d.coolant_temp_c is Some <==> cooler && data[27] != 0
            &&& d.coolant_temp_c is Some ==> d.coolant_temp_c == Some(data[27])
        }),
{
}

/// A device has as many fans as it shows slots that are not empty. Where it
/// shows none, it has as many as it says, up to four.
pub proof fn law_record_fans(data: Seq<u8>, list_index: u8)
    ensures
        ({
            let d = record_device(data, list_index);
            let shown = Set::new(|i: int| 0 <= i < 4 && d.fan_types[i] != 0);
            &&& shown.len() > 0 ==> d.fan_count == shown.len()
            &&& shown.len() == 0 && data[19] <= 4 ==> d.fan_count == data[19]
            &&& shown.len() == 0 && data[19] > 4 ==> d.fan_count == 4
        }),
{
    let d = record_device(data, list_index);
    let shown = Set::new(|i: int| 0 <= i < 4 && d.fan_types[i] != 0);
    let s0 = Set::<int>::empty();
    let s1 = if d.fan_types[0] != 0 {
        s0.insert(0)
    } else {
        s0
    };
    let s2 = if d.fan_types[1] != 0 {
        s1.insert(1)
    } else {
        s1
    };
    let s3 = if d.fan_types[2] != 0 {
        s2.insert(2)
    } else {
        s2
    };
    let s4 = if d.fan_types[3] != 0 {
        s3.insert(3)
    } else {
        s3
    };
    assert(shown =~= s4);
}

/// The type byte tells what a device is. A fan bank is of the kind of its
/// first slot that is not empty.
pub proof fn law_record_kind(data: Seq<u8>, list_index: u8, i: int)
    ensures
        ({
            let d = record_device(data, list_index);
            let t = data[18];
            let fans = t == 0 || 11 < t < 65 || 66 < t < 88 || 88 < t;
            &&& t == 10 <==> d.fan_type == WirelessFanType::WaterBlock
            &&& t == 11 <==> d.fan_type == WirelessFanType::WaterBlock2
            &&& 1 <= t <= 9 <==> d.fan_type is Strimer
            &&& 1 <= t <= 9 ==> d.fan_type == WirelessFanType::Strimer(t)
            &&& t == 65 <==> d.fan_type == WirelessFanType::Lc217
            &&& t == 66 <==> d.fan_type == WirelessFanType::V150
            &&& t == 88 <==> d.fan_type == WirelessFanType::Led88
            &&& fans && 0 <= i < 4 && data[24 + i] != 0 && (forall|j: int|
                0 <= j < i ==> #[trigger] data[24 + j] == 0) ==> d.fan_type
                == WirelessFanType::Fan(data[24 + i])
            &&& fans && data[24] == 0 && data[25] == 0 && data[26] == 0 && data[27] == 0
                ==> d.fan_type == WirelessFanType::Unknown
        }),
{
    if 0 <= i < 4 && (forall|j: int| 0 <= j < i ==> #[trigger] data[24 + j] == 0) {
        assert(i > 0 ==> data[24 + 0int] == 0);
        assert(i > 1 ==> data[24 + 1int] == 0);
        assert(i > 2 ==> data[24 + 2int] == 0);
    }
}

/// Exactly the two pump heads are liquid coolers.
pub proof fn law_which_are_coolers(t: WirelessFanType)
    ensures
        t.spec_is_aio() <==> t == WirelessFanType::WaterBlock || t == WirelessFanType::WaterBlock2,
{
}

/// The record of a liquid cooler tells the speed of its pump in bytes 34 and
/// 35, the high one first; no other device has a pump.
pub proof fn law_pump_speed(data: Seq<u8>, list_index: u8)
    ensures
        data[18] == 10 || data[18] == 11 ==> {
            &&& record_device(data, list_index).spec_pump_rpm() is Some
            &&& record_device(data, list_index).spec_pump_rpm()->0 == 256 * data[34] + data[35]
        },
        data[18] != 10 && data[18] != 11 ==> record_device(data, list_index).spec_pump_rpm() is None,
{
}

} // verus!
