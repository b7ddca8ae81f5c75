//! Device records, as the receiver dongle reports them.

use vstd::prelude::*;
use crate::fan_type::WirelessFanType;
use crate::mac::{mac_string, mac_text};
use crate::text::{dec, push_dec};

verus! {

/// The length of a device record.
pub const RECORD_LEN: usize = 42;

/// The byte that ends a valid record.
pub const RECORD_MARKER: u8 = 0x1C;

/// The device type of the dongle itself.
pub const MASTER_DEVICE_TYPE: u8 = 0xFF;

/// A wireless device, from its record.
#[derive(Debug, Clone, Copy)]
pub struct DiscoveredDevice {
    pub mac: [u8; 6],
    pub master_mac: [u8; 6],
    pub channel: u8,
    pub rx_type: u8,
    pub device_type: u8,
    pub fan_count: u8,
    /// The type byte of each fan slot; zero where the slot is empty.
    pub fan_types: [u8; 4],
    pub fan_rpms: [u16; 4],
    pub current_pwm: [u8; 4],
    pub cmd_seq: u8,
    pub fan_type: WirelessFanType,
    pub list_index: u8,
    /// Coolant temperature in degrees Celsius, where there is a pump.
    pub coolant_temp_c: Option<u8>,
    /// The mark of the lighting that the device shows.
    pub effect_index: [u8; 4],
}

/// Whether a record describes a device: it is complete, it ends with the
/// marker, and it is not that of the dongle itself.
pub open spec fn is_device_record(data: Seq<u8>) -> bool {
    &&& data.len() >= RECORD_LEN
    &&& data[41] == RECORD_MARKER
    &&& data[18] != MASTER_DEVICE_TYPE
}

/// Two bytes as a number, the high one first.
pub open spec fn be16(hi: u8, lo: u8) -> u16 {
    (hi * 256 + lo) as u16
}

/// Whether the device type is that of a liquid cooler.
pub open spec fn is_cooler_type(device_type: u8) -> bool {
    device_type == 10 || device_type == 11
}

/// The type bytes of the fan slots. A liquid cooler has three: where other
/// devices have the fourth, it reports the temperature of its coolant.
pub open spec fn slot_bytes(data: Seq<u8>) -> [u8; 4] {
    [
        data[24],
        data[25],
        data[26],
        if is_cooler_type(data[18]) {
            0u8
        } else {
            data[27]
        },
    ]
}

pub open spec fn occupied(b: u8) -> nat {
    if b != 0 {
        1
    } else {
        0
    }
}

/// How many fan slots are occupied.
pub open spec fn occupied_slots(slots: [u8; 4]) -> nat {
    occupied(slots[0]) + occupied(slots[1]) + occupied(slots[2]) + occupied(slots[3])
}

/// The number of fans: the occupied slots, or, where none shows, the number
/// that the record gives, of which most banks report four whatever they have.
pub open spec fn record_fan_count(data: Seq<u8>) -> u8 {
    if occupied_slots(slot_bytes(data)) > 0 {
        occupied_slots(slot_bytes(data)) as u8
    } else if data[19] < 4 {
        data[19]
    } else {
        4
    }
}

/// The kind of a bank, from its first occupied slot.
pub open spec fn bank_kind(slots: [u8; 4]) -> WirelessFanType {
    if slots[0] != 0 {
        WirelessFanType::Fan(slots[0])
    } else if slots[1] != 0 {
        WirelessFanType::Fan(slots[1])
    } else if slots[2] != 0 {
        WirelessFanType::Fan(slots[2])
    } else if slots[3] != 0 {
        WirelessFanType::Fan(slots[3])
    } else {
        WirelessFanType::Unknown
    }
}

/// What a device is: its type tells, or, for a fan bank, its slots.
pub open spec fn record_kind(data: Seq<u8>) -> WirelessFanType {
    let t = data[18];
    if t == 10 {
        WirelessFanType::WaterBlock
    } else if t == 11 {
        WirelessFanType::WaterBlock2
    } else if 1 <= t <= 9 {
        WirelessFanType::Strimer(t)
    } else if t == 65 {
        WirelessFanType::Lc217
    } else if t == 66 {
        WirelessFanType::V150
    } else if t == 88 {
        WirelessFanType::Led88
    } else {
        bank_kind(slot_bytes(data))
    }
}

/// The device that a record describes.
pub open spec fn record_device(data: Seq<u8>, list_index: u8) -> DiscoveredDevice {
    DiscoveredDevice {
        mac: [data[0], data[1], data[2], data[3], data[4], data[5]],
        master_mac: [data[6], data[7], data[8], data[9], data[10], data[11]],
        channel: data[12],
        rx_type: data[13],
        device_type: data[18],
        fan_count: record_fan_count(data),
        fan_types: slot_bytes(data),
        fan_rpms: [
            be16(data[28], data[29]),
            be16(data[30], data[31]),
            be16(data[32], data[33]),
            be16(data[34], data[35]),
        ],
        current_pwm: [data[36], data[37], data[38], data[39]],
        cmd_seq: data[40],
        fan_type: record_kind(data),
        list_index,
        coolant_temp_c: if record_kind(data).spec_is_aio() && data[27] > 0 {
            Some(data[27])
        } else {
            None
        },
        effect_index: [data[20], data[21], data[22], data[23]],
    }
}

fn be16_of(hi: u8, lo: u8) -> (r: u16)
    ensures
        r == be16(hi, lo),
{
    hi as u16 * 256 + lo as u16
}

fn occupied_of(b: u8) -> (r: u8)
    ensures
        r == occupied(b),
{
    if b != 0 {
        1
    } else {
        0
    }
}

/// Reads a device record.
///
/// | bytes  | content                                                     |
/// |--------|-------------------------------------------------------------|
/// | 0-5    | address of the device                                       |
/// | 6-11   | address of the dongle that it is bound to                   |
/// | 12     | radio channel                                               |
/// | 13     | receiver slot                                               |
/// | 14-17  | clock of the device                                         |
/// | 18     | device type                                                 |
/// | 19     | number of fans                                              |
/// | 20-23  | mark of the lighting                                        |
/// | 24-27  | fan slots; 27 is the coolant temperature of a liquid cooler |
/// | 28-35  | four fan speeds, high byte first                            |
/// | 36-39  | four duty cycles                                            |
/// | 40     | command counter                                             |
/// | 41     | marker                                                      |
pub fn parse_device_record(data: &[u8], list_index: u8) -> (r: Option<DiscoveredDevice>)
    ensures
        r is Some <==> is_device_record(data@),
        r matches Some(d) ==> d == record_device(data@, list_index),
{
    if data.len() < RECORD_LEN {
        return None;
    }
    if data[41] != RECORD_MARKER {
        return None;
    }
    let device_type: u8 = data[18];
    if device_type == MASTER_DEVICE_TYPE {
        return None;
    }
    let cooler = device_type == 10 || device_type == 11;
    let fan_types: [u8; 4] = [
        data[24],
        data[25],
        data[26],
        if cooler {
            0
        } else {
            data[27]
        },
    ];
    proof {
        assert(fan_types =~= slot_bytes(data@));
    }
    let detected: u8 = occupied_of(fan_types[0]) + occupied_of(fan_types[1]) + occupied_of(
        fan_types[2],
    ) + occupied_of(fan_types[3]);
    let fan_count: u8 = if detected > 0 {
        detected
    } else if data[19] < 4 {
        data[19]
    } else {
        4
    };
    let fan_type = match device_type {
        10 => WirelessFanType::WaterBlock,
        11 => WirelessFanType::WaterBlock2,
        1..=9 => WirelessFanType::Strimer(device_type),
        65 => WirelessFanType::Lc217,
        66 => WirelessFanType::V150,
        88 => WirelessFanType::Led88,
        _ => {
            if fan_types[0] != 0 {
                WirelessFanType::from_fan_type_byte(fan_types[0])
            } else if fan_types[1] != 0 {
                WirelessFanType::from_fan_type_byte(fan_types[1])
            } else if fan_types[2] != 0 {
                WirelessFanType::from_fan_type_byte(fan_types[2])
            } else if fan_types[3] != 0 {
                WirelessFanType::from_fan_type_byte(fan_types[3])
            } else {
                WirelessFanType::Unknown
            }
        },
    };
    let coolant_temp_c: Option<u8> = if fan_type.is_aio() && data[27] > 0 {
        Some(data[27])
    } else {
        None
    };
    let d = DiscoveredDevice {
        mac: [data[0], data[1], data[2], data[3], data[4], data[5]],
        master_mac: [data[6], data[7], data[8], data[9], data[10], data[11]],
        channel: data[12],
        rx_type: data[13],
        device_type,
        fan_count,
        fan_types,
        fan_rpms: [
            be16_of(data[28], data[29]),
            be16_of(data[30], data[31]),
            be16_of(data[32], data[33]),
            be16_of(data[34], data[35]),
        ],
        current_pwm: [data[36], data[37], data[38], data[39]],
        cmd_seq: data[40],
        fan_type,
        list_index,
        coolant_temp_c,
        effect_index: [data[20], data[21], data[22], data[23]],
    };
    proof {
        let w = record_device(data@, list_index);
        assert(d.mac =~= w.mac);
        assert(d.master_mac =~= w.master_mac);
        assert(d.fan_rpms =~= w.fan_rpms);
        assert(d.current_pwm =~= w.current_pwm);
        assert(d.effect_index =~= w.effect_index);
    }
    Some(d)
}

impl DiscoveredDevice {
    /// The address of the device as text.
    pub fn mac_str(&self) -> (s: String)
        ensures
            s@ == mac_text(self.mac),
    {
        mac_string(&self.mac)
    }

    /// Whether the device is a liquid cooler.
    pub fn is_aio(&self) -> (r: bool)
        ensures
            r == self.fan_type.spec_is_aio(),
    {
        self.fan_type.is_aio()
    }

    pub open spec fn spec_pump_rpm(&self) -> Option<u16> {
        if self.fan_type.spec_is_aio() {
            Some(self.fan_rpms[3])
        } else {
            None
        }
    }

    /// The speed of the pump, which takes the last of the four speeds.
    pub fn pump_rpm(&self) -> (r: Option<u16>)
        ensures
            r == self.spec_pump_rpm(),
    {
        if self.is_aio() {
            Some(self.fan_rpms[3])
        } else {
            None
        }
    }

    /// The temperature of the coolant, as part of a description.
    pub open spec fn coolant_text(&self) -> Seq<char> {
        match self.coolant_temp_c {
            Some(t) => ", coolant="@ + dec(t as nat) + "°C"@,
            None => Seq::empty(),
        }
    }

    /// The device in one line.
    pub open spec fn description(&self) -> Seq<char> {
        mac_text(self.mac) + " ("@ + self.fan_type.spec_label() + ", "@ + dec(
            self.fan_count as nat,
        ) + " fans"@ + (if self.fan_type.spec_is_aio() {
            ", pump="@ + dec(self.fan_rpms[3] as nat) + "rpm"@ + self.coolant_text()
        } else {
            Seq::empty()
        }) + ", ch="@ + dec(self.channel as nat) + ", rx="@ + dec(self.rx_type as nat) + ")"@
    }

    /// The device in one line.
    pub fn describe(&self) -> (s: String)
        ensures
            s@ == self.description(),
    {
        let mut s = self.mac_str();
        s.append(" (");
        let label = self.fan_type.label();
        s.append(label.as_str());
        s.append(", ");
        push_dec(&mut s, self.fan_count as u64);
        s.append(" fans");
        let ghost head = s@;
        if self.is_aio() {
            s.append(", pump=");
            push_dec(&mut s, self.fan_rpms[3] as u64);
            s.append("rpm");
            let ghost pumped = s@;
            if let Some(t) = self.coolant_temp_c {
                s.append(", coolant=");
                push_dec(&mut s, t as u64);
                s.append("°C");
            }
            proof {
                assert(s@ =~= pumped + self.coolant_text());
                assert(s@ =~= head + (", pump="@ + dec(self.fan_rpms[3] as nat) + "rpm"@
                    + self.coolant_text()));
            }
        } else {
            proof {
                assert(s@ =~= head + Seq::empty());
            }
        }
        s.append(", ch=");
        push_dec(&mut s, self.channel as u64);
        s.append(", rx=");
        push_dec(&mut s, self.rx_type as u64);
        s.append(")");
        s
    }
}

/// Whatever a record says, the device has at most four fans, and three where
/// it is a liquid cooler with a slot to show for them; only a liquid cooler
/// reports a coolant temperature, and that is never zero.
pub proof fn law_record_device(data: Seq<u8>, list_index: u8)
    requires
        is_device_record(data),
    ensures
        record_device(data, list_index).fan_count <= 4,
        record_device(data, list_index).coolant_temp_c matches Some(t) ==> {
            &&& record_device(data, list_index).fan_type.spec_is_aio()
            &&& t > 0
        },
        record_device(data, list_index).fan_type.spec_is_aio() <==> is_cooler_type(data[18]),
        is_cooler_type(data[18]) && occupied_slots(slot_bytes(data)) > 0 ==> record_device(
            data,
            list_index,
        ).fan_count <= 3,
{
    let s = slot_bytes(data);
    assert(is_cooler_type(data[18]) ==> s[3] == 0);
}

} // verus!
