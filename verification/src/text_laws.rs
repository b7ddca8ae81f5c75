//! What names and messages say.

use vstd::prelude::*;
use crate::action::ErrorView;
use crate::discovery::DiscoveredDevice;
use crate::fan_type::WirelessFanType;
use crate::mac::{bank_id, mac_text};
use crate::text::{dec, digit};

verus! {

/// The number that a text of decimal digits stands for.
pub open spec fn value_of(s: Seq<char>) -> int
    decreases s.len(),
{
    if s.len() == 0 {
        0
    } else {
        10 * value_of(s.drop_last()) + (s.last() as int - '0' as int)
    }
}

/// Digits count up from the zero, and from the small a after the nine.
pub proof fn law_digits(d: int)
    ensures
        0 <= d < 10 ==> digit(d) as int == '0' as int + d,
        10 <= d < 16 ==> digit(d) as int == 'a' as int + d - 10,
{
}

/// A number in decimal is made of decimal digits, stands for that number, and
/// has no leading zero.
pub proof fn law_decimal(n: nat)
    ensures
        dec(n).len() > 0,
        value_of(dec(n)) == n,
        forall|i: int| 0 <= i < dec(n).len() ==> '0' <= #[trigger] dec(n)[i] <= '9',
        n >= 10 ==> dec(n)[0] != '0',
        n < 10 ==> dec(n).len() == 1,
    decreases n,
{
    if n < 10 {
        assert(dec(n).drop_last() =~= Seq::empty());
        assert(value_of(dec(n).drop_last()) == 0);
    } else {
        law_decimal(n / 10);
        assert(dec(n).drop_last() =~= dec(n / 10));
        assert(dec(n)[0] == dec(n / 10)[0]);
        if n / 10 < 10 {
            assert(dec(n / 10)[0] == digit((n / 10) as int));
        }
        assert forall|i: int| 0 <= i < dec(n).len() implies '0' <= #[trigger] dec(n)[i] <= '9' by {
            if i < dec(n).len() - 1 {
                assert(dec(n)[i] == dec(n / 10)[i]);
            }
        }
    }
}

/// Byte `i` of an address is written as its high and its low digit at places
/// `3 * i` and `3 * i + 1`, and a colon comes between any two.
pub proof fn law_address_text(mac: [u8; 6], i: int)
    requires
        0 <= i < 6,
    ensures
        mac_text(mac).len() == 17,
        mac_text(mac)[3 * i] == digit(mac[i] as int / 16),
        mac_text(mac)[3 * i + 1] == digit(mac[i] as int % 16),
        i < 5 ==> mac_text(mac)[3 * i + 2] == ':',
{
    reveal_strlit(":");
}

/// A bank goes by its address after a fixed word.
pub proof fn law_bank_name(mac: [u8; 6])
    ensures
        bank_id(mac) == "wireless:"@ + mac_text(mac),
{
}

/// What an error says.
pub proof fn law_messages(
    id: Seq<char>,
    zone: u8,
    total_zones: nat,
    fan_type: WirelessFanType,
    fan_count: u8,
)
    ensures
        (ErrorView::DeviceNotFound { device_id: id }).message() == "RGB device not found: "@ + id,
        (ErrorView::SyncUnsupported { device_id: id }).message() == "Device "@ + id
            + " does not support MB RGB sync"@,
        (ErrorView::DirectionUnsupported { device_id: id }).message() == "Device "@ + id
            + " does not support fan direction"@,
        (ErrorView::ZoneOutOfRange { zone, total_zones, fan_type, fan_count }).message() == "Zone "@
            + dec(zone as nat) + " out of range (device has "@ + dec(total_zones)
            + " zones, fan_type="@ + fan_type.spec_label() + ", fan_count="@ + dec(
            fan_count as nat,
        ) + ")"@,
{
}

/// The labels of the kinds of device.
pub proof fn law_labels(n: u8)
    ensures
        WirelessFanType::Fan(n).spec_label() == "Fan("@ + dec(n as nat) + ")"@,
        WirelessFanType::Strimer(n).spec_label() == "Strimer("@ + dec(n as nat) + ")"@,
        WirelessFanType::WaterBlock.spec_label() == "WaterBlock"@,
        WirelessFanType::WaterBlock2.spec_label() == "WaterBlock2"@,
        WirelessFanType::Lc217.spec_label() == "Lc217"@,
        WirelessFanType::V150.spec_label() == "V150"@,
        WirelessFanType::Led88.spec_label() == "Led88"@,
        WirelessFanType::Unknown.spec_label() == "Unknown"@,
{
}

/// What a device is described by: its address, kind, fans, channel and slot,
/// and for a liquid cooler the speed of its pump and, where it is known, the
/// temperature of its coolant.
pub proof fn law_description(d: DiscoveredDevice)
    ensures
        ({
            let head = mac_text(d.mac) + " ("@ + d.fan_type.spec_label() + ", "@ + dec(
                d.fan_count as nat,
            ) + " fans"@;
            let cooler = d.fan_type == WirelessFanType::WaterBlock || d.fan_type
                == WirelessFanType::WaterBlock2;
            let pump = ", pump="@ + dec(d.fan_rpms[3] as nat) + "rpm"@;
            let tail = ", ch="@ + dec(d.channel as nat) + ", rx="@ + dec(d.rx_type as nat) + ")"@;
            &&& !cooler ==> d.description() == head + tail
            &&& cooler && d.coolant_temp_c is None ==> d.description() == head + pump + tail
            &&& cooler ==> (d.coolant_temp_c matches Some(t) ==> d.description() == head + pump
                + ", coolant="@ + dec(t as nat) + "°C"@ + tail)
        }),
{
    let head = mac_text(d.mac) + " ("@ + d.fan_type.spec_label() + ", "@ + dec(d.fan_count as nat)
        + " fans"@;
    let pump = ", pump="@ + dec(d.fan_rpms[3] as nat) + "rpm"@;
    let tail = ", ch="@ + dec(d.channel as nat) + ", rx="@ + dec(d.rx_type as nat) + ")"@;
    if d.fan_type.spec_is_aio() {
        match d.coolant_temp_c {
            Some(t) => {
                assert(d.description() =~= head + pump + ", coolant="@ + dec(t as nat) + "°C"@
                    + tail);
            },
            None => {
                assert(d.description() =~= head + pump + tail);
            },
        }
    } else {
        assert(d.description() =~= head + tail);
    }
}

} // verus!
