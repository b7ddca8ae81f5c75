//! The kinds of wireless device, and how the LEDs of each are laid out.

use vstd::prelude::*;
use crate::text::{push_dec, dec};

verus! {

/// What a wireless device is.
#[derive(Debug, Clone, Copy, PartialEq, Eq, Structural)]
pub enum WirelessFanType {
    /// A fan bank, with the type byte of its first occupied slot.
    Fan(u8),
    /// Pump head of the first generation.
    WaterBlock,
    /// Pump head of the second generation.
    WaterBlock2,
    /// LED cable, with its device type.
    Strimer(u8),
    /// Case with an LED ring.
    Lc217,
    /// Case with an LED strip.
    V150,
    /// Screen with a ring of 88 LEDs.
    Led88,
    /// A bank that shows no occupied slot.
    Unknown,
}

impl WirelessFanType {
    pub open spec fn spec_is_aio(&self) -> bool {
        self is WaterBlock || self is WaterBlock2
    }

    /// Whether the device is a liquid cooler: a pump head with its fans.
    pub fn is_aio(&self) -> (r: bool)
        ensures
            r == self.spec_is_aio(),
    {
        match self {
            WirelessFanType::WaterBlock => true,
            WirelessFanType::WaterBlock2 => true,
            _ => false,
        }
    }

    /// The fan bank whose first occupied slot holds `byte`.
    pub fn from_fan_type_byte(byte: u8) -> (r: Self)
        ensures
            r == WirelessFanType::Fan(byte),
    {
        WirelessFanType::Fan(byte)
    }

    /// The name of the kind, as a log line shows it.
    pub open spec fn spec_label(&self) -> Seq<char> {
        match self {
            WirelessFanType::Fan(b) => "Fan("@ + dec(*b as nat) + ")"@,
            WirelessFanType::WaterBlock => "WaterBlock"@,
            WirelessFanType::WaterBlock2 => "WaterBlock2"@,
            WirelessFanType::Strimer(n) => "Strimer("@ + dec(*n as nat) + ")"@,
            WirelessFanType::Lc217 => "Lc217"@,
            WirelessFanType::V150 => "V150"@,
            WirelessFanType::Led88 => "Led88"@,
            WirelessFanType::Unknown => "Unknown"@,
        }
    }

    pub fn label(&self) -> (s: String)
        ensures
            s@ == self.spec_label(),
    {
        match self {
            WirelessFanType::Fan(b) => {
                let mut s = "Fan(".to_owned();
                push_dec(&mut s, *b as u64);
                s.append(")");
                s
            },
            WirelessFanType::WaterBlock => "WaterBlock".to_owned(),
            WirelessFanType::WaterBlock2 => "WaterBlock2".to_owned(),
            WirelessFanType::Strimer(n) => {
                let mut s = "Strimer(".to_owned();
                push_dec(&mut s, *n as u64);
                s.append(")");
                s
            },
            WirelessFanType::Lc217 => "Lc217".to_owned(),
            WirelessFanType::V150 => "V150".to_owned(),
            WirelessFanType::Led88 => "Led88".to_owned(),
            WirelessFanType::Unknown => "Unknown".to_owned(),
        }
    }
}

/// One separately lit part of a fan.
#[derive(Debug)]
pub struct SubZone {
    pub name: String,
    pub led_count: u8,
}

/// What the lighting code needs to know of a kind of device.
#[derive(Debug)]
pub struct FanProfile {
    pub fan_type: WirelessFanType,
    pub display_name: String,
    pub leds_per_fan: u8,
    /// LEDs of the pump head; these come first in the buffer.
    pub pump_led_count: u8,
    /// Set for a device that is lights only: a case ring, a screen ring, an
    /// LED cable or strip. All of its LEDs form one zone.
    pub total_led_count_override: Option<u16>,
    /// The parts of each fan, in the order of their LEDs.
    pub sub_zones: Vec<SubZone>,
}

/// The mathematical content of a [`SubZone`].
pub struct SubZoneView {
    pub name: Seq<char>,
    pub led_count: nat,
}

/// The mathematical content of a [`FanProfile`].
pub struct Layout {
    pub fan_type: WirelessFanType,
    pub display_name: Seq<char>,
    pub leds_per_fan: nat,
    pub pump_led_count: nat,
    pub total_led_count_override: Option<nat>,
    pub sub_zones: Seq<SubZoneView>,
}

impl View for SubZone {
    type V = SubZoneView;

    open spec fn view(&self) -> SubZoneView {
        SubZoneView { name: self.name@, led_count: self.led_count as nat }
    }
}

impl View for FanProfile {
    type V = Layout;

    open spec fn view(&self) -> Layout {
        Layout {
            fan_type: self.fan_type,
            display_name: self.display_name@,
            leds_per_fan: self.leds_per_fan as nat,
            pump_led_count: self.pump_led_count as nat,
            total_led_count_override: match self.total_led_count_override {
                Some(n) => Some(n as nat),
                None => None,
            },
            sub_zones: self.sub_zones@.map_values(|z: SubZone| z@),
        }
    }
}

impl Clone for SubZone {
    fn clone(&self) -> (r: Self)
        ensures
            r@ == self@,
    {
        SubZone { name: self.name.clone(), led_count: self.led_count }
    }
}

impl Clone for FanProfile {
    fn clone(&self) -> (r: Self)
        ensures
            r@ == self@,
    {
        let r = FanProfile {
            fan_type: self.fan_type,
            display_name: self.display_name.clone(),
            leds_per_fan: self.leds_per_fan,
            pump_led_count: self.pump_led_count,
            total_led_count_override: self.total_led_count_override,
            sub_zones: self.sub_zones.clone(),
        };
        proof {
            assert(r@.sub_zones =~= self@.sub_zones);
        }
        r
    }
}

impl Layout {
    pub open spec fn is_aio(self) -> bool {
        self.fan_type.spec_is_aio()
    }

    /// Whether the device is lights only.
    pub open spec fn is_rgb_only(self) -> bool {
        self.total_led_count_override is Some
    }

    /// How many LEDs the first `k` parts of a fan hold.
    pub open spec fn leds_before(self, k: nat) -> nat
        decreases k,
    {
        if k == 0 {
            0
        } else {
            self.leds_before((k - 1) as nat) + self.sub_zones[k - 1].led_count
        }
    }

    /// A fan has at least one part, no more than a zone index can tell apart,
    /// and its parts fit into its LEDs.
    pub open spec fn wf(self) -> bool {
        &&& self.leds_per_fan <= u8::MAX
        &&& self.pump_led_count <= u8::MAX
        &&& self.total_led_count_override is Some ==> self.total_led_count_override->0 <= u16::MAX
        &&& !self.is_rgb_only() ==> {
            &&& 1 <= self.sub_zones.len() <= u8::MAX
            &&& self.leds_before(self.sub_zones.len()) <= self.leds_per_fan
        }
    }

    /// How many LEDs a device with `fan_count` fans has.
    pub open spec fn total_leds(self, fan_count: nat) -> nat {
        match self.total_led_count_override {
            Some(n) => n,
            None => self.pump_led_count + fan_count * self.leds_per_fan,
        }
    }

    /// How many zones a device with `fan_count` fans has.
    pub open spec fn total_zones(self, fan_count: nat) -> nat {
        if self.is_rgb_only() {
            1
        } else {
            (if self.is_aio() {
                1nat
            } else {
                0nat
            }) + fan_count * self.sub_zones.len()
        }
    }

    /// Where the LEDs of part `part` of fan `fan` begin.
    pub open spec fn part_start(self, fan: int, part: int) -> int {
        (if self.is_aio() {
            self.pump_led_count as int
        } else {
            0
        }) + fan * self.leds_per_fan + self.leds_before(part as nat)
    }

    /// The place of a zone in the LED buffer: its first LED and its length.
    /// A device of lights only is one zone; a liquid cooler has its pump head
    /// as zone zero; the other zones are the parts of the fans, fan by fan.
    pub open spec fn zone_slice(self, fan_count: nat, zone: int) -> Option<(int, int)> {
        if zone < 0 || zone >= self.total_zones(fan_count) {
            None
        } else if self.is_rgb_only() {
            Some((0int, self.total_leds(fan_count) as int))
        } else if self.is_aio() && zone == 0 {
            Some((0int, self.pump_led_count as int))
        } else {
            let k = if self.is_aio() {
                zone - 1
            } else {
                zone
            };
            let fan = k / self.sub_zones.len() as int;
            let part = k % self.sub_zones.len() as int;
            Some((self.part_start(fan, part), self.sub_zones[part].led_count as int))
        }
    }

    /// Whether LED `p` is one of zone `zone`.
    pub open spec fn in_zone(self, fan_count: nat, zone: int, p: int) -> bool {
        match self.zone_slice(fan_count, zone) {
            Some((start, len)) => start <= p < start + len,
            None => false,
        }
    }
}

impl FanProfile {
    /// Whether the profile lays out LEDs in a way that a bank can have.
    pub fn is_valid(&self) -> (r: bool)
        ensures
            r == self@.wf(),
    {
        if self.total_led_count_override.is_some() {
            return true;
        }
        if self.sub_zones.len() == 0 || self.sub_zones.len() > 255 {
            return false;
        }
        let ghost l = self@;
        let mut total: u32 = 0;
        let mut i: usize = 0;
        while i < self.sub_zones.len()
            invariant
                l == self@,
                i <= self.sub_zones.len() <= 255,
                total == l.leds_before(i as nat),
                total <= 255 * i,
            decreases self.sub_zones.len() - i,
        {
            proof {
                assert(l.sub_zones[i as int] == self.sub_zones@[i as int]@);
            }
            total += self.sub_zones[i].led_count as u32;
            i += 1;
        }
        total <= self.leds_per_fan as u32
    }
}

} // verus!
