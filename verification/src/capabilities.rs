//! What each device offers to a lighting client.

use vstd::prelude::*;
use vstd::arithmetic::div_mod::lemma_fundamental_div_mod_converse;
use crate::bank::{BankView, WirelessRgbState};
use crate::effect::RgbMode;
use crate::fan_type::{Layout, WirelessFanType};
use crate::text::{dec, push_dec};

verus! {

/// A zone as a client sees it.
#[derive(Debug)]
pub struct RgbZoneInfo {
    pub name: String,
    pub led_count: u16,
}

/// The mathematical content of an [`RgbZoneInfo`].
#[verifier::ext_equal]
pub struct ZoneInfoView {
    pub name: Seq<char>,
    pub led_count: nat,
}

impl View for RgbZoneInfo {
    type V = ZoneInfoView;

    open spec fn view(&self) -> ZoneInfoView {
        ZoneInfoView { name: self.name@, led_count: self.led_count as nat }
    }
}

impl Clone for RgbZoneInfo {
    fn clone(&self) -> (r: Self)
        ensures
            r@ == self@,
    {
        RgbZoneInfo { name: self.name.clone(), led_count: self.led_count }
    }
}

/// A wired device as its driver describes it.
#[derive(Debug)]
pub struct WiredDevice {
    pub device_name: String,
    pub supported_modes: Vec<RgbMode>,
    pub zones: Vec<RgbZoneInfo>,
    pub supports_direct: bool,
    pub supports_mb_rgb_sync: bool,
    pub total_led_count: u16,
    pub supported_scopes: Vec<String>,
    pub supports_direction: bool,
}

/// The mathematical content of a [`WiredDevice`].
#[verifier::ext_equal]
pub struct WiredView {
    pub device_name: Seq<char>,
    pub supported_modes: Seq<RgbMode>,
    pub zones: Seq<ZoneInfoView>,
    pub supports_direct: bool,
    pub supports_mb_rgb_sync: bool,
    pub total_led_count: nat,
    pub supported_scopes: Seq<Seq<char>>,
    pub supports_direction: bool,
}

pub open spec fn zone_infos_view(zones: Seq<RgbZoneInfo>) -> Seq<ZoneInfoView> {
    zones.map_values(|z: RgbZoneInfo| z@)
}

pub open spec fn strings_view(s: Seq<String>) -> Seq<Seq<char>> {
    s.map_values(|x: String| x@)
}

impl View for WiredDevice {
    type V = WiredView;

    open spec fn view(&self) -> WiredView {
        WiredView {
            device_name: self.device_name@,
            supported_modes: self.supported_modes@,
            zones: zone_infos_view(self.zones@),
            supports_direct: self.supports_direct,
            supports_mb_rgb_sync: self.supports_mb_rgb_sync,
            total_led_count: self.total_led_count as nat,
            supported_scopes: strings_view(self.supported_scopes@),
            supports_direction: self.supports_direction,
        }
    }
}

/// A device with its name, as it is offered to a client.
#[derive(Debug)]
pub struct RgbDeviceCapabilities {
    pub device_id: String,
    pub device_name: String,
    pub supported_modes: Vec<RgbMode>,
    pub zones: Vec<RgbZoneInfo>,
    pub supports_direct: bool,
    pub supports_mb_rgb_sync: bool,
    pub total_led_count: u16,
    pub supported_scopes: Vec<String>,
    pub supports_direction: bool,
}

/// The mathematical content of an [`RgbDeviceCapabilities`].
#[verifier::ext_equal]
pub struct CapabilitiesView {
    pub device_id: Seq<char>,
    pub device: WiredView,
}

impl View for RgbDeviceCapabilities {
    type V = CapabilitiesView;

    open spec fn view(&self) -> CapabilitiesView {
        CapabilitiesView {
            device_id: self.device_id@,
            device: WiredView {
                device_name: self.device_name@,
                supported_modes: self.supported_modes@,
                zones: zone_infos_view(self.zones@),
                supports_direct: self.supports_direct,
                supports_mb_rgb_sync: self.supports_mb_rgb_sync,
                total_led_count: self.total_led_count as nat,
                supported_scopes: strings_view(self.supported_scopes@),
                supports_direction: self.supports_direction,
            },
        }
    }
}

/// How many LEDs the zones hold together.
pub open spec fn led_sum(zones: Seq<ZoneInfoView>) -> nat
    decreases zones.len(),
{
    if zones.len() == 0 {
        0
    } else {
        led_sum(zones.drop_last()) + zones.last().led_count
    }
}

/// The name of a device that is lights only.
pub open spec fn strip_name(t: WirelessFanType) -> Seq<char> {
    match t {
        WirelessFanType::Lc217 => "Case Ring"@,
        WirelessFanType::Led88 => "Screen Ring"@,
        _ => "LED Strip"@,
    }
}

/// The name of a part of a fan. Fans count from one, and a fan of one part
/// gives that part no name of its own.
pub open spec fn part_name(l: Layout, fan: int, part: int) -> Seq<char> {
    if l.sub_zones.len() == 1 {
        "Fan "@ + dec((fan + 1) as nat)
    } else {
        "Fan "@ + dec((fan + 1) as nat) + " "@ + l.sub_zones[part].name
    }
}

pub open spec fn part_info(l: Layout, fan: int, part: int) -> ZoneInfoView {
    ZoneInfoView { name: part_name(l, fan, part), led_count: l.sub_zones[part].led_count }
}

/// Zone `zone` of a bank, as a client sees it.
pub open spec fn zone_info(l: Layout, zone: int) -> ZoneInfoView {
    if l.is_rgb_only() {
        ZoneInfoView { name: strip_name(l.fan_type), led_count: l.total_led_count_override->0 }
    } else if l.is_aio() && zone == 0 {
        ZoneInfoView { name: "Pump Head"@, led_count: l.pump_led_count }
    } else {
        let k = if l.is_aio() {
            zone - 1
        } else {
            zone
        };
        part_info(l, k / l.sub_zones.len() as int, k % l.sub_zones.len() as int)
    }
}

/// The zones of a bank, as a client sees them.
pub open spec fn zone_infos(l: Layout, fan_count: nat) -> Seq<ZoneInfoView> {
    Seq::new(l.total_zones(fan_count), |z: int| zone_info(l, z))
}

/// What a bank offers.
pub open spec fn bank_capabilities(device_id: Seq<char>, b: BankView) -> CapabilitiesView {
    let zones = zone_infos(b.layout, b.fan_count as nat);
    CapabilitiesView {
        device_id,
        device: WiredView {
            device_name: b.layout.display_name,
            supported_modes: seq![RgbMode::Static, RgbMode::Direct, RgbMode::Breathing],
            zones,
            supports_direct: true,
            supports_mb_rgb_sync: false,
            total_led_count: led_sum(zones),
            supported_scopes: Seq::empty(),
            supports_direction: false,
        },
    }
}

/// What a wired device offers.
pub fn describe_wired(device_id: &String, dev: &WiredDevice) -> (r: RgbDeviceCapabilities)
    ensures
        r@ == (CapabilitiesView { device_id: device_id@, device: dev@ }),
{
    let mut supported_modes: Vec<RgbMode> = Vec::new();
    let mut i: usize = 0;
    while i < dev.supported_modes.len()
        invariant
            i <= dev.supported_modes@.len(),
            supported_modes@ =~= dev.supported_modes@.take(i as int),
        decreases dev.supported_modes@.len() - i,
    {
        supported_modes.push(dev.supported_modes[i]);
        i += 1;
    }
    let r = RgbDeviceCapabilities {
        device_id: device_id.clone(),
        device_name: dev.device_name.clone(),
        supported_modes,
        zones: dev.zones.clone(),
        supports_direct: dev.supports_direct,
        supports_mb_rgb_sync: dev.supports_mb_rgb_sync,
        total_led_count: dev.total_led_count,
        supported_scopes: dev.supported_scopes.clone(),
        supports_direction: dev.supports_direction,
    };
    proof {
        assert(r.supported_modes@ =~= dev.supported_modes@);
        assert(zone_infos_view(r.zones@) =~= zone_infos_view(dev.zones@));
        assert(strings_view(r.supported_scopes@) =~= strings_view(dev.supported_scopes@));
    }
    r
}

proof fn lemma_led_sum_push(zones: Seq<ZoneInfoView>, z: ZoneInfoView)
    ensures
        led_sum(zones.push(z)) == led_sum(zones) + z.led_count,
{
    assert(zones.push(z).drop_last() =~= zones);
}

/// Adds the parts of one fan to the zones of a bank.
fn push_fan(zones: &mut Vec<RgbZoneInfo>, state: &WirelessRgbState, fan: u8)
    requires
        state.wf(),
        !state@.layout.is_rgb_only(),
        fan < 255,
    ensures
        zone_infos_view(final(zones)@) == zone_infos_view(old(zones)@) + Seq::new(
            state@.layout.sub_zones.len(),
            |p: int| part_info(state@.layout, fan as int, p),
        ),
        led_sum(zone_infos_view(final(zones)@)) == led_sum(zone_infos_view(old(zones)@))
            + state@.layout.leds_before(state@.layout.sub_zones.len()),
{
    let ghost before = zone_infos_view(zones@);
    let ghost l = state.profile@;
    let mut p: usize = 0;
    while p < state.profile.sub_zones.len()
        invariant
            fan < 255,
            l == state.profile@,
            p <= state.profile.sub_zones@.len(),
            zone_infos_view(zones@) =~= before + Seq::new(
                p as nat,
                |q: int| part_info(l, fan as int, q),
            ),
            led_sum(zone_infos_view(zones@)) == led_sum(before) + l.leds_before(p as nat),
        decreases state.profile.sub_zones@.len() - p,
    {
        let mut name = "Fan ".to_owned();
        push_dec(&mut name, fan as u64 + 1);
        if state.profile.sub_zones.len() != 1 {
            name.append(" ");
            name.append(state.profile.sub_zones[p].name.as_str());
        }
        let info = RgbZoneInfo { name, led_count: state.profile.sub_zones[p].led_count as u16 };
        proof {
            assert(l.sub_zones[p as int] == state.profile.sub_zones@[p as int]@);
            assert(info@ == part_info(l, fan as int, p as int));
            lemma_led_sum_push(zone_infos_view(zones@), info@);
            assert(zone_infos_view(zones@.push(info)) =~= zone_infos_view(zones@).push(info@));
        }
        zones.push(info);
        p += 1;
    }
}

/// What a bank offers.
pub fn describe_bank(device_id: &String, state: &WirelessRgbState) -> (r: RgbDeviceCapabilities)
    requires
        state.wf(),
    ensures
        r@ == bank_capabilities(device_id@, state@),
{
    let ghost l = state.profile@;
    let ghost fc = state.fan_count as nat;
    let mut zones: Vec<RgbZoneInfo> = Vec::new();
    match state.profile.total_led_count_override {
        Some(total) => {
            let name = match state.profile.fan_type {
                WirelessFanType::Lc217 => "Case Ring".to_owned(),
                WirelessFanType::Led88 => "Screen Ring".to_owned(),
                _ => "LED Strip".to_owned(),
            };
            zones.push(RgbZoneInfo { name, led_count: total });
            proof {
                assert(zone_infos_view(zones@) =~= zone_infos(l, fc));
                assert(zone_infos(l, fc).drop_last() =~= Seq::<ZoneInfoView>::empty());
                assert(led_sum(zone_infos(l, fc).drop_last()) == 0);
                assert(led_sum(zone_infos(l, fc)) == total);
            }
        },
        None => {
            let ghost shift: nat = if l.is_aio() {
                1
            } else {
                0
            };
            let ghost base: nat = if l.is_aio() {
                l.pump_led_count
            } else {
                0
            };
            proof {
                assert(zone_infos_view(zones@) =~= Seq::<ZoneInfoView>::empty());
            }
            if state.profile.fan_type.is_aio() {
                let info = RgbZoneInfo {
                    name: "Pump Head".to_owned(),
                    led_count: state.profile.pump_led_count as u16,
                };
                proof {
                    lemma_led_sum_push(zone_infos_view(zones@), info@);
                    assert(zone_infos_view(zones@.push(info)) =~= zone_infos_view(zones@).push(
                        info@,
                    ));
                }
                zones.push(info);
            }
            let ghost parts = l.sub_zones.len();
            let ghost per_fan = l.leds_before(parts);
            let mut fan: u8 = 0;
            proof {
                assert(0 * parts == 0 && 0 * per_fan == 0) by (nonlinear_arith);
                assert(zone_infos_view(zones@) =~= Seq::new(shift, |z: int| zone_info(l, z)));
            }
            while fan < state.fan_count
                invariant
                    state.wf(),
                    l == state.profile@,
                    fc == state.fan_count as nat,
                    !l.is_rgb_only(),
                    shift == (if l.is_aio() {
                        1nat
                    } else {
                        0nat
                    }),
                    parts == l.sub_zones.len(),
                    per_fan == l.leds_before(parts),
                    fan <= state.fan_count,
                    zone_infos_view(zones@) =~= Seq::new(
                        (shift + fan * parts) as nat,
                        |z: int| zone_info(l, z),
                    ),
                    led_sum(zone_infos_view(zones@)) == base + fan * per_fan,
                decreases state.fan_count - fan,
            {
                let ghost before = zone_infos_view(zones@);
                push_fan(&mut zones, state, fan);
                proof {
                    assert((fan + 1) * parts == fan * parts + parts) by (nonlinear_arith);
                    assert((fan + 1) * per_fan == fan * per_fan + per_fan) by (nonlinear_arith);
                    let now = zone_infos_view(zones@);
                    assert forall|z: int| 0 <= z < now.len() implies now[z] == zone_info(l, z) by {
                        if z >= before.len() {
                            let p = z - before.len();
                            let k = fan * parts + p;
                            assert(0 <= fan * parts) by (nonlinear_arith);
                            lemma_fundamental_div_mod_converse(k, parts as int, fan as int, p);
                        }
                    }
                }
                fan += 1;
            }
            proof {
                assert(zone_infos_view(zones@) =~= zone_infos(l, fc));
                assert(fc * per_fan <= 255 * 255) by (nonlinear_arith)
                    requires
                        fc <= 255,
                        per_fan <= 255,
                ;
            }
        },
    }
    let total_led_count: u16 = sum_leds(&zones);
    let mut supported_modes: Vec<RgbMode> = Vec::new();
    supported_modes.push(RgbMode::Static);
    supported_modes.push(RgbMode::Direct);
    supported_modes.push(RgbMode::Breathing);
    let supported_scopes: Vec<String> = Vec::new();
    proof {
        assert(strings_view(supported_scopes@) =~= Seq::<Seq<char>>::empty());
        assert(supported_modes@ =~= seq![RgbMode::Static, RgbMode::Direct, RgbMode::Breathing]);
    }
    RgbDeviceCapabilities {
        device_id: device_id.clone(),
        device_name: state.profile.display_name.clone(),
        supported_modes,
        zones,
        supports_direct: true,
        supports_mb_rgb_sync: false,
        total_led_count,
        supported_scopes,
        supports_direction: false,
    }
}

fn sum_leds(zones: &Vec<RgbZoneInfo>) -> (r: u16)
    requires
        led_sum(zone_infos_view(zones@)) <= u16::MAX,
    ensures
        r == led_sum(zone_infos_view(zones@)),
{
    let ghost v = zone_infos_view(zones@);
    let mut total: u16 = 0;
    let mut i: usize = 0;
    while i < zones.len()
        invariant
            i <= zones@.len(),
            v == zone_infos_view(zones@),
            led_sum(v) <= u16::MAX,
            total == led_sum(v.take(i as int)),
        decreases zones@.len() - i,
    {
        proof {
            assert(v.take(i + 1).drop_last() =~= v.take(i as int));
            assert(v[i as int] == zones@[i as int]@);
            lemma_led_sum_take(v, i + 1);
        }
        total += zones[i].led_count;
        i += 1;
    }
    proof {
        assert(v.take(i as int) =~= v);
    }
    total
}

proof fn lemma_led_sum_take(v: Seq<ZoneInfoView>, n: int)
    requires
        0 <= n <= v.len(),
    ensures
        led_sum(v.take(n)) <= led_sum(v),
    decreases v.len() - n,
{
    if n < v.len() {
        lemma_led_sum_take(v, n + 1);
        assert(v.take(n + 1).drop_last() =~= v.take(n));
    } else {
        assert(v.take(n) =~= v);
    }
}

} // verus!
