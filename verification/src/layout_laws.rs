//! Where each LED of a device is, by fan and part.

use vstd::prelude::*;
use vstd::arithmetic::div_mod::lemma_fundamental_div_mod_converse;
use crate::bank::BankView;
use crate::fan_type::{Layout, WirelessFanType};

verus! {

/// Whether a device has a pump head.
pub open spec fn has_pump(l: Layout) -> bool {
    l.fan_type == WirelessFanType::WaterBlock || l.fan_type == WirelessFanType::WaterBlock2
}

/// A device that is lights only has the LEDs that it says and one zone. Any
/// other has those of its pump head and of each fan, and one zone for each part
/// of each fan, with one more for a pump head.
pub proof fn law_device_size(l: Layout, fan_count: nat)
    ensures
        l.total_led_count_override matches Some(n) ==> {
            &&& l.total_leds(fan_count) == n
            &&& l.total_zones(fan_count) == 1
        },
        l.total_led_count_override is None ==> {
            &&& l.total_leds(fan_count) == l.pump_led_count + fan_count * l.leds_per_fan
            &&& has_pump(l) ==> l.total_zones(fan_count) == 1 + fan_count * l.sub_zones.len()
            &&& !has_pump(l) ==> l.total_zones(fan_count) == fan_count * l.sub_zones.len()
        },
{
}

/// The LEDs before a part are those of the parts before it.
pub proof fn law_leds_before_part(l: Layout, part: nat)
    ensures
        l.leds_before(0) == 0,
        l.leds_before(part + 1) == l.leds_before(part) + l.sub_zones[part as int].led_count,
{
}

/// The one zone of a device that is lights only is all of it.
pub proof fn law_lights_place(l: Layout, fan_count: nat, zone: int)
    requires
        l.total_led_count_override is Some,
    ensures
        l.zone_slice(fan_count, 0) == Some((0int, l.total_led_count_override->0 as int)),
        zone != 0 ==> l.zone_slice(fan_count, zone) is None,
{
}

/// A pump head is zone zero and has the first LEDs.
pub proof fn law_pump_place(l: Layout, fan_count: nat)
    requires
        l.total_led_count_override is None,
        has_pump(l),
    ensures
        l.zone_slice(fan_count, 0) == Some((0int, l.pump_led_count as int)),
{
    assert(0 <= fan_count * l.sub_zones.len()) by (nonlinear_arith);
}

/// The zone of a part of a fan comes after those of the parts and fans before
/// it, and so do its LEDs.
pub proof fn law_part_place(l: Layout, fan_count: nat, fan: int, part: int)
    requires
        l.total_led_count_override is None,
        0 <= fan < fan_count,
        0 <= part < l.sub_zones.len(),
    ensures
        ({
            let parts = l.sub_zones.len();
            let led = fan * l.leds_per_fan + l.leds_before(part as nat);
            let len = l.sub_zones[part].led_count as int;
            &&& has_pump(l) ==> l.zone_slice(fan_count, 1 + fan * parts + part) == Some(
                (l.pump_led_count + led, len),
            )
            &&& !has_pump(l) ==> l.zone_slice(fan_count, fan * parts + part) == Some((led, len))
        }),
{
    let parts = l.sub_zones.len() as int;
    let k = fan * parts + part;
    assert(0 <= k < fan_count * parts) by (nonlinear_arith)
        requires
            k == fan * parts + part,
            0 <= fan < fan_count,
            0 <= part < parts,
    ;
    lemma_fundamental_div_mod_converse(k, parts, fan, part);
}

/// There is no zone beyond the last part of the last fan.
pub proof fn law_no_further_zone(l: Layout, fan_count: nat, zone: int)
    requires
        l.total_led_count_override is None,
        zone < 0 || zone >= fan_count * l.sub_zones.len() + (if has_pump(l) {
            1int
        } else {
            0int
        }),
    ensures
        l.zone_slice(fan_count, zone) is None,
{
}

/// A bank that has just been found has its address, its fans and its layout,
/// all of its LEDs are dark, and nothing is animated.
pub proof fn law_fresh_bank(mac: [u8; 6], fan_count: u8, l: Layout, p: int)
    ensures
        ({
            let b = BankView::fresh(mac, fan_count, l);
            &&& b.mac == mac
            &&& b.fan_count == fan_count
            &&& b.layout == l
            &&& l.total_led_count_override matches Some(n) ==> b.leds.len() == n
            &&& l.total_led_count_override is None ==> b.leds.len() == l.pump_led_count + fan_count
                * l.leds_per_fan
            &&& 0 <= p < b.leds.len() ==> b.leds[p] == [0u8, 0u8, 0u8]
            &&& forall|z: u8| !b.effects.contains_key(z)
        }),
{
}

/// The colors of a zone are those of its LEDs.
pub proof fn law_zone_colors_are_its_leds(b: BankView, zone: u8, start: int, len: int, j: int)
    requires
        b.layout.zone_slice(b.fan_count as nat, zone as int) == Some((start, len)),
        0 <= start,
        0 <= j < len,
        start + len <= b.leds.len(),
    ensures
        b.zone_leds(zone) is Some,
        b.zone_leds(zone)->0.len() == len,
        b.zone_leds(zone)->0[j] == b.leds[start + j],
{
}

/// A coarse zone is the LEDs of a fan counted from the start of the buffer, or
/// all of them where the device is lights only. One that would begin beyond
/// the buffer is none, and one that would end beyond it ends with it.
pub proof fn law_coarse_place(b: BankView, zone: int, j: int)
    requires
        0 <= zone,
    ensures
        b.layout.total_led_count_override is None ==> {
            let per = b.layout.leds_per_fan;
            &&& b.coarse_zone(zone) is Some <==> zone * per < b.leds.len()
            &&& b.coarse_zone(zone) matches Some(colors) ==> {
                &&& colors.len() <= per
                &&& colors.len() == per || zone * per + colors.len() == b.leds.len()
                &&& 0 <= j < colors.len() ==> colors[j] == b.leds[zone * per + j]
            }
            &&& has_pump(b.layout) ==> b.coarse_count() == b.fan_count + 1
            &&& !has_pump(b.layout) ==> b.coarse_count() == b.fan_count
        },
        b.layout.total_led_count_override is Some ==> {
            &&& b.coarse_count() == 1
            &&& b.coarse_zone(0) is Some <==> b.leds.len() > 0
            &&& b.coarse_zone(0) is Some ==> b.coarse_zone(0)->0 == b.leds
        },
{
    let per = b.coarse_len();
    assert(0 <= zone * per) by (nonlinear_arith)
        requires
            0 <= zone,
            0 <= per,
    ;
    if b.layout.total_led_count_override is Some && b.leds.len() > 0 {
        assert(0 * per == 0) by (nonlinear_arith);
        assert(b.coarse_zone(0)->0 =~= b.leds);
    }
}

/// A layout of lights only is one whatever it says of fans. Any other is one
/// exactly if a fan has one to 255 parts and they have together no more LEDs
/// than the fan.
pub proof fn law_which_layouts_are_valid(l: Layout)
    requires
        l.leds_per_fan <= 255,
        l.pump_led_count <= 255,
    ensures
        l.total_led_count_override matches Some(n) ==> n <= 65_535 ==> l.wf(),
        l.total_led_count_override is None ==> (l.wf() <==> 1 <= l.sub_zones.len() <= 255
            && l.leds_before(l.sub_zones.len()) <= l.leds_per_fan),
{
}

} // verus!
