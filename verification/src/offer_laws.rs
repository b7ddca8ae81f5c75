//! What a client is told of each device.

use vstd::prelude::*;
use vstd::arithmetic::div_mod::lemma_fundamental_div_mod_converse;
use crate::bank::BankView;
use crate::capabilities::{bank_capabilities, led_sum, zone_infos, ZoneInfoView};
use crate::effect::RgbMode;
use crate::fan_type::{Layout, WirelessFanType};
use crate::layout_laws::has_pump;
use crate::model::ControllerView;
use crate::text::dec;

verus! {

/// A client is told of every wired device what its driver says, under its name,
/// and then of every bank, each in the order of a walk.
pub proof fn law_offers_of_all(
    s: ControllerView,
    wired_order: Seq<Seq<char>>,
    bank_order: Seq<Seq<char>>,
    i: int,
)
    ensures
        ({
            let all = s.capabilities(wired_order, bank_order);
            &&& all.len() == wired_order.len() + bank_order.len()
            &&& 0 <= i < wired_order.len() ==> all[i].device_id == wired_order[i] && all[i].device
                == s.wired[wired_order[i]]
            &&& 0 <= i < bank_order.len() ==> all[wired_order.len() + i] == bank_capabilities(
                bank_order[i],
                s.banks[bank_order[i]],
            )
        }),
{
}

/// A bank goes by its kind's name, can be still, streamed to and breathe, takes
/// colors, and is neither handed to the mainboard nor turned round. It has as
/// many LEDs as its zones have together.
pub proof fn law_offer_of_a_bank(id: Seq<char>, b: BankView)
    ensures
        ({
            let c = bank_capabilities(id, b);
            &&& c.device_id == id
            &&& c.device.device_name == b.layout.display_name
            &&& c.device.supported_modes == seq![
                RgbMode::Static,
                RgbMode::Direct,
                RgbMode::Breathing,
            ]
            &&& c.device.supports_direct
            &&& !c.device.supports_mb_rgb_sync
            &&& !c.device.supports_direction
            &&& c.device.supported_scopes.len() == 0
            &&& c.device.zones == zone_infos(b.layout, b.fan_count as nat)
            &&& c.device.total_led_count == led_sum(c.device.zones)
        }),
{
}

/// The sum grows with each zone by the LEDs of it.
pub proof fn law_sum_of_leds(zones: Seq<ZoneInfoView>, z: ZoneInfoView)
    ensures
        led_sum(Seq::empty()) == 0,
        led_sum(zones.push(z)) == led_sum(zones) + z.led_count,
{
    assert(zones.push(z).drop_last() =~= zones);
}

/// A device that is lights only is offered as one zone with all of its LEDs,
/// named after what it is.
pub proof fn law_offer_of_lights(l: Layout, fan_count: nat, n: nat)
    requires
        l.total_led_count_override == Some(n),
    ensures
        zone_infos(l, fan_count).len() == 1,
        zone_infos(l, fan_count)[0].led_count == n,
        l.fan_type == WirelessFanType::Lc217 ==> zone_infos(l, fan_count)[0].name == "Case Ring"@,
        l.fan_type == WirelessFanType::Led88 ==> zone_infos(l, fan_count)[0].name
            == "Screen Ring"@,
        l.fan_type != WirelessFanType::Lc217 && l.fan_type != WirelessFanType::Led88
            ==> zone_infos(l, fan_count)[0].name == "LED Strip"@,
{
}

/// A part of a fan is offered at the place of its zone, after the pump head
/// where there is one, with its LEDs, named after the number of the fan from
/// one on and, where a fan has several parts, its own name.
pub proof fn law_offer_of_a_part(l: Layout, fan_count: nat, fan: int, part: int)
    requires
        l.total_led_count_override is None,
        0 <= fan < fan_count,
        0 <= part < l.sub_zones.len(),
    ensures
        ({
            let parts = l.sub_zones.len();
            let zone = fan * parts + part + (if has_pump(l) {
                1int
            } else {
                0int
            });
            let z = zone_infos(l, fan_count)[zone];
            &&& zone < zone_infos(l, fan_count).len()
            &&& z.led_count == l.sub_zones[part].led_count
            &&& parts == 1 ==> z.name == "Fan "@ + dec((fan + 1) as nat)
            &&& parts > 1 ==> z.name == "Fan "@ + dec((fan + 1) as nat) + " "@
                + l.sub_zones[part].name
            &&& has_pump(l) ==> zone_infos(l, fan_count)[0] == (ZoneInfoView {
                name: "Pump Head"@,
                led_count: l.pump_led_count,
            })
            &&& has_pump(l) ==> zone_infos(l, fan_count).len() == 1 + fan_count * parts
            &&& !has_pump(l) ==> zone_infos(l, fan_count).len() == fan_count * parts
        }),
{
    let parts = l.sub_zones.len() as int;
    let k = fan * parts + part;
    assert(0 <= k < fan_count * parts) by (nonlinear_arith)
        requires
            k == fan * parts + part,
            0 <= fan < fan_count,
            0 <= part < parts,
    ;
    lemma_fundamental_div_mod_converse(k, parts, fan, part);
}

} // verus!
