//! What holds of the lighting of a bank.

use vstd::prelude::*;
use crate::action::ActionView;
use crate::bank::BankView;
use crate::effect::{
    all_black, black, breath_phase, effect_index, level_breathes, scale_color,
    spec_breathing_cycles, spec_is_animated, zone_color, BreathingTable, EffectView,
};
use crate::zones::{law_zone_in_bounds, law_zones_disjoint};

verus! {

/// Effects and colors are refused for exactly the zones that the bank does
/// not have.
pub proof fn law_refused_iff_out_of_range(b: BankView, zone: u8, e: EffectView, colors: Seq<[u8; 3]>)
    requires
        b.wf(),
    ensures
        b.with_effect(zone, e) is Some <==> zone < b.layout.total_zones(b.fan_count as nat),
        b.with_colors(zone, colors) is Some <==> zone < b.layout.total_zones(b.fan_count as nat),
        b.zone_leds(zone) is Some <==> zone < b.layout.total_zones(b.fan_count as nat),
{
    law_zone_in_bounds(b.layout, b.fan_count as nat, zone as int);
}

/// Whatever is set on a bank, it stays well formed, and it stays the same
/// device.
pub proof fn law_bank_stays_wf(b: BankView, zone: u8, e: EffectView, colors: Seq<[u8; 3]>)
    requires
        b.wf(),
    ensures
        b.with_effect(zone, e) matches Some(x) ==> {
            &&& x.wf()
            &&& x.mac == b.mac && x.fan_count == b.fan_count && x.layout == b.layout
        },
        b.with_colors(zone, colors) matches Some(x) ==> {
            &&& x.wf()
            &&& x.mac == b.mac && x.fan_count == b.fan_count && x.layout == b.layout
        },
{
    law_zone_in_bounds(b.layout, b.fan_count as nat, zone as int);
}

/// What is written to a zone is what is read from it: the colors written, as
/// far as the zone reaches, then what it had before.
pub proof fn law_colors_read_back(b: BankView, zone: u8, colors: Seq<[u8; 3]>)
    requires
        b.wf(),
        b.with_colors(zone, colors) is Some,
    ensures
        b.with_colors(zone, colors)->0.zone_leds(zone) == Some(
            if colors.len() < b.zone_leds(zone)->0.len() {
                colors + b.zone_leds(zone)->0.skip(colors.len() as int)
            } else {
                colors.take(b.zone_leds(zone)->0.len() as int)
            },
        ),
{
    law_zone_in_bounds(b.layout, b.fan_count as nat, zone as int);
    let x = b.with_colors(zone, colors)->0;
    let (start, len) = b.slice(zone as int)->0;
    let old_leds = b.zone_leds(zone)->0;
    if colors.len() < old_leds.len() {
        assert(x.zone_leds(zone)->0 =~= colors + old_leds.skip(colors.len() as int));
    } else {
        assert(x.zone_leds(zone)->0 =~= colors.take(old_leds.len() as int));
    }
}

proof fn lemma_other_zone_leds(b: BankView, x: BankView, zone: u8, other: u8)
    requires
        b.wf(),
        zone != other,
        x.layout == b.layout,
        x.fan_count == b.fan_count,
        x.leds.len() == b.leds.len(),
        forall|p: int|
            0 <= p < b.leds.len() && !b.in_zone(zone as int, p) ==> #[trigger] x.leds[p] == b.leds[p],
    ensures
        x.zone_leds(other) == b.zone_leds(other),
{
    law_zone_in_bounds(b.layout, b.fan_count as nat, other as int);
    if let Some((start, len)) = b.slice(other as int) {
        assert forall|p: int| start <= p < start + len implies #[trigger] x.leds[p] == b.leds[p] by {
            if b.in_zone(zone as int, p) {
                assert(b.in_zone(other as int, p));
                law_zones_disjoint(b.layout, b.fan_count as nat, zone as int, other as int, p);
            }
        }
        assert(x.leds.subrange(start, start + len) =~= b.leds.subrange(start, start + len));
    }
}

/// What is set on one zone leaves the colors and the animation of every other
/// zone alone.
pub proof fn law_other_zones_untouched(
    b: BankView,
    zone: u8,
    other: u8,
    e: EffectView,
    colors: Seq<[u8; 3]>,
)
    requires
        b.wf(),
        zone != other,
    ensures
        b.with_effect(zone, e) matches Some(x) ==> {
            &&& x.zone_leds(other) == b.zone_leds(other)
            &&& x.effects.contains_key(other) == b.effects.contains_key(other)
            &&& b.effects.contains_key(other) ==> x.effects[other] == b.effects[other]
        },
        b.with_colors(zone, colors) matches Some(x) ==> {
            &&& x.zone_leds(other) == b.zone_leds(other)
            &&& x.effects.contains_key(other) == b.effects.contains_key(other)
            &&& b.effects.contains_key(other) ==> x.effects[other] == b.effects[other]
        },
{
    if let Some(x) = b.with_effect(zone, e) {
        lemma_other_zone_leds(b, x, zone, other);
    }
    if let Some(x) = b.with_colors(zone, colors) {
        lemma_other_zone_leds(b, x, zone, other);
    }
}

/// A still effect gives every LED of its zone its color, and ends what was
/// animated there.
pub proof fn law_still_effect_fills(b: BankView, zone: u8, e: EffectView)
    requires
        b.wf(),
        !spec_is_animated(e.mode),
        b.with_effect(zone, e) is Some,
    ensures
        !b.with_effect(zone, e)->0.effects.contains_key(zone),
        forall|p: int|
            b.in_zone(zone as int, p) ==> #[trigger] b.with_effect(zone, e)->0.leds[p] == zone_color(
                e,
            ),
{
    law_zone_in_bounds(b.layout, b.fan_count as nat, zone as int);
}

/// Colors written to a zone end what was animated there.
pub proof fn law_colors_end_animation(b: BankView, zone: u8, colors: Seq<[u8; 3]>)
    ensures
        b.with_colors(zone, colors) matches Some(x) ==> !x.effects.contains_key(zone),
{
}

/// An animated effect keeps the colors of a zone that is lit, and brings its
/// own color to one that is dark.
pub proof fn law_animation_keeps_colors(b: BankView, zone: u8, e: EffectView)
    requires
        b.wf(),
        spec_is_animated(e.mode),
        b.with_effect(zone, e) is Some,
    ensures
        b.with_effect(zone, e)->0.effects.contains_key(zone),
        b.with_effect(zone, e)->0.effects[zone] == e,
        !all_black(b.zone_leds(zone)->0) ==> b.with_effect(zone, e)->0.leds == b.leds,
        all_black(b.zone_leds(zone)->0) ==> forall|p: int|
            b.in_zone(zone as int, p) ==> #[trigger] b.with_effect(zone, e)->0.leds[p] == zone_color(
                e,
            ),
{
    law_zone_in_bounds(b.layout, b.fan_count as nat, zone as int);
}

/// Colors that are written LED by LED, not all of them black, survive a
/// change to an animated effect: each LED then animates its own.
pub proof fn law_direct_then_animation(
    b: BankView,
    zone: u8,
    colors: Seq<[u8; 3]>,
    e: EffectView,
)
    requires
        b.wf(),
        spec_is_animated(e.mode),
        b.with_colors(zone, colors) is Some,
        !all_black(b.with_colors(zone, colors)->0.zone_leds(zone)->0),
    ensures
        b.with_colors(zone, colors)->0.with_effect(zone, e) matches Some(x) && x.leds
            == b.with_colors(zone, colors)->0.leds,
{
    law_bank_stays_wf(b, zone, e, colors);
    let y = b.with_colors(zone, colors)->0;
    law_refused_iff_out_of_range(b, zone, e, colors);
    law_refused_iff_out_of_range(y, zone, e, colors);
    law_animation_keeps_colors(y, zone, e);
}

/// Effects on two different zones can be set in either order.
pub proof fn law_zone_effects_commute(b: BankView, z1: u8, e1: EffectView, z2: u8, e2: EffectView)
    requires
        b.wf(),
        z1 != z2,
        b.with_effect(z1, e1) is Some,
        b.with_effect(z2, e2) is Some,
    ensures
        b.with_effect(z1, e1)->0.with_effect(z2, e2) is Some,
        b.with_effect(z1, e1)->0.with_effect(z2, e2) == b.with_effect(z2, e2)->0.with_effect(
            z1,
            e1,
        ),
{
    let x1 = b.with_effect(z1, e1)->0;
    let x2 = b.with_effect(z2, e2)->0;
    law_other_zones_untouched(b, z1, z2, e1, Seq::empty());
    law_other_zones_untouched(b, z2, z1, e2, Seq::empty());
    let y1 = x1.with_effect(z2, e2)->0;
    let y2 = x2.with_effect(z1, e1)->0;
    assert forall|p: int| 0 <= p < b.leds.len() implies #[trigger] y1.leds[p] == y2.leds[p] by {
        if b.in_zone(z1 as int, p) && b.in_zone(z2 as int, p) {
            law_zones_disjoint(b.layout, b.fan_count as nat, z1 as int, z2 as int, p);
        }
    }
    assert(y1.leds =~= y2.leds);
    assert(y1.effects =~= y2.effects);
    assert(y1 =~= y2);
}

/// In every frame of a composite, an LED of an animated zone shows what
/// breathing makes of its own color, and any other LED its color as it is.
pub proof fn law_composite_pixels(b: BankView, table: BreathingTable, frame: int, zone: u8, p: int)
    requires
        b.wf(),
        0 <= frame < 480,
        0 <= p < b.leds.len(),
    ensures
        b.composite(table).len() == 480,
        b.composite(table)[frame].len() == b.leds.len(),
        b.effects.contains_key(zone) && b.in_zone(zone as int, p) ==> b.composite(table)[frame][p]
            == table.breathe(b.effects[zone], frame, b.leds[p]),
        (forall|z: u8| #[trigger] b.effects.contains_key(z) ==> !b.in_zone(z as int, p))
            ==> b.composite(table)[frame][p] == b.leds[p],
{
    if b.effects.contains_key(zone) && b.in_zone(zone as int, p) {
        assert(b.is_animated_led(p));
        let z = b.zone_of(p);
        assert(b.effects.contains_key(z) && b.in_zone(z as int, p));
        law_zones_disjoint(b.layout, b.fan_count as nat, z as int, zone as int, p);
    }
}

/// An LED of an animated zone never shines brighter than its own color at the
/// brightness of the effect; it is dark where a breath begins, as in the first
/// frame, and shows just that color in the middle of each breath, of which a
/// loop has as many as the speed says.
pub proof fn law_composite_breathes(b: BankView, table: BreathingTable, frame: int, zone: u8, p: int)
    requires
        b.wf(),
        table.wf(),
        0 <= frame < 480,
        0 <= p < b.leds.len(),
        b.effects.contains_key(zone),
        b.in_zone(zone as int, p),
    ensures
        ({
            let e = b.effects[zone];
            let shown = b.composite(table)[frame][p];
            let full = scale_color(b.leds[p], e.brightness);
            &&& forall|c: int| 0 <= c < 3 ==> #[trigger] shown[c] <= full[c]
            &&& breath_phase(e.speed, frame) == 0 ==> shown == black()
            &&& breath_phase(e.speed, frame) == 240 ==> shown == full
            &&& frame == 0 ==> shown == black()
        }),
{
    law_composite_pixels(b, table, frame, zone, p);
    let e = b.effects[zone];
    let c = b.leds[p];
    assert(level_breathes(table.levels(), e.speed, e.brightness, frame, c[0]));
    assert(level_breathes(table.levels(), e.speed, e.brightness, frame, c[1]));
    assert(level_breathes(table.levels(), e.speed, e.brightness, frame, c[2]));
    let shown = b.composite(table)[frame][p];
    if breath_phase(e.speed, frame) == 0 {
        assert(shown =~= black());
    }
    if breath_phase(e.speed, frame) == 240 {
        assert(shown =~= scale_color(c, e.brightness));
    }
    if frame == 0 {
        assert(0 * spec_breathing_cycles(e.speed) == 0) by (nonlinear_arith);
    }
}

/// A state is uploaded as one frame where nothing is animated, else as one
/// composite, and either way under the mark of the colors that the LEDs have
/// when they stand still.
pub proof fn law_upload_is_single(b: BankView, table: BreathingTable)
    ensures
        b.upload(table) is SendDirect <==> b.effects =~= Map::<u8, EffectView>::empty(),
        b.upload(table) is SendFrames <==> !(b.effects =~= Map::<u8, EffectView>::empty()),
        b.upload(table) matches ActionView::SendDirect { leds, effect_index: mark, .. } ==> leds
            == b.leds && mark == effect_index(b.leds),
        b.upload(table) matches ActionView::SendFrames { frames, effect_index: mark, .. } ==> frames
            == b.composite(table) && mark == effect_index(b.leds),
{
}

} // verus!
