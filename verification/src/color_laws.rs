//! What an effect makes of its colors, channel by channel.

use vstd::prelude::*;
use crate::bank::BankView;
use crate::effect::{
    all_black, effect_index, effect_mark, fnv, fnv_byte, is_breath, level_breathes, level_of,
    quarters, scale_channel, spec_breathing_cycles, spec_is_animated, zone_color, BreathingTable,
    EffectView, RgbMode,
};
use crate::zones::law_zone_in_bounds;

verus! {

/// Breathing is the one mode that a bank plays as an animation.
pub proof fn law_which_modes_are_animated(mode: RgbMode)
    ensures
        spec_is_animated(mode) <==> mode == RgbMode::Breathing,
{
}

/// Whether a channel shows a value at a brightness: as it is from brightness 4
/// on, and below that so many quarters of it, rounded down.
pub open spec fn shows(shown: u8, value: u8, brightness: u8) -> bool {
    &&& brightness >= 4 ==> shown == value
    &&& brightness < 4 ==> 4 * shown <= value * brightness < 4 * shown + 4
}

/// The color of an effect is its first one at its brightness, however many
/// more it names. It is white where it names none, and black where it is off.
pub proof fn law_effect_color(e: EffectView, c: int)
    requires
        0 <= c < 3,
    ensures
        e.mode == RgbMode::Off ==> zone_color(e)[c] == 0,
        e.mode != RgbMode::Off && e.colors.len() > 0 ==> shows(
            zone_color(e)[c],
            e.colors[0][c],
            e.brightness,
        ),
        e.mode != RgbMode::Off && e.colors.len() == 0 ==> shows(
            zone_color(e)[c],
            255,
            e.brightness,
        ),
{
    let v: u8 = if e.colors.len() > 0 {
        e.colors[0][c]
    } else {
        255
    };
    let b = e.brightness;
    if b < 4 {
        assert(0 <= v * b <= 255 * 3) by (nonlinear_arith)
            requires
                0 <= v <= 255,
                0 <= b <= 3,
        ;
    }
    if e.colors.len() == 0 {
        let w = [255u8, 255u8, 255u8];
        assert(w[c] == 255);
    }
}

/// The color of an effect does not depend on its further colors, its speed or
/// its direction, nor on its mode unless that is off.
pub proof fn law_effect_color_depends(e: EffectView, f: EffectView)
    requires
        e.mode != RgbMode::Off,
        f.mode != RgbMode::Off,
        e.brightness == f.brightness,
        e.colors.len() > 0,
        f.colors.len() > 0,
        e.colors[0] == f.colors[0],
    ensures
        zone_color(e) == zone_color(f),
{
}

/// Every LED of a zone that is given a still effect, or an animated one while
/// it is dark, shows the first color of the effect at its brightness; every
/// other LED stays as it was.
pub proof fn law_effect_on_leds(b: BankView, zone: u8, e: EffectView, start: int, len: int, p: int, c: int)
    requires
        b.wf(),
        b.layout.zone_slice(b.fan_count as nat, zone as int) == Some((start, len)),
        0 <= p < b.leds.len(),
        0 <= c < 3,
    ensures
        b.with_effect(zone, e) is Some,
        ({
            let x = b.with_effect(zone, e)->0;
            let dark = forall|q: int|
                start <= q < start + len ==> #[trigger] b.leds[q] == [0u8, 0u8, 0u8];
            &&& x.leds.len() == b.leds.len()
            &&& !(start <= p < start + len) ==> x.leds[p] == b.leds[p]
            &&& e.mode == RgbMode::Breathing && !dark ==> x.leds[p] == b.leds[p]
            &&& start <= p < start + len && (e.mode != RgbMode::Breathing || dark) ==> {
                &&& e.mode == RgbMode::Off ==> x.leds[p][c] == 0
                &&& e.mode != RgbMode::Off && e.colors.len() > 0 ==> shows(
                    x.leds[p][c],
                    e.colors[0][c],
                    e.brightness,
                )
                &&& e.mode != RgbMode::Off && e.colors.len() == 0 ==> shows(
                    x.leds[p][c],
                    255,
                    e.brightness,
                )
            }
        }),
{
    law_zone_in_bounds(b.layout, b.fan_count as nat, zone as int);
    law_effect_color(e, c);
    let sub = b.leds.subrange(start, start + len);
    let dark = forall|q: int| start <= q < start + len ==> #[trigger] b.leds[q] == [0u8, 0u8, 0u8];
    if all_black(sub) {
        assert forall|q: int| start <= q < start + len implies #[trigger] b.leds[q] == [
            0u8,
            0u8,
            0u8,
        ] by {
            assert(sub[q - start] == b.leds[q]);
        }
    }
    if dark {
        assert(all_black(sub)) by {
            assert forall|i: int| 0 <= i < sub.len() implies #[trigger] sub[i] == [
                0u8,
                0u8,
                0u8,
            ] by {
                assert(b.leds[start + i] == sub[i]);
            }
        }
    }
}

/// After an effect on a zone, that zone is animated exactly if the effect is
/// breathing, and then with all that the effect says; the other zones are as
/// before.
pub proof fn law_effect_on_zones(b: BankView, zone: u8, e: EffectView, z: u8)
    requires
        b.with_effect(zone, e) is Some,
    ensures
        ({
            let x = b.with_effect(zone, e)->0;
            &&& x.effects.contains_key(zone) <==> e.mode == RgbMode::Breathing
            &&& e.mode == RgbMode::Breathing ==> x.effects[zone] == e
            &&& z != zone ==> x.effects.contains_key(z) == b.effects.contains_key(z)
            &&& z != zone && b.effects.contains_key(z) ==> x.effects[z] == b.effects[z]
            &&& x.mac == b.mac
            &&& x.fan_count == b.fan_count
            &&& x.layout == b.layout
        }),
{
}

/// Colors written to a zone go to its LEDs from the first on, one each, as far
/// as both reach, and to no other LED; they end the animation of the zone and
/// of no other.
pub proof fn law_colors_on_leds(
    b: BankView,
    zone: u8,
    colors: Seq<[u8; 3]>,
    start: int,
    len: int,
    p: int,
    z: u8,
)
    requires
        b.wf(),
        b.layout.zone_slice(b.fan_count as nat, zone as int) == Some((start, len)),
        0 <= p < b.leds.len(),
    ensures
        b.with_colors(zone, colors) is Some,
        ({
            let x = b.with_colors(zone, colors)->0;
            &&& x.leds.len() == b.leds.len()
            &&& start <= p < start + len && p - start < colors.len() ==> x.leds[p] == colors[p
                - start]
            &&& !(start <= p < start + len && p - start < colors.len()) ==> x.leds[p] == b.leds[p]
            &&& !x.effects.contains_key(zone)
            &&& z != zone ==> x.effects.contains_key(z) == b.effects.contains_key(z)
            &&& z != zone && b.effects.contains_key(z) ==> x.effects[z] == b.effects[z]
            &&& x.mac == b.mac
            &&& x.fan_count == b.fan_count
            &&& x.layout == b.layout
        }),
{
    law_zone_in_bounds(b.layout, b.fan_count as nat, zone as int);
}

/// A breath takes twelve seconds at the slowest speed, and a half, a quarter,
/// a sixth and a twelfth of that at the others.
pub proof fn law_breath_length(speed: u8)
    ensures
        speed == 0 ==> spec_breathing_cycles(speed) * 12 == 12,
        speed == 1 ==> spec_breathing_cycles(speed) * 6 == 12,
        speed == 2 ==> spec_breathing_cycles(speed) * 3 == 12,
        speed == 3 ==> spec_breathing_cycles(speed) * 2 == 12,
        speed >= 4 ==> spec_breathing_cycles(speed) * 1 == 12,
{
}

/// The levels of a table are laid out by speed, then brightness, then frame,
/// then value; settings above 4 count as 4.
pub proof fn law_level_place(
    table: BreathingTable,
    speed: u8,
    brightness: u8,
    frame: int,
    value: u8,
)
    requires
        0 <= frame < 480,
    ensures
        speed <= 4 && brightness <= 4 ==> table.spec_level(speed, brightness, frame, value)
            == table.levels()[614_400 * speed + 122_880 * brightness + 256 * frame + value],
        speed > 4 ==> table.spec_level(speed, brightness, frame, value) == table.spec_level(
            4,
            brightness,
            frame,
            value,
        ),
        brightness > 4 ==> table.spec_level(speed, brightness, frame, value) == table.spec_level(
            speed,
            4,
            frame,
            value,
        ),
{
}

/// Breathing treats each channel of a color by itself.
pub proof fn law_breathe_channels(table: BreathingTable, e: EffectView, frame: int, color: [u8; 3], c: int)
    requires
        0 <= c < 3,
    ensures
        table.breathe(e, frame, color)[c] == table.spec_level(
            e.speed,
            e.brightness,
            frame,
            color[c],
        ),
{
}

/// One step of the hash mixes in a byte, then multiplies by the prime of the
/// 32-bit FNV hash, modulo a power of two.
pub proof fn law_hash_step(h: u32, b: u8) -> (k: int)
    ensures
        (h ^ (b as u32)) * 16_777_619 == fnv_byte(h, b) + k * 4_294_967_296,
        k >= 0,
{
    let x = (h ^ (b as u32)) * 16_777_619;
    assert(x >= 0) by (nonlinear_arith)
        requires
            x == (h ^ (b as u32)) * 16_777_619,
    ;
    x / 4_294_967_296
}

/// The hash begins with the offset of the 32-bit FNV hash, and takes the
/// channels of each further LED in order.
pub proof fn law_hash_of_leds(leds: Seq<[u8; 3]>, px: [u8; 3])
    ensures
        fnv(Seq::empty()) == 2_166_136_261,
        fnv(leds.push(px)) == fnv_byte(fnv_byte(fnv_byte(fnv(leds), px[0]), px[1]), px[2]),
{
    assert(leds.push(px).drop_last() =~= leds);
}

/// The mark is the hash with its highest byte first; a hash of zero is marked
/// as one.
pub proof fn law_mark_bytes(leds: Seq<[u8; 3]>)
    ensures
        ({
            let m = effect_index(leds);
            let value = m[0] * 16_777_216 + m[1] * 65_536 + m[2] * 256 + m[3];
            &&& fnv(leds) != 0 ==> value == fnv(leds)
            &&& fnv(leds) == 0 ==> value == 1
        }),
{
    let h = effect_mark(leds) as int;
    let m = effect_index(leds);
    let a = h / 256;
    let b = a / 256;
    let c = b / 256;
    assert(h == 256 * a + h % 256 && a == 256 * b + a % 256 && b == 256 * c + b % 256);
    assert(h / 65_536 == b && h / 16_777_216 == c && 0 <= c < 256);
    assert(m[0] == c && m[1] == b % 256 && m[2] == a % 256 && m[3] == h % 256);
}

/// The channel value that a setting from 0 to 4 and above lets through, in
/// quarters of it.
pub open spec fn light_at(value: u8, brightness: u8) -> int {
    if brightness >= 4 {
        value * 4
    } else {
        value * brightness
    }
}

/// How many breaths there are in twelve seconds.
pub open spec fn breaths(speed: u8) -> int {
    match speed {
        0 => 1,
        1 => 2,
        2 => 4,
        3 => 6,
        _ => 12,
    }
}

/// Levels are those of breaths exactly if none is above its channel at the
/// brightness, every one at the beginning of a breath is dark, and every one in
/// the middle of a breath is its channel at the brightness, rounded down. The
/// breaths of a speed divide the 480 frames evenly.
pub proof fn law_what_a_breath_is(levels: Seq<u8>)
    ensures
        is_breath(levels) <==> forall|speed: u8, brightness: u8, frame: int, value: u8|
            0 <= frame < 480 ==> {
                let level = #[trigger] level_of(levels, speed, brightness, frame, value);
                &&& level * 4 <= light_at(value, brightness)
                &&& (frame * breaths(speed)) % 480 == 0 ==> level == 0
                &&& (frame * breaths(speed)) % 480 == 240 ==> light_at(value, brightness) < level * 4
                    + 4
            },
{
    assert forall|speed: u8, brightness: u8, frame: int, value: u8|
        0 <= frame < 480 implies #[trigger] level_breathes(levels, speed, brightness, frame, value)
        == {
        let level = #[trigger] level_of(levels, speed, brightness, frame, value);
        &&& level * 4 <= light_at(value, brightness)
        &&& (frame * breaths(speed)) % 480 == 0 ==> level == 0
        &&& (frame * breaths(speed)) % 480 == 240 ==> light_at(value, brightness) < level * 4 + 4
    } by {
        assert(breaths(speed) == spec_breathing_cycles(speed));
        let light = light_at(value, brightness);
        assert(0 <= light <= 1020) by {
            assert(0 <= value * brightness <= 255 * 4 || brightness >= 4) by (nonlinear_arith)
                requires
                    0 <= value <= 255,
                    0 <= brightness <= 255,
            ;
        }
        assert(light == value * quarters(brightness));
        assert(scale_channel(value, brightness) == light / 4);
    }
    if is_breath(levels) {
        assert forall|speed: u8, brightness: u8, frame: int, value: u8|
            0 <= frame < 480 implies {
            let level = #[trigger] level_of(levels, speed, brightness, frame, value);
            &&& level * 4 <= light_at(value, brightness)
            &&& (frame * breaths(speed)) % 480 == 0 ==> level == 0
            &&& (frame * breaths(speed)) % 480 == 240 ==> light_at(value, brightness) < level * 4 + 4
        } by {
            assert(level_breathes(levels, speed, brightness, frame, value));
        }
    }
}

} // verus!
