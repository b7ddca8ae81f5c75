//! What holds of the zones of a device: each lies in the LED buffer, after the
//! one before it, no two overlap, and where the parts of a fan use up its LEDs,
//! every LED has one.

use vstd::prelude::*;
use crate::fan_type::Layout;
use vstd::arithmetic::div_mod::{lemma_fundamental_div_mod, lemma_fundamental_div_mod_converse};

verus! {

pub proof fn lemma_leds_before_monotone(l: Layout, a: nat, b: nat)
    requires
        a <= b,
    ensures
        l.leds_before(a) <= l.leds_before(b),
    decreases b,
{
    if a < b {
        lemma_leds_before_monotone(l, a, (b - 1) as nat);
    }
}

/// Splits the number of a fan zone into the fan and the part of the fan.
pub proof fn lemma_split_zone(k: int, parts: int, fan_count: int)
    requires
        parts >= 1,
        0 <= k < fan_count * parts,
    ensures
        0 <= k / parts < fan_count,
        0 <= k % parts < parts,
        k == parts * (k / parts) + k % parts,
{
    lemma_fundamental_div_mod(k, parts);
    let f = k / parts;
    let m = k % parts;
    assert(0 <= f < fan_count) by (nonlinear_arith)
        requires
            k == parts * f + m,
            0 <= m < parts,
            0 <= k < fan_count * parts,
            parts >= 1,
    ;
}

/// The LEDs of a part lie between the start of its fan and the start of the
/// next one.
pub proof fn lemma_part_bounds(l: Layout, fan_count: nat, fan: int, part: int)
    requires
        l.wf(),
        !l.is_rgb_only(),
        0 <= fan < fan_count,
        0 <= part < l.sub_zones.len(),
    ensures
        l.part_start(fan, 0) <= l.part_start(fan, part),
        l.part_start(fan, part) + l.sub_zones[part].led_count <= l.part_start(fan + 1, 0)
            <= l.total_leds(fan_count),
{
    lemma_leds_before_monotone(l, (part + 1) as nat, l.sub_zones.len());
    let n = l.leds_per_fan as int;
    assert((fan + 1) * n == fan * n + n) by (nonlinear_arith);
    assert((fan + 1) * n <= fan_count * n) by (nonlinear_arith)
        requires
            fan + 1 <= fan_count,
            0 <= n,
    ;
    assert(l.leds_before(0) == 0);
}

/// A zone has a place in the buffer exactly if its number is below the number
/// of zones, and that place lies in the buffer.
pub proof fn law_zone_in_bounds(l: Layout, fan_count: nat, zone: int)
    requires
        l.wf(),
        0 <= zone,
    ensures
        l.zone_slice(fan_count, zone) is Some <==> zone < l.total_zones(fan_count),
        l.zone_slice(fan_count, zone) matches Some((start, len)) ==> {
            &&& 0 <= start
            &&& 0 <= len
            &&& start + len <= l.total_leds(fan_count)
        },
{
    if zone < l.total_zones(fan_count) && !l.is_rgb_only() {
        let parts = l.sub_zones.len() as int;
        if l.is_aio() && zone == 0 {
            assert(0 <= fan_count * l.leds_per_fan) by (nonlinear_arith);
        } else {
            let k = if l.is_aio() {
                zone - 1
            } else {
                zone
            };
            lemma_split_zone(k, parts, fan_count as int);
            lemma_part_bounds(l, fan_count, k / parts, k % parts);
            let f = k / parts;
            let n = l.leds_per_fan as int;
            assert(0 <= f * n) by (nonlinear_arith)
                requires
                    0 <= f,
                    0 <= n,
            ;
        }
    }
}

proof fn lemma_parts_apart(l: Layout, fan_count: nat, f1: int, p1: int, f2: int, p2: int)
    requires
        l.wf(),
        !l.is_rgb_only(),
        0 <= f1 < fan_count,
        0 <= f2 < fan_count,
        0 <= p1 < l.sub_zones.len(),
        0 <= p2 < l.sub_zones.len(),
        f1 < f2 || (f1 == f2 && p1 < p2),
    ensures
        l.part_start(f1, p1) + l.sub_zones[p1].led_count <= l.part_start(f2, p2),
{
    lemma_part_bounds(l, fan_count, f1, p1);
    lemma_part_bounds(l, fan_count, f2, p2);
    if f1 < f2 {
        let n = l.leds_per_fan as int;
        assert((f1 + 1) * n <= f2 * n) by (nonlinear_arith)
            requires
                f1 + 1 <= f2,
                0 <= n,
        ;
    } else {
        lemma_leds_before_monotone(l, (p1 + 1) as nat, p2 as nat);
    }
}

/// No LED belongs to two zones.
pub proof fn law_zones_disjoint(l: Layout, fan_count: nat, z1: int, z2: int, p: int)
    requires
        l.wf(),
        l.in_zone(fan_count, z1, p),
        l.in_zone(fan_count, z2, p),
    ensures
        z1 == z2,
{
    if !l.is_rgb_only() && z1 != z2 {
        let parts = l.sub_zones.len() as int;
        let a = if z1 < z2 {
            z1
        } else {
            z2
        };
        let b = if z1 < z2 {
            z2
        } else {
            z1
        };
        let shift: int = if l.is_aio() {
            1
        } else {
            0
        };
        lemma_split_zone(b - shift, parts, fan_count as int);
        let f2 = (b - shift) / parts;
        let p2 = (b - shift) % parts;
        let n = l.leds_per_fan as int;
        if l.is_aio() && a == 0 {
            assert(0 <= f2 * n) by (nonlinear_arith)
                requires
                    0 <= f2,
                    0 <= n,
            ;
        } else {
            lemma_split_zone(a - shift, parts, fan_count as int);
            let f1 = (a - shift) / parts;
            let p1 = (a - shift) % parts;
            if f1 > f2 {
                assert(parts * f1 >= parts * f2 + parts) by (nonlinear_arith)
                    requires
                        f1 >= f2 + 1,
                        parts >= 1,
                ;
            }
            lemma_parts_apart(l, fan_count, f1, p1, f2, p2);
        }
    }
}

/// The first zone begins with the buffer, and each further one where the one
/// before it ends. Only the first part of a fan may begin later, by the LEDs
/// that belong to no part of the fan before.
pub proof fn law_zones_follow_each_other(l: Layout, fan_count: nat, zone: int)
    requires
        l.wf(),
        0 <= zone < l.total_zones(fan_count),
    ensures
        zone == 0 ==> {
            let (start, _) = l.zone_slice(fan_count, zone)->0;
            start == 0
        },
        zone > 0 ==> {
            let (before, len) = l.zone_slice(fan_count, zone - 1)->0;
            let (start, _) = l.zone_slice(fan_count, zone)->0;
            let k = if l.is_aio() {
                zone - 1
            } else {
                zone
            };
            let unused = if k > 0 && k % l.sub_zones.len() as int == 0 {
                l.leds_per_fan - l.leds_before(l.sub_zones.len())
            } else {
                0
            };
            start == before + len + unused
        },
{
    if !l.is_rgb_only() {
        let parts = l.sub_zones.len() as int;
        let shift: int = if l.is_aio() {
            1
        } else {
            0
        };
        let n = l.leds_per_fan as int;
        let k = zone - shift;
        assert(l.leds_before(0) == 0);
        assert(0 * n == 0) by (nonlinear_arith);
        if k == 0 {
            assert(0int / parts == 0 && 0int % parts == 0) by (nonlinear_arith)
                requires
                    parts >= 1,
            ;
        } else if k > 0 {
            lemma_split_zone(k, parts, fan_count as int);
            let f = k / parts;
            let m = k % parts;
            if m == 0 {
                assert(parts * f == f * parts) by (nonlinear_arith);
                assert((f - 1) * parts + (parts - 1) == f * parts - 1) by (nonlinear_arith);
                lemma_fundamental_div_mod_converse(k - 1, parts, f - 1, parts - 1);
                assert((f - 1) * n + n == f * n) by (nonlinear_arith);
            } else {
                assert(parts * f == f * parts) by (nonlinear_arith);
                lemma_fundamental_div_mod_converse(k - 1, parts, f, m - 1);
            }
        }
    }
}

proof fn lemma_find_part(l: Layout, q: int, k: nat) -> (part: int)
    requires
        0 <= q < l.leds_before(k),
        k <= l.sub_zones.len(),
    ensures
        0 <= part < k,
        l.leds_before(part as nat) <= q < l.leds_before(part as nat) + l.sub_zones[part].led_count,
    decreases k,
{
    if q < l.leds_before((k - 1) as nat) {
        lemma_find_part(l, q, (k - 1) as nat)
    } else {
        k - 1
    }
}

/// Where the parts of a fan use up its LEDs, and only a liquid cooler has
/// LEDs on a pump head, every LED of the buffer belongs to a zone.
pub proof fn law_zones_cover(l: Layout, fan_count: nat, p: int) -> (zone: int)
    requires
        l.wf(),
        !l.is_rgb_only() ==> l.leds_before(l.sub_zones.len()) == l.leds_per_fan,
        l.is_aio() || l.is_rgb_only() || l.pump_led_count == 0,
        0 <= p < l.total_leds(fan_count),
    ensures
        0 <= zone < l.total_zones(fan_count),
        l.in_zone(fan_count, zone, p),
{
    if l.is_rgb_only() {
        0
    } else if l.is_aio() && p < l.pump_led_count {
        assert(0 <= fan_count * l.sub_zones.len()) by (nonlinear_arith);
        0
    } else {
        let shift: int = if l.is_aio() {
            1
        } else {
            0
        };
        let base: int = if l.is_aio() {
            l.pump_led_count as int
        } else {
            0
        };
        let q = p - base;
        let n = l.leds_per_fan as int;
        let parts = l.sub_zones.len() as int;
        assert(n >= 1) by (nonlinear_arith)
            requires
                0 <= q < fan_count * n,
                0 <= n,
        ;
        lemma_split_zone(q, n, fan_count as int);
        let fan = q / n;
        let part = lemma_find_part(l, q % n, l.sub_zones.len());
        let k = parts * fan + part;
        assert(0 <= k < fan_count * parts) by (nonlinear_arith)
            requires
                k == parts * fan + part,
                0 <= fan < fan_count,
                0 <= part < parts,
        ;
        assert(fan * parts == parts * fan) by (nonlinear_arith);
        lemma_fundamental_div_mod_converse(k, parts, fan, part);
        assert(n * fan == fan * n) by (nonlinear_arith);
        k + shift
    }
}

} // verus!
