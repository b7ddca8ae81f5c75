//! The lighting state of one wireless bank.

use vstd::prelude::*;
use vstd::arithmetic::div_mod::lemma_fundamental_div_mod;
use crate::action::{frames_view, unit_view, Action, ActionView, ErrorView, RgbError};
use crate::effect::{
    all_black, black, copy_colors, effect_index, effect_index_from_state, is_black,
    pattern_is_animated, render_zone_color, spec_is_animated, zone_color, BreathingTable,
    EffectView, RgbEffect, COMPOSITE_FRAMES, COMPOSITE_INTERVAL_MS,
};
use crate::fan_type::{FanProfile, Layout};
use crate::vec_map::{lemma_zip_at, VecMap};
use crate::zones::{
    law_zone_in_bounds, law_zones_disjoint, lemma_leds_before_monotone, lemma_part_bounds,
    lemma_split_zone,
};

verus! {

/// How often the header of a one-shot upload is sent. The radio protocol has
/// no acknowledgements, so repetition stands in for them.
pub const ONE_SHOT_HEADER_REPEATS: u8 = 8;

/// How often the header of a frame in a stream is sent: the next frame makes
/// up for a lost one.
pub const STREAM_HEADER_REPEATS: u8 = 2;

/// What a bank shows.
pub struct WirelessRgbState {
    pub mac: [u8; 6],
    pub fan_count: u8,
    pub leds_per_fan: u8,
    pub profile: FanProfile,
    /// The color of each LED of the bank; where a zone breathes, the color
    /// that it breathes in.
    pub led_state: Vec<[u8; 3]>,
    /// The zones that are animated.
    pub sub_zone_effects: VecMap<u8, RgbEffect>,
}

/// The mathematical content of a [`WirelessRgbState`].
#[verifier::ext_equal]
pub struct BankView {
    pub mac: [u8; 6],
    pub fan_count: u8,
    pub layout: Layout,
    pub leds: Seq<[u8; 3]>,
    pub effects: Map<u8, EffectView>,
}

impl View for WirelessRgbState {
    type V = BankView;

    open spec fn view(&self) -> BankView {
        BankView {
            mac: self.mac,
            fan_count: self.fan_count,
            layout: self.profile@,
            leds: self.led_state@,
            effects: self.sub_zone_effects@.map_values(|e: RgbEffect| e@),
        }
    }
}

/// `leds` with `colors` laid over the `n` LEDs from `start` on.
pub open spec fn paste(leds: Seq<[u8; 3]>, start: int, n: int, colors: Seq<[u8; 3]>) -> Seq<
    [u8; 3],
> {
    Seq::new(
        leds.len(),
        |p: int|
            if start <= p < start + n {
                colors[p - start]
            } else {
                leds[p]
            },
    )
}

/// `leds` with the `n` LEDs from `start` on in one color.
pub open spec fn fill(leds: Seq<[u8; 3]>, start: int, n: int, color: [u8; 3]) -> Seq<[u8; 3]> {
    Seq::new(
        leds.len(),
        |p: int|
            if start <= p < start + n {
                color
            } else {
                leds[p]
            },
    )
}

pub open spec fn min_int(a: int, b: int) -> int {
    if a < b {
        a
    } else {
        b
    }
}

impl BankView {
    /// A bank without any light.
    pub open spec fn fresh(mac: [u8; 6], fan_count: u8, layout: Layout) -> BankView {
        BankView {
            mac,
            fan_count,
            layout,
            leds: Seq::new(layout.total_leds(fan_count as nat), |p: int| black()),
            effects: Map::empty(),
        }
    }

    /// The buffer has one color for each LED, and whatever is kept as an
    /// effect is animated and belongs to a zone of the bank.
    pub open spec fn wf(self) -> bool {
        &&& self.layout.wf()
        &&& self.leds.len() == self.layout.total_leds(self.fan_count as nat)
        &&& forall|z: u8| #[trigger]
            self.effects.contains_key(z) ==> {
                &&& z < self.layout.total_zones(self.fan_count as nat)
                &&& spec_is_animated(self.effects[z].mode)
            }
    }

    pub open spec fn slice(self, zone: int) -> Option<(int, int)> {
        self.layout.zone_slice(self.fan_count as nat, zone)
    }

    pub open spec fn in_zone(self, zone: int, p: int) -> bool {
        self.layout.in_zone(self.fan_count as nat, zone, p)
    }

    pub open spec fn zone_error(self, zone: u8) -> ErrorView {
        ErrorView::ZoneOutOfRange {
            zone,
            total_zones: self.layout.total_zones(self.fan_count as nat),
            fan_type: self.layout.fan_type,
            fan_count: self.fan_count,
        }
    }

    /// The colors of a zone, if the bank has it.
    pub open spec fn zone_leds(self, zone: u8) -> Option<Seq<[u8; 3]>> {
        match self.slice(zone as int) {
            Some((start, len)) => Some(self.leds.subrange(start, start + len)),
            None => None,
        }
    }

    /// The bank once an effect has been set on a zone. A still effect colors
    /// the zone. An animated one keeps the colors that the zone has, and
    /// brings its own only where the zone is dark.
    pub open spec fn with_effect(self, zone: u8, e: EffectView) -> Option<BankView> {
        match self.slice(zone as int) {
            None => None,
            Some((start, len)) => {
                let keep = spec_is_animated(e.mode) && !all_black(
                    self.leds.subrange(start, start + len),
                );
                Some(
                    BankView {
                        leds: if keep {
                            self.leds
                        } else {
                            fill(self.leds, start, len, zone_color(e))
                        },
                        effects: if spec_is_animated(e.mode) {
                            self.effects.insert(zone, e)
                        } else {
                            self.effects.remove(zone)
                        },
                        ..self
                    },
                )
            },
        }
    }

    /// The bank once colors have been written to a zone: they replace the
    /// zone's first LEDs, as far as both reach, and end its animation.
    pub open spec fn with_colors(self, zone: u8, colors: Seq<[u8; 3]>) -> Option<BankView> {
        match self.slice(zone as int) {
            None => None,
            Some((start, len)) => Some(
                BankView {
                    leds: paste(self.leds, start, min_int(colors.len() as int, len), colors),
                    effects: self.effects.remove(zone),
                    ..self
                },
            ),
        }
    }

    /// Whether LED `p` lies in an animated zone.
    pub open spec fn is_animated_led(self, p: int) -> bool {
        exists|z: u8| #[trigger] self.effects.contains_key(z) && self.in_zone(z as int, p)
    }

    /// The animated zone in which LED `p` lies.
    pub open spec fn zone_of(self, p: int) -> u8 {
        choose|z: u8| #[trigger] self.effects.contains_key(z) && self.in_zone(z as int, p)
    }

    /// The color of LED `p` in a frame of the composite.
    pub open spec fn frame_pixel(self, table: BreathingTable, frame: int, p: int) -> [u8; 3] {
        if self.is_animated_led(p) {
            table.breathe(self.effects[self.zone_of(p)], frame, self.leds[p])
        } else {
            self.leds[p]
        }
    }

    /// The loop of frames that shows every zone at once: LEDs outside of the
    /// animated zones stand still, and each LED inside breathes its own color.
    pub open spec fn composite(self, table: BreathingTable) -> Seq<Seq<[u8; 3]>> {
        Seq::new(
            COMPOSITE_FRAMES as nat,
            |f: int| Seq::new(self.leds.len(), |p: int| self.frame_pixel(table, f, p)),
        )
    }

    /// One frame with the state of the LEDs.
    pub open spec fn direct_upload(self, repeats: u8) -> ActionView {
        ActionView::SendDirect {
            mac: self.mac,
            leds: self.leds,
            effect_index: effect_index(self.leds),
            repeats,
        }
    }

    /// What brings the bank to show this state: one frame where nothing is
    /// animated, else one composite.
    pub open spec fn upload(self, table: BreathingTable) -> ActionView {
        if self.effects =~= Map::<u8, EffectView>::empty() {
            self.direct_upload(ONE_SHOT_HEADER_REPEATS)
        } else {
            ActionView::SendFrames {
                mac: self.mac,
                frames: self.composite(table),
                interval_ms: COMPOSITE_INTERVAL_MS,
                effect_index: effect_index(self.leds),
                repeats: ONE_SHOT_HEADER_REPEATS,
            }
        }
    }

    /// Whether nothing has been lit on the bank yet.
    pub open spec fn is_untouched(self) -> bool {
        self.effects =~= Map::<u8, EffectView>::empty() && all_black(self.leds)
    }
}

impl WirelessRgbState {
    pub open spec fn wf(&self) -> bool {
        &&& self.sub_zone_effects.wf()
        &&& self.leds_per_fan == self.profile.leds_per_fan
        &&& self@.wf()
    }

    /// A bank without any light.
    pub fn new(mac: [u8; 6], fan_count: u8, profile: FanProfile) -> (r: Self)
        requires
            profile@.wf(),
        ensures
            r.wf(),
            r@ == BankView::fresh(mac, fan_count, profile@),
    {
        proof {
            assert(fan_count * profile.leds_per_fan <= 255 * 255) by (nonlinear_arith)
                requires
                    fan_count <= 255,
                    profile.leds_per_fan <= 255,
            ;
        }
        let total: usize = match profile.total_led_count_override {
            Some(n) => n as usize,
            None => profile.pump_led_count as usize + fan_count as usize
                * profile.leds_per_fan as usize,
        };
        let mut led_state: Vec<[u8; 3]> = Vec::new();
        let mut i: usize = 0;
        while i < total
            invariant
                i <= total,
                led_state@ =~= Seq::new(i as nat, |p: int| black()),
            decreases total - i,
        {
            let dark: [u8; 3] = [0, 0, 0];
            proof {
                assert(dark =~= black());
            }
            led_state.push(dark);
            i += 1;
        }
        let r = WirelessRgbState {
            mac,
            fan_count,
            leds_per_fan: profile.leds_per_fan,
            profile,
            led_state,
            sub_zone_effects: VecMap::new(),
        };
        proof {
            assert(r@ =~= BankView::fresh(mac, fan_count, profile@));
        }
        r
    }
}

/// Where a zone lies in the LED buffer of a bank: its first LED and its
/// length.
pub fn wireless_zone_slice(state: &WirelessRgbState, zone_idx: usize) -> (r: Option<(usize, usize)>)
    requires
        state.wf(),
    ensures
        match r {
            Some((start, len)) => state@.slice(zone_idx as int) == Some((start as int, len as int)),
            None => state@.slice(zone_idx as int) is None,
        },
        r matches Some((start, len)) ==> start + len <= state@.leds.len(),
{
    let ghost l = state.profile@;
    let ghost fc = state.fan_count as nat;
    proof {
        law_zone_in_bounds(l, fc, zone_idx as int);
    }
    if state.profile.total_led_count_override.is_some() {
        return if zone_idx == 0 {
            Some((0, state.led_state.len()))
        } else {
            None
        };
    }
    let aio = state.profile.fan_type.is_aio();
    let parts: usize = state.profile.sub_zones.len();
    proof {
        assert(fc * parts >= 0) by (nonlinear_arith);
        assert(l.sub_zones.len() == parts);
    }
    let pump: usize = if aio {
        state.profile.pump_led_count as usize
    } else {
        0
    };
    if aio && zone_idx == 0 {
        return Some((0, pump));
    }
    let k: usize = if aio {
        zone_idx - 1
    } else {
        zone_idx
    };
    let fan: usize = k / parts;
    let part: usize = k % parts;
    proof {
        lemma_fundamental_div_mod(k as int, parts as int);
    }
    if fan >= state.fan_count as usize {
        proof {
            assert(k >= fc * parts) by (nonlinear_arith)
                requires
                    k == parts * fan + part,
                    fan >= fc,
                    part >= 0,
                    parts >= 1,
            ;
        }
        return None;
    }
    proof {
        assert(k < fc * parts) by (nonlinear_arith)
            requires
                k == parts * fan + part,
                0 <= fan < fc,
                0 <= part < parts,
        ;
        lemma_split_zone(k as int, parts as int, fc as int);
        lemma_part_bounds(l, fc, fan as int, part as int);
        assert(fan * state.leds_per_fan <= 255 * 255) by (nonlinear_arith)
            requires
                0 <= fan < fc <= 255,
                0 <= state.leds_per_fan <= 255,
        ;
        lemma_leds_before_monotone(l, part as nat, l.sub_zones.len());
    }
    let mut before: usize = 0;
    let mut i: usize = 0;
    while i < part
        invariant
            i <= part < state.profile.sub_zones@.len(),
            l == state.profile@,
            before == l.leds_before(i as nat),
            l.leds_before(part as nat) <= 255,
        decreases part - i,
    {
        proof {
            assert(l.sub_zones[i as int] == state.profile.sub_zones@[i as int]@);
            lemma_leds_before_monotone(l, (i + 1) as nat, part as nat);
        }
        before += state.profile.sub_zones[i].led_count as usize;
        i += 1;
    }
    proof {
        assert(l.sub_zones[part as int] == state.profile.sub_zones@[part as int]@);
    }
    let len: usize = state.profile.sub_zones[part].led_count as usize;
    let start: usize = pump + fan * state.leds_per_fan as usize + before;
    Some((start, len))
}

/// How many zones a bank has.
pub fn wireless_total_zones(state: &WirelessRgbState) -> (r: usize)
    requires
        state.wf(),
    ensures
        r == state@.layout.total_zones(state.fan_count as nat),
{
    if state.profile.total_led_count_override.is_some() {
        return 1;
    }
    let parts: usize = state.profile.sub_zones.len();
    proof {
        assert(state.fan_count * parts <= 255 * 255) by (nonlinear_arith)
            requires
                state.fan_count <= 255,
                parts <= 255,
        ;
    }
    let pump: usize = if state.profile.fan_type.is_aio() {
        1
    } else {
        0
    };
    pump + state.fan_count as usize * parts
}

fn slice_is_blank(leds: &Vec<[u8; 3]>, start: usize, len: usize) -> (r: bool)
    requires
        start + len <= leds@.len(),
    ensures
        r == all_black(leds@.subrange(start as int, start + len)),
{
    let ghost sub = leds@.subrange(start as int, start + len);
    let mut i: usize = 0;
    while i < len
        invariant
            i <= len,
            start + len <= leds.len(),
            sub == leds@.subrange(start as int, start + len),
            forall|j: int| 0 <= j < i ==> #[trigger] sub[j] == black(),
        decreases len - i,
    {
        if !is_black(&leds[start + i]) {
            proof {
                assert(sub[i as int] != black());
            }
            return false;
        }
        i += 1;
    }
    true
}

/// Writes the first `n` of `colors` to the LEDs from `start` on.
fn write_colors(leds: &mut Vec<[u8; 3]>, start: usize, n: usize, colors: &[[u8; 3]])
    requires
        start + n <= old(leds)@.len(),
        n <= colors@.len(),
    ensures
        final(leds)@ == paste(old(leds)@, start as int, n as int, colors@),
{
    let ghost before = leds@;
    let mut i: usize = 0;
    while i < n
        invariant
            i <= n,
            n <= colors@.len(),
            start + n <= before.len(),
            leds.len() == before.len(),
            leds@ =~= paste(before, start as int, i as int, colors@),
        decreases n - i,
    {
        leds[start + i] = colors[i];
        i += 1;
    }
}

/// Sets an effect on a zone of a bank, without sending anything.
pub fn apply_zone_effect_state(state: &mut WirelessRgbState, zone: u8, effect: &RgbEffect) -> (r:
    Result<(), RgbError>)
    requires
        old(state).wf(),
    ensures
        final(state).wf(),
        match old(state)@.with_effect(zone, effect@) {
            Some(b) => r is Ok && final(state)@ == b,
            None => {
                &&& final(state)@ == old(state)@
                &&& unit_view(r) == Err::<(), ErrorView>(old(state)@.zone_error(zone))
            },
        },
{
    let ghost before = state@;
    let total_zones: usize = wireless_total_zones(state);
    let (start, len): (usize, usize) = match wireless_zone_slice(state, zone as usize) {
        Some(s) => s,
        None => {
            return Err(
                RgbError::ZoneOutOfRange {
                    zone,
                    total_zones,
                    fan_type: state.profile.fan_type,
                    fan_count: state.fan_count,
                },
            );
        },
    };
    let animated = pattern_is_animated(effect.mode);
    if !animated || slice_is_blank(&state.led_state, start, len) {
        let color = render_zone_color(effect, len);
        write_colors(&mut state.led_state, start, len, &color);
        proof {
            assert(state.led_state@ =~= fill(before.leds, start as int, len as int, zone_color(effect@)));
        }
    }
    let ghost effects = state.sub_zone_effects@;
    if animated {
        state.sub_zone_effects.insert(zone, effect.clone());
    } else {
        state.sub_zone_effects.remove(&zone);
    }
    proof {
        law_zone_in_bounds(before.layout, before.fan_count as nat, zone as int);
        assert(state@ =~= before.with_effect(zone, effect@)->0);
    }
    Ok(())
}

/// Writes colors to a zone of a bank, without sending anything.
pub fn apply_zone_colors_state(state: &mut WirelessRgbState, zone: u8, colors: &[[u8; 3]]) -> (r:
    Result<(), RgbError>)
    requires
        old(state).wf(),
    ensures
        final(state).wf(),
        match old(state)@.with_colors(zone, colors@) {
            Some(b) => r is Ok && final(state)@ == b,
            None => {
                &&& final(state)@ == old(state)@
                &&& unit_view(r) == Err::<(), ErrorView>(old(state)@.zone_error(zone))
            },
        },
{
    let ghost before = state@;
    let total_zones: usize = wireless_total_zones(state);
    let (start, len): (usize, usize) = match wireless_zone_slice(state, zone as usize) {
        Some(s) => s,
        None => {
            return Err(
                RgbError::ZoneOutOfRange {
                    zone,
                    total_zones,
                    fan_type: state.profile.fan_type,
                    fan_count: state.fan_count,
                },
            );
        },
    };
    let n: usize = if colors.len() < len {
        colors.len()
    } else {
        len
    };
    write_colors(&mut state.led_state, start, n, colors);
    state.sub_zone_effects.remove(&zone);
    proof {
        assert(state@ =~= before.with_colors(zone, colors@)->0);
    }
    Ok(())
}

/// Breathes the LEDs from `start` on in one frame: each shows what breathing
/// makes of the color that it has in `base`.
fn paint_breathing(
    frame: &mut Vec<[u8; 3]>,
    base: &Vec<[u8; 3]>,
    table: &BreathingTable,
    effect: &RgbEffect,
    index: usize,
    start: usize,
    len: usize,
)
    requires
        table.wf(),
        index < COMPOSITE_FRAMES,
        old(frame)@.len() == base@.len(),
        start + len <= base@.len(),
    ensures
        final(frame)@.len() == base@.len(),
        forall|p: int|
            0 <= p < base@.len() ==> #[trigger] final(frame)@[p] == if start <= p < start + len {
                table.breathe(effect@, index as int, base@[p])
            } else {
                old(frame)@[p]
            },
{
    let ghost before = frame@;
    let mut i: usize = 0;
    while i < len
        invariant
            table.wf(),
            index < COMPOSITE_FRAMES,
            i <= len,
            start + len <= base.len(),
            frame@.len() == base@.len(),
            before.len() == base@.len(),
            forall|p: int|
                0 <= p < base@.len() ==> #[trigger] frame@[p] == if start <= p < start + i {
                    table.breathe(effect@, index as int, base@[p])
                } else {
                    before[p]
                },
        decreases len - i,
    {
        let c: [u8; 3] = base[start + i];
        let shown: [u8; 3] = [
            table.level(effect.speed, effect.brightness, index, c[0]),
            table.level(effect.speed, effect.brightness, index, c[1]),
            table.level(effect.speed, effect.brightness, index, c[2]),
        ];
        proof {
            assert(shown =~= table.breathe(effect@, index as int, c));
        }
        frame[start + i] = shown;
        i += 1;
    }
}

/// One frame of the composite.
fn render_frame(state: &WirelessRgbState, table: &BreathingTable, index: usize) -> (r: Vec<[u8; 3]>)
    requires
        state.wf(),
        table.wf(),
        index < COMPOSITE_FRAMES,
    ensures
        r@ == Seq::new(state@.leds.len(), |p: int| state@.frame_pixel(*table, index as int, p)),
{
    let mut frame = copy_colors(&state.led_state);
    let ghost b = state@;
    let ghost ids = state.sub_zone_effects.ids();
    let ghost vals = state.sub_zone_effects.vals();
    let mut k: usize = 0;
    while k < state.sub_zone_effects.len()
        invariant
            state.wf(),
            table.wf(),
            index < COMPOSITE_FRAMES,
            b == state@,
            ids == state.sub_zone_effects.ids(),
            vals == state.sub_zone_effects.vals(),
            k <= ids.len(),
            frame@.len() == b.leds.len(),
            forall|i: int, p: int|
                0 <= i < k && 0 <= p < b.leds.len() && #[trigger] b.in_zone(ids[i] as int, p)
                    ==> frame@[p] == table.breathe(vals[i]@, index as int, b.leds[p]),
            forall|p: int|
                0 <= p < b.leds.len() && (forall|i: int|
                    0 <= i < k ==> !#[trigger] b.in_zone(ids[i] as int, p)) ==> #[trigger] frame@[p]
                    == b.leds[p],
        decreases ids.len() - k,
    {
        let zone: u8 = *state.sub_zone_effects.key_at(k);
        let effect = state.sub_zone_effects.value_at(k);
        proof {
            assert(b.effects.contains_key(zone));
        }
        if let Some((start, len)) = wireless_zone_slice(state, zone as usize) {
            let ghost before = frame@;
            paint_breathing(&mut frame, &state.led_state, table, effect, index, start, len);
            proof {
                assert forall|i: int, p: int|
                    0 <= i < k + 1 && 0 <= p < b.leds.len() && #[trigger] b.in_zone(
                        ids[i] as int,
                        p,
                    ) implies frame@[p] == table.breathe(vals[i]@, index as int, b.leds[p]) by {
                    if i < k && start <= p < start + len {
                        law_zones_disjoint(
                            b.layout,
                            b.fan_count as nat,
                            ids[i] as int,
                            ids[k as int] as int,
                            p,
                        );
                    }
                }
                assert forall|p: int|
                    0 <= p < b.leds.len() && (forall|i: int|
                        0 <= i < k + 1 ==> !#[trigger] b.in_zone(
                            ids[i] as int,
                            p,
                        )) implies #[trigger] frame@[p] == b.leds[p] by {
                    assert(!b.in_zone(ids[k as int] as int, p));
                    assert(before[p] == b.leds[p]);
                }
            }
        }
        k += 1;
    }
    proof {
        assert forall|p: int| 0 <= p < b.leds.len() implies #[trigger] frame@[p] == b.frame_pixel(
            *table,
            index as int,
            p,
        ) by {
            if b.is_animated_led(p) {
                let z = b.zone_of(p);
                assert(b.effects.contains_key(z) && b.in_zone(z as int, p));
                let i = choose|i: int| 0 <= i < ids.len() && ids[i] == z;
                lemma_zip_at(ids, vals, i);
                assert(b.in_zone(ids[i] as int, p));
            } else {
                assert forall|i: int| 0 <= i < ids.len() implies !#[trigger] b.in_zone(
                    ids[i] as int,
                    p,
                ) by {
                    assert(ids.contains(ids[i]));
                    assert(b.effects.contains_key(ids[i]));
                }
            }
        }
        assert(frame@ =~= Seq::new(b.leds.len(), |p: int| b.frame_pixel(*table, index as int, p)));
    }
    frame
}

/// The loop of frames that shows every zone of a bank at once, and how long
/// each frame is shown.
pub fn render_composite_frames(state: &WirelessRgbState, table: &BreathingTable) -> (r: (
    Vec<Vec<[u8; 3]>>,
    u16,
))
    requires
        state.wf(),
        table.wf(),
    ensures
        frames_view(r.0@) == state@.composite(*table),
        r.1 == COMPOSITE_INTERVAL_MS,
{
    let mut frames: Vec<Vec<[u8; 3]>> = Vec::new();
    let mut f: usize = 0;
    while f < COMPOSITE_FRAMES
        invariant
            state.wf(),
            table.wf(),
            f <= COMPOSITE_FRAMES,
            frames@.len() == f,
            forall|i: int|
                0 <= i < f ==> (#[trigger] frames@[i])@ == state@.composite(*table)[i],
        decreases COMPOSITE_FRAMES - f,
    {
        frames.push(render_frame(state, table, f));
        f += 1;
    }
    proof {
        assert(frames_view(frames@) =~= state@.composite(*table));
    }
    (frames, COMPOSITE_INTERVAL_MS)
}

/// What sends a bank's LEDs as one frame.
pub fn direct_upload(state: &WirelessRgbState, repeats: u8) -> (r: Action)
    ensures
        r@ == state@.direct_upload(repeats),
{
    Action::SendDirect {
        mac: state.mac,
        leds: copy_colors(&state.led_state),
        effect_index: effect_index_from_state(&state.led_state),
        repeats,
    }
}

/// What brings a bank to show its state.
pub fn upload_wireless_state(state: &WirelessRgbState, table: &BreathingTable) -> (r: Action)
    requires
        state.wf(),
        table.wf(),
    ensures
        r@ == state@.upload(*table),
{
    let ghost m = state.sub_zone_effects@;
    if state.sub_zone_effects.len() == 0 {
        proof {
            assert(state@.effects =~= Map::<u8, EffectView>::empty());
        }
        direct_upload(state, ONE_SHOT_HEADER_REPEATS)
    } else {
        proof {
            let z = state.sub_zone_effects.ids()[0];
            assert(state.sub_zone_effects.ids().contains(z));
            assert(state@.effects.contains_key(z));
        }
        let (frames, interval_ms): (Vec<Vec<[u8; 3]>>, u16) = render_composite_frames(state, table);
        Action::SendFrames {
            mac: state.mac,
            frames,
            interval_ms,
            effect_index: effect_index_from_state(&state.led_state),
            repeats: ONE_SHOT_HEADER_REPEATS,
        }
    }
}

/// Whether nothing has been lit on a bank yet.
pub fn is_untouched(state: &WirelessRgbState) -> (r: bool)
    requires
        state.wf(),
    ensures
        r == state@.is_untouched(),
{
    if state.sub_zone_effects.len() != 0 {
        proof {
            let z = state.sub_zone_effects.ids()[0];
            assert(state.sub_zone_effects.ids().contains(z));
            assert(state@.effects.contains_key(z));
        }
        return false;
    }
    proof {
        assert(state@.effects =~= Map::<u8, EffectView>::empty());
        assert(state.led_state@.subrange(0, state.led_state@.len() as int) =~= state.led_state@);
    }
    slice_is_blank(&state.led_state, 0, state.led_state.len())
}

} // verus!
