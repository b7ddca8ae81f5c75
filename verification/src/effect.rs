//! Lighting effects: their colors, their pace, and the mark by which a bank
//! reports which one it shows.

use vstd::prelude::*;
use vstd::arithmetic::div_mod::{lemma_fundamental_div_mod_converse, lemma_mul_mod_noop_left};

verus! {

/// The lighting modes.
#[derive(Debug, Clone, Copy, PartialEq, Eq, Structural)]
pub enum RgbMode {
    Off,
    Static,
    Direct,
    Breathing,
    Flashing,
    Rainbow,
    RainbowMorph,
    ColorCycle,
    SpectrumCycle,
    Chase,
    ChaseFade,
    RandomFlicker,
    /// A mode that only a wired device knows, by the number it gives it.
    Other(u16),
}

/// An effect as a user sets it.
#[derive(Debug, PartialEq, Eq)]
pub struct RgbEffect {
    pub mode: RgbMode,
    pub colors: Vec<[u8; 3]>,
    /// From 0, the slowest, to 4, the fastest.
    pub speed: u8,
    /// From 0, dark, to 4, full.
    pub brightness: u8,
    /// The way in which a moving pattern runs, as the device numbers it.
    pub direction: u8,
}

/// The mathematical content of an [`RgbEffect`].
pub struct EffectView {
    pub mode: RgbMode,
    pub colors: Seq<[u8; 3]>,
    pub speed: u8,
    pub brightness: u8,
    pub direction: u8,
}

impl View for RgbEffect {
    type V = EffectView;

    open spec fn view(&self) -> EffectView {
        EffectView {
            mode: self.mode,
            colors: self.colors@,
            speed: self.speed,
            brightness: self.brightness,
            direction: self.direction,
        }
    }
}

pub fn copy_colors(colors: &[[u8; 3]]) -> (r: Vec<[u8; 3]>)
    ensures
        r@ == colors@,
{
    let mut r: Vec<[u8; 3]> = Vec::new();
    let mut i: usize = 0;
    while i < colors.len()
        invariant
            i <= colors@.len(),
            r@ == colors@.take(i as int),
        decreases colors@.len() - i,
    {
        r.push(colors[i]);
        proof {
            assert(colors@.take(i + 1) =~= colors@.take(i as int).push(colors@[i as int]));
        }
        i += 1;
    }
    proof {
        assert(colors@.take(i as int) =~= colors@);
    }
    r
}

impl Clone for RgbEffect {
    fn clone(&self) -> (r: Self)
        ensures
            r@ == self@,
    {
        RgbEffect {
            mode: self.mode,
            colors: copy_colors(&self.colors),
            speed: self.speed,
            brightness: self.brightness,
            direction: self.direction,
        }
    }
}

pub open spec fn spec_is_animated(mode: RgbMode) -> bool {
    mode is Breathing
}

/// Whether a bank plays the mode as a sequence of frames.
pub fn pattern_is_animated(mode: RgbMode) -> (r: bool)
    ensures
        r == spec_is_animated(mode),
{
    match mode {
        RgbMode::Breathing => true,
        _ => false,
    }
}

pub open spec fn black() -> [u8; 3] {
    [0u8, 0u8, 0u8]
}

pub fn is_black(c: &[u8; 3]) -> (r: bool)
    ensures
        r == (*c == black()),
{
    let r = c[0] == 0 && c[1] == 0 && c[2] == 0;
    proof {
        if r {
            assert(*c =~= black());
        }
    }
    r
}

/// Whether no LED of `leds` is lit.
pub open spec fn all_black(leds: Seq<[u8; 3]>) -> bool {
    forall|i: int| 0 <= i < leds.len() ==> #[trigger] leds[i] == black()
}

/// A brightness as the number of quarters of full light that it gives.
pub open spec fn quarters(brightness: u8) -> int {
    if brightness < 4 {
        brightness as int
    } else {
        4
    }
}

pub open spec fn scale_channel(v: u8, brightness: u8) -> u8 {
    (v * quarters(brightness) / 4) as u8
}

pub open spec fn scale_color(c: [u8; 3], brightness: u8) -> [u8; 3] {
    [
        scale_channel(c[0], brightness),
        scale_channel(c[1], brightness),
        scale_channel(c[2], brightness),
    ]
}

/// The color that an effect gives every LED of a zone: black when it is off,
/// else its first color (white where it names none), at its brightness.
pub open spec fn zone_color(e: EffectView) -> [u8; 3] {
    if e.mode is Off {
        black()
    } else if e.colors.len() > 0 {
        scale_color(e.colors[0], e.brightness)
    } else {
        scale_color([255u8, 255u8, 255u8], e.brightness)
    }
}

/// At full brightness a color is shown as it is, at none as black.
pub proof fn law_brightness_ends(c: [u8; 3], brightness: u8)
    ensures
        brightness >= 4 ==> scale_color(c, brightness) == c,
        brightness == 0 ==> scale_color(c, brightness) == black(),
{
    if brightness >= 4 {
        assert(scale_color(c, brightness) =~= c);
    }
    if brightness == 0 {
        assert forall|v: u8| #[trigger] scale_channel(v, brightness) == 0 by {
            assert(v * 0 == 0);
        }
        assert(scale_color(c, brightness) =~= black());
    }
}

fn scaled(v: u8, brightness: u8) -> (r: u8)
    ensures
        r == scale_channel(v, brightness),
{
    let q: u16 = if brightness < 4 {
        brightness as u16
    } else {
        4
    };
    proof {
        assert(0 <= v * q <= 255 * 4) by (nonlinear_arith)
            requires
                0 <= v <= 255,
                0 <= q <= 4,
        ;
    }
    ((v as u16 * q) / 4) as u8
}

/// The colors of a zone of `led_count` LEDs under a uniform effect.
pub fn render_zone_color(effect: &RgbEffect, led_count: usize) -> (r: Vec<[u8; 3]>)
    ensures
        r@ == Seq::new(led_count as nat, |i: int| zone_color(effect@)),
{
    let color: [u8; 3] = match effect.mode {
        RgbMode::Off => [0, 0, 0],
        _ => {
            let base: [u8; 3] = if effect.colors.len() > 0 {
                effect.colors[0]
            } else {
                [255, 255, 255]
            };
            [
                scaled(base[0], effect.brightness),
                scaled(base[1], effect.brightness),
                scaled(base[2], effect.brightness),
            ]
        },
    };
    proof {
        assert(color =~= zone_color(effect@));
    }
    let mut r: Vec<[u8; 3]> = Vec::new();
    let mut i: usize = 0;
    while i < led_count
        invariant
            i <= led_count,
            color == zone_color(effect@),
            r@ =~= Seq::new(i as nat, |j: int| zone_color(effect@)),
        decreases led_count - i,
    {
        r.push(color);
        i += 1;
    }
    r
}

/// Frames of one composite upload, and how long each is shown: a loop of
/// twelve seconds.
pub const COMPOSITE_FRAMES: usize = 480;

pub const COMPOSITE_INTERVAL_MS: u16 = 25;

pub open spec fn spec_breathing_cycles(speed: u8) -> nat {
    if speed == 0 {
        1
    } else if speed == 1 {
        2
    } else if speed == 2 {
        4
    } else if speed == 3 {
        6
    } else {
        12
    }
}

/// How many breaths fit into one loop.
pub fn breathing_cycles_per_window(speed: u8) -> (r: u32)
    ensures
        r == spec_breathing_cycles(speed),
{
    match speed {
        0 => 1,
        1 => 2,
        2 => 4,
        3 => 6,
        _ => 12,
    }
}

/// A loop holds a whole number of breaths, and each breath a whole number of
/// frames, so that the loop closes without a jump.
pub proof fn law_breathing_closes(speed: u8)
    ensures
        spec_breathing_cycles(speed) > 0,
        COMPOSITE_FRAMES as nat % spec_breathing_cycles(speed) == 0,
{
}

/// A higher speed never breathes more slowly.
pub proof fn law_breathing_monotone(slow: u8, fast: u8)
    requires
        slow <= fast,
    ensures
        spec_breathing_cycles(slow) <= spec_breathing_cycles(fast),
{
}

/// The number of levels in a [`BreathingTable`]: for each of five speeds and
/// five brightnesses, each frame, and each value of a color channel, one.
pub const BREATHING_LEVELS: usize = 3_072_000;

/// What breathing makes of a color channel: the value that it shows in each
/// frame, at each speed and brightness. The curve itself is the caller's.
pub struct BreathingTable {
    levels: Vec<u8>,
}

/// The step of a setting that counts from 0 to 4.
pub open spec fn step(setting: u8) -> int {
    if setting < 4 {
        setting as int
    } else {
        4
    }
}

/// Where a [`BreathingTable`] holds the level of a channel value.
pub open spec fn level_index(speed: u8, brightness: u8, frame: int, value: u8) -> int {
    ((step(speed) * 5 + step(brightness)) * 480 + frame) * 256 + value
}

/// How far a breath has come in a frame, in parts of 480.
pub open spec fn breath_phase(speed: u8, frame: int) -> int {
    (frame * spec_breathing_cycles(speed)) % 480
}

/// The level of a channel of value `value` in a frame, from the levels of a
/// table.
pub open spec fn level_of(
    levels: Seq<u8>,
    speed: u8,
    brightness: u8,
    frame: int,
    value: u8,
) -> u8 {
    levels[level_index(speed, brightness, frame, value)]
}

/// Whether one level is one of a breath: never above the channel at the
/// effect's brightness, dark where a breath begins, and at that brightness in
/// the middle of it.
pub open spec fn level_breathes(
    levels: Seq<u8>,
    speed: u8,
    brightness: u8,
    frame: int,
    value: u8,
) -> bool {
    let level = level_of(levels, speed, brightness, frame, value);
    let phase = breath_phase(speed, frame);
    &&& level <= scale_channel(value, brightness)
    &&& phase == 0 ==> level == 0
    &&& phase == 240 ==> level == scale_channel(value, brightness)
}

/// Whether levels are those of breaths: each loop swells from darkness to the
/// effect's brightness as often as the speed says.
pub open spec fn is_breath(levels: Seq<u8>) -> bool {
    forall|speed: u8, brightness: u8, frame: int, value: u8|
        0 <= frame < COMPOSITE_FRAMES ==> #[trigger] level_breathes(
            levels,
            speed,
            brightness,
            frame,
            value,
        )
}

impl BreathingTable {
    pub closed spec fn levels(&self) -> Seq<u8> {
        self.levels@
    }

    /// Whether the table has as many levels as it needs.
    pub open spec fn sized(&self) -> bool {
        self.levels().len() == BREATHING_LEVELS
    }

    /// The table is complete, and its levels are those of breaths.
    pub open spec fn wf(&self) -> bool {
        self.sized() && is_breath(self.levels())
    }

    /// The level of a channel of value `value` in a frame.
    pub open spec fn spec_level(&self, speed: u8, brightness: u8, frame: int, value: u8) -> u8 {
        level_of(self.levels(), speed, brightness, frame, value)
    }

    /// What breathing makes of a color in a frame.
    pub open spec fn breathe(&self, e: EffectView, frame: int, c: [u8; 3]) -> [u8; 3] {
        [
            self.spec_level(e.speed, e.brightness, frame, c[0]),
            self.spec_level(e.speed, e.brightness, frame, c[1]),
            self.spec_level(e.speed, e.brightness, frame, c[2]),
        ]
    }

    /// Takes the levels of a table, if they are complete and those of breaths.
    pub fn from_levels(levels: Vec<u8>) -> (r: Option<Self>)
        ensures
            r is Some <==> levels@.len() == BREATHING_LEVELS && is_breath(levels@),
            r matches Some(t) ==> t.wf() && t.levels() == levels@,
    {
        if levels.len() != BREATHING_LEVELS {
            return None;
        }
        let t = BreathingTable { levels };
        if t.breathes() {
            Some(t)
        } else {
            None
        }
    }

    pub fn level(&self, speed: u8, brightness: u8, frame: usize, value: u8) -> (r: u8)
        requires
            self.sized(),
            frame < COMPOSITE_FRAMES,
        ensures
            r == self.spec_level(speed, brightness, frame as int, value),
    {
        let s: usize = if speed < 4 {
            speed as usize
        } else {
            4
        };
        let b: usize = if brightness < 4 {
            brightness as usize
        } else {
            4
        };
        self.levels[((s * 5 + b) * 480 + frame) * 256 + value as usize]
    }

    /// Whether the levels of a frame are those of a breath.
    fn frame_breathes(&self, speed: u8, brightness: u8, frame: usize) -> (r: bool)
        requires
            self.sized(),
            frame < COMPOSITE_FRAMES,
        ensures
            r == (forall|value: u8| #[trigger]
                level_breathes(self.levels(), speed, brightness, frame as int, value)),
    {
        let cycles: u32 = breathing_cycles_per_window(speed);
        proof {
            assert(0 <= frame * cycles <= 480 * 12) by (nonlinear_arith)
                requires
                    frame <= 480,
                    cycles <= 12,
            ;
        }
        let phase: u32 = (frame as u32 * cycles) % 480;
        let mut value: u16 = 0;
        while value < 256
            invariant
                self.sized(),
                frame < COMPOSITE_FRAMES,
                phase == breath_phase(speed, frame as int),
                value <= 256,
                forall|v: u8|
                    v < value ==> #[trigger] level_breathes(self.levels(), speed, brightness, frame as int, v),
            decreases 256 - value,
        {
            let v: u8 = value as u8;
            let level: u8 = self.level(speed, brightness, frame, v);
            let full: u8 = scaled(v, brightness);
            if level > full || (phase == 0 && level != 0) || (phase == 240 && level != full) {
                proof {
                    assert(!level_breathes(self.levels(), speed, brightness, frame as int, v));
                }
                return false;
            }
            value += 1;
        }
        true
    }

    /// Whether the levels at a speed and a brightness are those of breaths.
    fn setting_breathes(&self, speed: u8, brightness: u8) -> (r: bool)
        requires
            self.sized(),
        ensures
            r == (forall|frame: int, value: u8|
                0 <= frame < COMPOSITE_FRAMES ==> #[trigger] level_breathes(
                    self.levels(),
                    speed,
                    brightness,
                    frame,
                    value,
                )),
    {
        let mut frame: usize = 0;
        while frame < COMPOSITE_FRAMES
            invariant
                self.sized(),
                frame <= COMPOSITE_FRAMES,
                forall|f: int, v: u8|
                    0 <= f < frame ==> #[trigger] level_breathes(self.levels(), speed, brightness, f, v),
            decreases COMPOSITE_FRAMES - frame,
        {
            if !self.frame_breathes(speed, brightness, frame) {
                return false;
            }
            frame += 1;
        }
        true
    }

    /// Whether the levels are those of breaths.
    fn breathes(&self) -> (r: bool)
        requires
            self.sized(),
        ensures
            r == is_breath(self.levels()),
    {
        let mut speed: u8 = 0;
        while speed < 5
            invariant
                self.sized(),
                speed <= 5,
                forall|s: u8, b: u8, f: int, v: u8|
                    s < speed && b < 5 && 0 <= f < COMPOSITE_FRAMES
                        ==> #[trigger] level_breathes(self.levels(), s, b, f, v),
            decreases 5 - speed,
        {
            let mut brightness: u8 = 0;
            while brightness < 5
                invariant
                    self.sized(),
                    speed < 5,
                    brightness <= 5,
                    forall|s: u8, b: u8, f: int, v: u8|
                        (s < speed || s == speed && b < brightness) && b < 5 && 0 <= f
                            < COMPOSITE_FRAMES ==> #[trigger] level_breathes(self.levels(), s, b, f, v),
                decreases 5 - brightness,
            {
                if !self.setting_breathes(speed, brightness) {
                    return false;
                }
                brightness += 1;
            }
            speed += 1;
        }
        proof {
            assert forall|s: u8, b: u8, f: int, v: u8|
                0 <= f < COMPOSITE_FRAMES implies #[trigger] level_breathes(self.levels(), s, b, f, v) by {
                let s4: u8 = if s < 4 {
                    s
                } else {
                    4
                };
                let b4: u8 = if b < 4 {
                    b
                } else {
                    4
                };
                assert(level_breathes(self.levels(), s4, b4, f, v));
            }
        }
        true
    }
}

/// One step of the 32-bit FNV-1a hash.
pub open spec fn fnv_byte(h: u32, b: u8) -> u32 {
    (((h ^ (b as u32)) * 0x0100_0193) % 0x1_0000_0000) as u32
}

/// The 32-bit FNV-1a hash of the channel values of `leds`.
pub open spec fn fnv(leds: Seq<[u8; 3]>) -> u32
    decreases leds.len(),
{
    if leds.len() == 0 {
        0x811c_9dc5
    } else {
        let px = leds.last();
        fnv_byte(fnv_byte(fnv_byte(fnv(leds.drop_last()), px[0]), px[1]), px[2])
    }
}

/// The number that marks a state of the LEDs: its hash, or one where that is
/// zero.
pub open spec fn effect_mark(leds: Seq<[u8; 3]>) -> u32 {
    if fnv(leds) == 0 {
        1
    } else {
        fnv(leds)
    }
}

/// A number as four bytes, the highest first.
pub open spec fn be_bytes(h: u32) -> [u8; 4] {
    [
        (h / 0x100_0000) as u8,
        ((h / 0x1_0000) % 0x100) as u8,
        ((h / 0x100) % 0x100) as u8,
        (h % 0x100) as u8,
    ]
}

pub open spec fn effect_index(leds: Seq<[u8; 3]>) -> [u8; 4] {
    be_bytes(effect_mark(leds))
}

fn fnv_step(h: u32, b: u8) -> (r: u32)
    ensures
        r == fnv_byte(h, b),
{
    (h ^ (b as u32)).wrapping_mul(0x0100_0193)
}

/// The mark of a state of the LEDs, as it goes to the bank and comes back in
/// the bank's record.
pub fn effect_index_from_state(led_state: &[[u8; 3]]) -> (r: [u8; 4])
    ensures
        r == effect_index(led_state@),
{
    let mut h: u32 = 0x811c_9dc5;
    let mut i: usize = 0;
    while i < led_state.len()
        invariant
            i <= led_state@.len(),
            h == fnv(led_state@.take(i as int)),
        decreases led_state@.len() - i,
    {
        let px: [u8; 3] = led_state[i];
        h = fnv_step(h, px[0]);
        h = fnv_step(h, px[1]);
        h = fnv_step(h, px[2]);
        proof {
            assert(led_state@.take(i + 1).drop_last() =~= led_state@.take(i as int));
        }
        i += 1;
    }
    proof {
        assert(led_state@.take(i as int) =~= led_state@);
    }
    if h == 0 {
        h = 1;
    }
    let r: [u8; 4] = [
        (h / 0x100_0000) as u8,
        ((h / 0x1_0000) % 0x100) as u8,
        ((h / 0x100) % 0x100) as u8,
        (h % 0x100) as u8,
    ];
    proof {
        assert(r =~= effect_index(led_state@));
    }
    r
}

proof fn lemma_be_bytes_injective(a: u32, b: u32)
    requires
        be_bytes(a) == be_bytes(b),
    ensures
        a == b,
{
    let x = be_bytes(a);
    let y = be_bytes(b);
    assert(x[0] == y[0] && x[1] == y[1] && x[2] == y[2] && x[3] == y[3]);
    assert(a / 0x100_0000 < 256 && b / 0x100_0000 < 256);
    assert(a / 0x100_0000 == b / 0x100_0000 && (a / 0x1_0000) % 0x100 == (b / 0x1_0000) % 0x100 && (a
        / 0x100) % 0x100 == (b / 0x100) % 0x100 && a % 0x100 == b % 0x100 ==> a == b)
        by (bit_vector);
}

/// The multiplier of the hash is odd, so multiplication by it loses nothing.
proof fn lemma_times_prime_injective(x: int, y: int)
    requires
        0 <= x < 0x1_0000_0000,
        0 <= y < 0x1_0000_0000,
        (x * 0x0100_0193) % 0x1_0000_0000 == (y * 0x0100_0193) % 0x1_0000_0000,
    ensures
        x == y,
{
    lemma_times_inverse(x);
    lemma_times_inverse(y);
}

/// Multiplication by the inverse of the multiplier takes it back.
proof fn lemma_times_inverse(x: int)
    requires
        0 <= x < 0x1_0000_0000,
    ensures
        (((x * 0x0100_0193) % 0x1_0000_0000) * 0x359c_449b) % 0x1_0000_0000 == x,
{
    let m: int = 0x1_0000_0000;
    let p: int = 0x0100_0193;
    let q: int = 0x359c_449b;
    let k: int = 3513497;
    assert(p * q == 1 + k * m);
    lemma_mul_mod_noop_left(x * p, q, m);
    assert((x * p) * q == x * (p * q)) by (nonlinear_arith);
    assert(x * (p * q) == (x * k) * m + x) by (nonlinear_arith)
        requires
            p * q == 1 + k * m,
    ;
    lemma_fundamental_div_mod_converse((x * p) * q, m, x * k, x);
}

/// A step of the hash keeps different hashes apart, and tells different bytes
/// apart.
proof fn lemma_fnv_byte_injective(g: u32, h: u32, a: u8, b: u8)
    requires
        fnv_byte(g, a) == fnv_byte(h, b),
        g == h || a == b,
    ensures
        g == h && a == b,
{
    let x: u32 = g ^ (a as u32);
    let y: u32 = h ^ (b as u32);
    lemma_times_prime_injective(x as int, y as int);
    let aw: u32 = a as u32;
    let bw: u32 = b as u32;
    assert(g ^ aw == h ^ bw && aw == bw ==> g == h) by (bit_vector);
    assert(g ^ aw == h ^ bw && g == h ==> aw == bw) by (bit_vector);
}

/// Whether two states differ in channel `c` of LED `i` and in nothing else.
pub open spec fn differ_in_one_byte(a: Seq<[u8; 3]>, b: Seq<[u8; 3]>, i: int, c: int) -> bool {
    &&& a.len() == b.len()
    &&& 0 <= i < a.len()
    &&& 0 <= c < 3
    &&& a[i][c] != b[i][c]
    &&& forall|d: int| 0 <= d < 3 && d != c ==> #[trigger] a[i][d] == b[i][d]
    &&& forall|j: int| 0 <= j < a.len() && j != i ==> #[trigger] a[j] == b[j]
}

proof fn lemma_fnv_tells_apart(a: Seq<[u8; 3]>, b: Seq<[u8; 3]>, i: int, c: int)
    requires
        differ_in_one_byte(a, b, i, c),
    ensures
        fnv(a) != fnv(b),
    decreases a.len(),
{
    let x = a.last();
    let y = b.last();
    let g = fnv(a.drop_last());
    let h = fnv(b.drop_last());
    if i == a.len() - 1 {
        assert(a.drop_last() =~= b.drop_last());
        assert(c != 0 ==> x[0] == y[0]);
        assert(c != 1 ==> x[1] == y[1]);
        assert(c != 2 ==> x[2] == y[2]);
    } else {
        lemma_fnv_tells_apart(a.drop_last(), b.drop_last(), i, c);
        assert(x == y);
    }
    let g1 = fnv_byte(g, x[0]);
    let h1 = fnv_byte(h, y[0]);
    let g2 = fnv_byte(g1, x[1]);
    let h2 = fnv_byte(h1, y[1]);
    if fnv(a) == fnv(b) {
        if x[2] == y[2] {
            lemma_fnv_byte_injective(g2, h2, x[2], y[2]);
            if x[1] == y[1] {
                lemma_fnv_byte_injective(g1, h1, x[1], y[1]);
                lemma_fnv_byte_injective(g, h, x[0], y[0]);
            } else {
                lemma_fnv_byte_injective(g1, h1, x[1], y[1]);
            }
        } else {
            lemma_fnv_byte_injective(g2, h2, x[2], y[2]);
        }
    }
}

/// States of the LEDs that differ in one byte have different marks, but for
/// the two hashes that share the mark of one.
pub proof fn law_effect_index_tells_apart(a: Seq<[u8; 3]>, b: Seq<[u8; 3]>, i: int, c: int)
    requires
        differ_in_one_byte(a, b, i, c),
    ensures
        effect_index(a) != effect_index(b) || effect_index(a) == [0u8, 0u8, 0u8, 1u8],
{
    lemma_fnv_tells_apart(a, b, i, c);
    if effect_index(a) == effect_index(b) {
        lemma_be_bytes_injective(effect_mark(a), effect_mark(b));
        assert(effect_mark(a) == 1);
        assert(effect_index(a) =~= [0u8, 0u8, 0u8, 1u8]);
    }
}

/// No state of the LEDs has the mark of a bank that shows nothing.
pub proof fn law_effect_index_nonzero(leds: Seq<[u8; 3]>)
    ensures
        effect_index(leds) != [0u8, 0u8, 0u8, 0u8],
{
    let h = effect_mark(leds);
    let a = be_bytes(h);
    let z = [0u8, 0u8, 0u8, 0u8];
    if a == z {
        assert(a[0] == z[0] && a[1] == z[1] && a[2] == z[2] && a[3] == z[3]);
        assert(h == 0);
    }
}

} // verus!
