//! How each request is answered, device by device.

use vstd::prelude::*;
use crate::action::{done_count, is_first_failure, ActionView, ErrorView};
use crate::bank::BankView;
use crate::bank_laws::{law_bank_stays_wf, law_composite_pixels, law_refused_iff_out_of_range};
use crate::controller_laws::law_config_is_stored;
use crate::effect::{effect_index, BreathingTable, EffectView, RgbMode};
use crate::model::ControllerView;
use crate::zones::law_zone_in_bounds;

verus! {

/// Whether a request for this name reaches a bank: no wired device has the
/// name, there is a radio, and the bank is known.
pub open spec fn reaches_bank(s: ControllerView, id: Seq<char>) -> bool {
    !s.wired.contains_key(id) && s.wireless && s.banks.contains_key(id)
}

/// Whether a request for this name reaches nothing.
pub open spec fn reaches_nothing(s: ControllerView, id: Seq<char>) -> bool {
    !s.wired.contains_key(id) && (!s.wireless || !s.banks.contains_key(id))
}

/// An effect for a wired device is passed on as it is, whatever the zone, once
/// for each zone of a batch; the controller keeps nothing of it.
pub proof fn law_wired_effect(
    s: ControllerView,
    table: BreathingTable,
    id: Seq<char>,
    zone: u8,
    zones: Seq<u8>,
    e: EffectView,
    i: int,
)
    requires
        s.wired.contains_key(id),
    ensures
        s.set_effect(table, id, zone, e) == (
            s,
            Ok::<ActionView, ErrorView>(ActionView::WiredEffect { device_id: id, zone, effect: e }),
        ),
        ({
            let (after, actions, refused) = s.set_effect_zones(table, id, zones, e);
            &&& after == s
            &&& refused is None
            &&& actions.len() == zones.len()
            &&& 0 <= i < zones.len() ==> actions[i] == (ActionView::WiredEffect {
                device_id: id,
                zone: zones[i],
                effect: e,
            })
        }),
{
}

/// Colors for a wired device are passed on as they are, whatever the zone, once
/// for each write of a batch; the controller keeps nothing of them.
pub proof fn law_wired_colors(
    s: ControllerView,
    id: Seq<char>,
    zone: u8,
    colors: Seq<[u8; 3]>,
    writes: Seq<(u8, Seq<[u8; 3]>)>,
    one_shot: bool,
    i: int,
)
    requires
        s.wired.contains_key(id),
    ensures
        s.set_direct_colors(id, zone, colors) == (
            s,
            Ok::<ActionView, ErrorView>(ActionView::WiredColors { device_id: id, zone, colors }),
        ),
        ({
            let (after, actions, refused) = s.apply_direct_zones(id, writes, one_shot);
            &&& after == s
            &&& refused is None
            &&& actions.len() == writes.len()
            &&& 0 <= i < writes.len() ==> actions[i] == (ActionView::WiredColors {
                device_id: id,
                zone: writes[i].0,
                colors: writes[i].1,
            })
        }),
{
}

/// Mainboard sync and direction go to a wired device that supports them, as
/// they are; one that does not refuses by its name, and anything else is not
/// found.
pub proof fn law_sync_and_direction(
    s: ControllerView,
    id: Seq<char>,
    enabled: bool,
    zone: u8,
    swap_lr: bool,
    swap_tb: bool,
)
    ensures
        s.wired.contains_key(id) && s.wired[id].supports_mb_rgb_sync ==> s.set_mb_rgb_sync(
            id,
            enabled,
        ) == Ok::<ActionView, ErrorView>(ActionView::WiredSync { device_id: id, enabled }),
        s.wired.contains_key(id) && !s.wired[id].supports_mb_rgb_sync ==> s.set_mb_rgb_sync(
            id,
            enabled,
        ) == Err::<ActionView, ErrorView>(ErrorView::SyncUnsupported { device_id: id }),
        s.wired.contains_key(id) && s.wired[id].supports_direction ==> s.set_fan_direction(
            id,
            zone,
            swap_lr,
            swap_tb,
        ) == Ok::<ActionView, ErrorView>(
            ActionView::WiredDirection { device_id: id, zone, swap_lr, swap_tb },
        ),
        s.wired.contains_key(id) && !s.wired[id].supports_direction ==> s.set_fan_direction(
            id,
            zone,
            swap_lr,
            swap_tb,
        ) == Err::<ActionView, ErrorView>(ErrorView::DirectionUnsupported { device_id: id }),
        !s.wired.contains_key(id) ==> s.set_mb_rgb_sync(id, enabled) == Err::<
            ActionView,
            ErrorView,
        >(ErrorView::DeviceNotFound { device_id: id }) && s.set_fan_direction(
            id,
            zone,
            swap_lr,
            swap_tb,
        ) == Err::<ActionView, ErrorView>(ErrorView::DeviceNotFound { device_id: id }),
{
}

/// A request that reaches nothing changes nothing, sends nothing, and is
/// refused by its name.
pub proof fn law_nothing_reached(
    s: ControllerView,
    table: BreathingTable,
    id: Seq<char>,
    zone: u8,
    zones: Seq<u8>,
    e: EffectView,
    colors: Seq<[u8; 3]>,
    writes: Seq<(u8, Seq<[u8; 3]>)>,
    one_shot: bool,
)
    requires
        reaches_nothing(s, id),
    ensures
        ({
            let err = ErrorView::DeviceNotFound { device_id: id };
            &&& s.set_effect(table, id, zone, e) == (s, Err::<ActionView, ErrorView>(err))
            &&& s.set_direct_colors(id, zone, colors) == (s, Err::<ActionView, ErrorView>(err))
            &&& s.set_effect_zones(table, id, zones, e) == (
                s,
                Seq::<ActionView>::empty(),
                Some(err),
            )
            &&& s.apply_direct_zones(id, writes, one_shot) == (
                s,
                Seq::<ActionView>::empty(),
                Some(err),
            )
        }),
{
}

/// An effect or colors for a zone that a bank has change that bank and nothing
/// else, and are taken.
pub proof fn law_bank_takes(
    s: ControllerView,
    table: BreathingTable,
    id: Seq<char>,
    zone: u8,
    e: EffectView,
    colors: Seq<[u8; 3]>,
    other: Seq<char>,
)
    requires
        s.wf(),
        reaches_bank(s, id),
        s.banks[id].layout.zone_slice(s.banks[id].fan_count as nat, zone as int) is Some,
    ensures
        ({
            let (after, answer) = s.set_effect(table, id, zone, e);
            &&& after == (ControllerView { banks: after.banks, ..s })
            &&& after.banks.dom() == s.banks.dom()
            &&& other != id && s.banks.contains_key(other) ==> after.banks[other] == s.banks[other]
            &&& Some(after.banks[id]) == s.banks[id].with_effect(zone, e)
            &&& answer == Ok::<ActionView, ErrorView>(after.banks[id].upload(table))
        }),
        ({
            let (after, answer) = s.set_direct_colors(id, zone, colors);
            &&& after == (ControllerView { banks: after.banks, ..s })
            &&& after.banks.dom() == s.banks.dom()
            &&& other != id && s.banks.contains_key(other) ==> after.banks[other] == s.banks[other]
            &&& Some(after.banks[id]) == s.banks[id].with_colors(zone, colors)
            &&& answer == Ok::<ActionView, ErrorView>(
                ActionView::SendDirect {
                    mac: s.banks[id].mac,
                    leds: after.banks[id].leds,
                    effect_index: effect_index(after.banks[id].leds),
                    repeats: 8,
                },
            )
        }),
{
    let b = s.banks[id];
    law_bank_stays_wf(b, zone, e, colors);
    law_refused_iff_out_of_range(b, zone, e, colors);
    assert(s.set_effect(table, id, zone, e).0.banks.dom() =~= s.banks.dom());
    assert(s.set_direct_colors(id, zone, colors).0.banks.dom() =~= s.banks.dom());
}

/// An effect or colors for a zone that a bank does not have change nothing, and
/// are refused with the zone and what the bank is.
pub proof fn law_bank_refuses(
    s: ControllerView,
    table: BreathingTable,
    id: Seq<char>,
    zone: u8,
    e: EffectView,
    colors: Seq<[u8; 3]>,
)
    requires
        reaches_bank(s, id),
        s.banks[id].layout.zone_slice(s.banks[id].fan_count as nat, zone as int) is None,
    ensures
        ({
            let b = s.banks[id];
            let err = ErrorView::ZoneOutOfRange {
                zone,
                total_zones: b.layout.total_zones(b.fan_count as nat),
                fan_type: b.layout.fan_type,
                fan_count: b.fan_count,
            };
            &&& s.set_effect(table, id, zone, e) == (s, Err::<ActionView, ErrorView>(err))
            &&& s.set_direct_colors(id, zone, colors) == (s, Err::<ActionView, ErrorView>(err))
        }),
{
}

/// Where nothing on a bank is animated, its upload is one frame with just its
/// LEDs, to its address, under their mark, sent eight times over.
pub proof fn law_upload_of_a_still_bank(b: BankView, table: BreathingTable)
    requires
        forall|z: u8| !#[trigger] b.effects.contains_key(z),
    ensures
        b.upload(table) == (ActionView::SendDirect {
            mac: b.mac,
            leds: b.leds,
            effect_index: effect_index(b.leds),
            repeats: 8,
        }),
{
    assert(b.effects =~= Map::<u8, EffectView>::empty());
}

/// Where a zone of a bank is animated, its upload is a loop of 480 frames of 25
/// milliseconds, to its address, under the mark of its LEDs, sent eight times
/// over. In each frame every channel of an LED of an animated zone has the
/// level that the speed and brightness of that zone's effect give its own
/// value, and every LED of no animated zone its own color.
pub proof fn law_upload_of_an_animated_bank(
    b: BankView,
    table: BreathingTable,
    zone: u8,
    start: int,
    len: int,
    frame: int,
    p: int,
    c: int,
)
    requires
        b.wf(),
        b.effects.contains_key(zone),
        b.layout.zone_slice(b.fan_count as nat, zone as int) == Some((start, len)),
        0 <= frame < 480,
        0 <= p < b.leds.len(),
        0 <= c < 3,
    ensures
        b.upload(table) matches ActionView::SendFrames {
            mac,
            frames,
            interval_ms,
            effect_index: mark,
            repeats,
        } && {
            &&& mac == b.mac
            &&& interval_ms == 25
            &&& mark == effect_index(b.leds)
            &&& repeats == 8
            &&& frames.len() == 480
            &&& frames[frame].len() == b.leds.len()
            &&& start <= p < start + len ==> frames[frame][p][c] == table.spec_level(
                b.effects[zone].speed,
                b.effects[zone].brightness,
                frame,
                b.leds[p][c],
            )
            &&& (forall|z: u8| #[trigger]
                b.effects.contains_key(z) ==> !b.layout.in_zone(b.fan_count as nat, z as int, p))
                ==> frames[frame][p] == b.leds[p]
        },
{
    law_composite_pixels(b, table, frame, zone, p);
    assert(!(b.effects =~= Map::<u8, EffectView>::empty()));
    assert((forall|z: u8| #[trigger]
        b.effects.contains_key(z) ==> !b.layout.in_zone(b.fan_count as nat, z as int, p)) ==> (
    forall|z: u8| #[trigger] b.effects.contains_key(z) ==> !b.in_zone(z as int, p)));
}

/// An LED is one of a zone exactly if it lies in the zone's place.
pub proof fn law_in_zone(b: BankView, zone: int, p: int)
    ensures
        b.layout.in_zone(b.fan_count as nat, zone, p) <==> (b.layout.zone_slice(
            b.fan_count as nat,
            zone,
        ) matches Some((start, len)) && start <= p < start + len),
{
}

/// A bank is untouched exactly if nothing on it is animated and no LED is lit.
pub proof fn law_untouched(b: BankView)
    ensures
        b.is_untouched() <==> (forall|z: u8| !#[trigger] b.effects.contains_key(z)) && (forall|
            p: int,
        | 0 <= p < b.leds.len() ==> #[trigger] b.leds[p] == [0u8, 0u8, 0u8]),
{
    if forall|z: u8| !#[trigger] b.effects.contains_key(z) {
        assert(b.effects =~= Map::<u8, EffectView>::empty());
    }
    if b.effects =~= Map::<u8, EffectView>::empty() {
        assert forall|z: u8| !#[trigger] b.effects.contains_key(z) by {}
    }
}

/// Reads go to the bank of that name, radio or not, and find nothing where
/// there is none.
pub proof fn law_reads(s: ControllerView, id: Seq<char>, zone: u8)
    ensures
        s.banks.contains_key(id) ==> {
            &&& s.zone_colors(id, zone) == s.banks[id].zone_leds(zone)
            &&& s.get_zone_colors(id, zone) == s.banks[id].coarse_zone(zone as int)
            &&& s.active_animated_mode(id) is Some <==> exists|z: u8| #[trigger]
                s.banks[id].effects.contains_key(z)
            &&& s.active_animated_mode(id) is Some ==> s.active_animated_mode(id) == Some(
                RgbMode::Breathing,
            )
        },
        !s.banks.contains_key(id) ==> {
            &&& s.zone_colors(id, zone) is None
            &&& s.get_zone_colors(id, zone) is None
            &&& s.get_all_zone_colors(id) is None
            &&& s.active_animated_mode(id) is None
        },
{
    if s.banks.contains_key(id) {
        let m = s.banks[id].effects;
        if forall|z: u8| !#[trigger] m.contains_key(z) {
            assert(m =~= Map::<u8, EffectView>::empty());
        }
    }
}

/// Whatever else it does, a request says who has the lights and keeps what it
/// does not speak of.
pub proof fn law_openrgb_flag(s: ControllerView, table: BreathingTable, active: bool)
    ensures
        ({
            let r = s.set_openrgb_active(table, active);
            &&& r.state.openrgb_active == active
            &&& r.state.config == s.config
            &&& r.state.presets == s.presets
            &&& r.state.wired == s.wired
            &&& r.state.wireless == s.wireless
            &&& active || !s.openrgb_active ==> r.out.len() == 0 && r.state.banks == s.banks
        }),
{
    if let Some(c) = s.config {
        law_config_is_stored(
            ControllerView { openrgb_active: active, ..s },
            table,
            c,
            s.presets,
        );
    }
}

/// A zone has a place exactly if its number is below the number of zones.
pub proof fn law_zone_numbers(b: BankView, zone: u8)
    requires
        b.wf(),
    ensures
        b.layout.zone_slice(b.fan_count as nat, zone as int) is Some <==> zone
            < b.layout.total_zones(b.fan_count as nat),
{
    law_zone_in_bounds(b.layout, b.fan_count as nat, zone as int);
}

/// Every piece of work that has succeeded counts once, and no other does.
pub proof fn law_count_of_done<E>(done: Seq<Result<(), E>>, next: Result<(), E>)
    ensures
        done_count(Seq::<Result<(), E>>::empty()) == 0,
        next is Ok ==> done_count(done.push(next)) == done_count(done) + 1,
        next is Err ==> done_count(done.push(next)) == done_count(done),
{
    reveal(Seq::filter);
    assert(done.push(next).drop_last() =~= done);
}

/// The first failure is an error before which there is none.
pub proof fn law_first_failure<E>(done: Seq<Result<(), E>>, i: int, j: int)
    requires
        0 <= i < done.len(),
        done[i] is Err,
    ensures
        is_first_failure(done, i) && 0 <= j < i ==> done[j] is Ok,
        (forall|k: int| 0 <= k < i ==> (#[trigger] done[k]) is Ok) ==> is_first_failure(done, i),
        is_first_failure(done, j) ==> 0 <= j <= i && done[j] is Err,
{
}

} // verus!
