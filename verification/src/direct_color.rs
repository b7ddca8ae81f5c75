//! Colors that clients stream, between their arrival and their upload.
//!
//! Clients send faster than the radio can carry. Writes are collected here,
//! the newest for each zone, and flushed at a bounded rate. All times are in
//! nanoseconds.

use vstd::prelude::*;
use crate::action::{
    actions_view, outcome_view, outcomes_view, Action, ActionView, ErrorView, RgbError,
};
use crate::controller::{refusal_view, BatchAnswer, RgbController};
use crate::effect::copy_colors;
use crate::model::{color_writes_view, ControllerView, Run};
use crate::vec_map::VecMap;

verus! {

/// Least time from the start of one flush to the start of the next.
pub const FLUSH_INTERVAL: u64 = 33_000_000;

/// Time that the radio is left alone after every flush, however long that
/// took: the keepalives of the fans need it.
pub const FLUSH_IDLE_FLOOR: u64 = 15_000_000;

/// Time until the next look when there is nothing to flush.
pub const EMPTY_PAUSE: u64 = 5_000_000;

/// A device that was flushed no longer ago than this is being streamed to.
pub const STREAM_WINDOW: u64 = 1_000_000_000;

/// Pending colors: for each device, the zones written to, with their colors.
pub type PendingColors = VecMap<String, VecMap<u8, Vec<[u8; 3]>>>;

/// The pending colors of the zones of a device.
pub open spec fn zones_view(zones: VecMap<u8, Vec<[u8; 3]>>) -> Map<u8, Seq<[u8; 3]>> {
    zones@.map_values(|c: Vec<[u8; 3]>| c@)
}

/// The pending colors of all devices.
pub open spec fn pending_view(p: PendingColors) -> Map<Seq<char>, Map<u8, Seq<[u8; 3]>>> {
    p@.map_values(|z: VecMap<u8, Vec<[u8; 3]>>| zones_view(z))
}

/// That the tables of pending colors are maps, the inner ones too.
pub open spec fn pending_wf(p: PendingColors) -> bool {
    &&& p.wf()
    &&& forall|id: Seq<char>| #[trigger] p@.contains_key(id) ==> p@[id].wf()
}

/// The newest colors for each zone of each device that await their upload.
pub struct DirectColorBuffer {
    pending: PendingColors,
}

impl View for DirectColorBuffer {
    type V = Map<Seq<char>, Map<u8, Seq<[u8; 3]>>>;

    open spec fn view(&self) -> Map<Seq<char>, Map<u8, Seq<[u8; 3]>>> {
        pending_view(self.colors())
    }
}

/// A buffer once colors for a zone have come in.
pub open spec fn buffer_set(
    b: Map<Seq<char>, Map<u8, Seq<[u8; 3]>>>,
    id: Seq<char>,
    zone: u8,
    colors: Seq<[u8; 3]>,
) -> Map<Seq<char>, Map<u8, Seq<[u8; 3]>>> {
    b.insert(
        id,
        (if b.contains_key(id) {
            b[id]
        } else {
            Map::empty()
        }).insert(zone, colors),
    )
}

/// Whether colors await their upload that include this LED.
pub open spec fn buffer_covers(
    b: Map<Seq<char>, Map<u8, Seq<[u8; 3]>>>,
    id: Seq<char>,
    zone: u8,
    led: int,
) -> bool {
    b.contains_key(id) && b[id].contains_key(zone) && 0 <= led < b[id][zone].len()
}

/// A buffer once the color of one LED has come in.
pub open spec fn buffer_patch(
    b: Map<Seq<char>, Map<u8, Seq<[u8; 3]>>>,
    id: Seq<char>,
    zone: u8,
    led: int,
    color: [u8; 3],
) -> Map<Seq<char>, Map<u8, Seq<[u8; 3]>>> {
    if buffer_covers(b, id, zone, led) {
        buffer_set(b, id, zone, b[id][zone].update(led, color))
    } else {
        b
    }
}

impl DirectColorBuffer {
    /// The colors that await their upload, in the order of a walk.
    pub closed spec fn colors(&self) -> PendingColors {
        self.pending
    }

    pub open spec fn wf(&self) -> bool {
        pending_wf(self.colors())
    }

    pub fn new() -> (r: Self)
        ensures
            r.wf(),
            r@ == Map::<Seq<char>, Map<u8, Seq<[u8; 3]>>>::empty(),
    {
        let r = DirectColorBuffer { pending: VecMap::new() };
        proof {
            assert(r@ =~= Map::<Seq<char>, Map<u8, Seq<[u8; 3]>>>::empty());
        }
        r
    }

    /// Takes colors for a zone, in place of any that still await their
    /// upload.
    pub fn set(&mut self, device_id: String, zone: u8, colors: Vec<[u8; 3]>)
        requires
            old(self).wf(),
        ensures
            final(self).wf(),
            final(self)@ == buffer_set(old(self)@, device_id@, zone, colors@),
    {
        match self.pending.position(&device_id) {
            Some(i) => {
                let zones = self.pending.value_mut(i);
                let ghost before = *zones;
                zones.insert(zone, colors);
                proof {
                    assert(zones_view(*zones) =~= zones_view(before).insert(zone, colors@));
                }
            },
            None => {
                let mut zones: VecMap<u8, Vec<[u8; 3]>> = VecMap::new();
                zones.insert(zone, colors);
                proof {
                    assert(zones_view(zones) =~= Map::<u8, Seq<[u8; 3]>>::empty().insert(
                        zone,
                        colors@,
                    ));
                }
                self.pending.insert(device_id, zones);
            },
        }
        proof {
            assert(self@ =~= buffer_set(old(self)@, device_id@, zone, colors@));
        }
    }

    /// Changes one LED in colors that await their upload. The answer is
    /// `false`, and nothing changes, where none of them include it.
    pub fn patch_led(&mut self, device_id: &str, zone: u8, led: usize, color: [u8; 3]) -> (r: bool)
        requires
            old(self).wf(),
        ensures
            final(self).wf(),
            r == buffer_covers(old(self)@, device_id@, zone, led as int),
            final(self)@ == buffer_patch(old(self)@, device_id@, zone, led as int, color),
    {
        let id = device_id.to_owned();
        let i: usize = match self.pending.position(&id) {
            Some(i) => i,
            None => return false,
        };
        let zones = self.pending.value_at(i);
        let j: usize = match zones.position(&zone) {
            Some(j) => j,
            None => return false,
        };
        let colors = zones.value_at(j);
        if led >= colors.len() {
            return false;
        }
        let ghost want = buffer_patch(old(self)@, device_id@, zone, led as int, color);
        let zones = self.pending.value_mut(i);
        let ghost before = *zones;
        let colors = zones.value_mut(j);
        let ghost held = colors@;
        colors[led] = color;
        proof {
            assert(zones_view(self.pending@[device_id@]) =~= zones_view(before).insert(
                zone,
                held.update(led as int, color),
            ));
            assert(self@ =~= want);
        }
        true
    }

    /// Hands out everything that awaits its upload, and keeps nothing.
    pub fn take_all(&mut self) -> (r: PendingColors)
        requires
            old(self).wf(),
        ensures
            final(self).wf(),
            final(self)@ == Map::<Seq<char>, Map<u8, Seq<[u8; 3]>>>::empty(),
            pending_wf(r),
            r == old(self).colors(),
            pending_view(r) == old(self)@,
    {
        let mut r: PendingColors = VecMap::new();
        std::mem::swap(&mut r, &mut self.pending);
        proof {
            assert(self@ =~= Map::<Seq<char>, Map<u8, Seq<[u8; 3]>>>::empty());
        }
        r
    }
}

/// The colors for one device in a flush.
#[derive(Debug)]
pub struct DeviceWrite {
    pub device_id: String,
    pub zones: Vec<(u8, Vec<[u8; 3]>)>,
}

/// The mathematical content of a [`DeviceWrite`].
#[verifier::ext_equal]
pub struct DeviceWriteView {
    pub device_id: Seq<char>,
    pub zones: Seq<(u8, Seq<[u8; 3]>)>,
}

impl View for DeviceWrite {
    type V = DeviceWriteView;

    open spec fn view(&self) -> DeviceWriteView {
        DeviceWriteView { device_id: self.device_id@, zones: color_writes_view(self.zones@) }
    }
}

pub open spec fn writes_view(w: Seq<DeviceWrite>) -> Seq<DeviceWriteView> {
    w.map_values(|x: DeviceWrite| x@)
}

/// The zones of one device as a list.
pub open spec fn zone_list(zones: VecMap<u8, Vec<[u8; 3]>>) -> Seq<(u8, Seq<[u8; 3]>)> {
    Seq::new(zones.ids().len(), |j: int| (zones.ids()[j], zones.vals()[j]@))
}

/// All pending writes as a list, device by device.
pub open spec fn write_list(p: PendingColors) -> Seq<DeviceWriteView> {
    Seq::new(
        p.ids().len(),
        |i: int| DeviceWriteView { device_id: p.ids()[i], zones: zone_list(p.vals()[i]) },
    )
}

/// The writes of one flush. The wired devices are served first.
#[derive(Debug)]
pub struct FlushPlan {
    pub wired: Vec<DeviceWrite>,
    pub wireless: Vec<DeviceWrite>,
}

fn list_zones(zones: &VecMap<u8, Vec<[u8; 3]>>) -> (r: Vec<(u8, Vec<[u8; 3]>)>)
    requires
        zones.wf(),
    ensures
        color_writes_view(r@) == zone_list(*zones),
{
    let mut r: Vec<(u8, Vec<[u8; 3]>)> = Vec::new();
    let mut j: usize = 0;
    while j < zones.len()
        invariant
            zones.wf(),
            j <= zones.ids().len(),
            color_writes_view(r@) =~= zone_list(*zones).take(j as int),
        decreases zones.ids().len() - j,
    {
        let zone: u8 = *zones.key_at(j);
        let colors = copy_colors(zones.value_at(j));
        let entry = (zone, colors);
        proof {
            assert(color_writes_view(r@.push(entry)) =~= color_writes_view(r@).push(
                (zone, colors@),
            ));
        }
        r.push(entry);
        j += 1;
    }
    r
}

/// Sorts pending writes into those for wired devices and those for banks.
pub fn plan_flush(rgb: &RgbController, updates: &PendingColors) -> (r: FlushPlan)
    requires
        rgb.wf(),
        pending_wf(*updates),
    ensures
        writes_view(r.wired@) == turn_of(*updates, rgb@.banks.dom()).wired,
        writes_view(r.wireless@) == turn_of(*updates, rgb@.banks.dom()).banks,
{
    let ghost all = write_list(*updates);
    let ghost banks = rgb@.banks.dom();
    let ghost is_wired = |w: DeviceWriteView| !banks.contains(w.device_id);
    let ghost is_bank = |w: DeviceWriteView| banks.contains(w.device_id);
    let mut wired: Vec<DeviceWrite> = Vec::new();
    let mut wireless: Vec<DeviceWrite> = Vec::new();
    let mut i: usize = 0;
    proof {
        reveal(Seq::filter);
        assert(all.take(0) =~= Seq::empty());
        assert(writes_view(wired@) =~= all.take(0).filter(is_wired));
        assert(writes_view(wireless@) =~= all.take(0).filter(is_bank));
    }
    while i < updates.len()
        invariant
            rgb.wf(),
            pending_wf(*updates),
            all == write_list(*updates),
            banks == rgb@.banks.dom(),
            is_wired == (|w: DeviceWriteView| !banks.contains(w.device_id)),
            is_bank == (|w: DeviceWriteView| banks.contains(w.device_id)),
            i <= updates.ids().len(),
            writes_view(wired@) == all.take(i as int).filter(is_wired),
            writes_view(wireless@) == all.take(i as int).filter(is_bank),
        decreases updates.ids().len() - i,
    {
        let id = updates.key_at(i);
        let w = DeviceWrite { device_id: id.clone(), zones: list_zones(updates.value_at(i)) };
        proof {
            reveal(Seq::filter);
            assert(all.take(i + 1).drop_last() =~= all.take(i as int));
            assert(w@ =~= all[i as int]);
            assert(all.take(i + 1).last() == w@);
            assert(writes_view(wired@.push(w)) =~= writes_view(wired@).push(w@));
            assert(writes_view(wireless@.push(w)) =~= writes_view(wireless@).push(w@));
        }
        if rgb.is_wireless(id.as_str()) {
            wireless.push(w);
        } else {
            wired.push(w);
        }
        i += 1;
    }
    proof {
        assert(all.take(i as int) =~= all);
    }
    FlushPlan { wired, wireless }
}

/// Writes the colors of the first `n` zones of a device, zone by zone.
pub open spec fn run_colors(
    s: ControllerView,
    id: Seq<char>,
    zones: Seq<(u8, Seq<[u8; 3]>)>,
    n: nat,
    out: Seq<Result<ActionView, ErrorView>>,
) -> Run
    decreases n,
{
    if n == 0 {
        Run { state: s, out }
    } else {
        let r = run_colors(s, id, zones, (n - 1) as nat, out);
        let (t, o) = r.state.set_direct_colors(id, zones[n - 1].0, zones[n - 1].1);
        Run { state: t, out: r.out.push(o) }
    }
}

/// Writes the colors of the first `n` devices of a list.
pub open spec fn run_writes(s: ControllerView, writes: Seq<DeviceWriteView>, n: nat) -> Run
    decreases n,
{
    if n == 0 {
        Run { state: s, out: Seq::empty() }
    } else {
        let r = run_writes(s, writes, (n - 1) as nat);
        let w = writes[n - 1];
        run_colors(r.state, w.device_id, w.zones, w.zones.len(), r.out)
    }
}

/// Performs all of a list of writes.
pub open spec fn run_all_writes(s: ControllerView, writes: Seq<DeviceWriteView>) -> Run {
    run_writes(s, writes, writes.len())
}

fn flush_device(
    rgb: &mut RgbController,
    w: &DeviceWrite,
    out: &mut Vec<Result<Action, RgbError>>,
)
    requires
        old(rgb).wf(),
    ensures
        final(rgb).wf(),
        final(rgb).same_devices(old(rgb)),
        (Run { state: final(rgb)@, out: outcomes_view(final(out)@) }) == run_colors(
            old(rgb)@,
            w@.device_id,
            w@.zones,
            w@.zones.len(),
            outcomes_view(old(out)@),
        ),
{
    let ghost s0 = rgb@;
    let ghost o0 = outcomes_view(out@);
    let mut k: usize = 0;
    while k < w.zones.len()
        invariant
            k <= w.zones@.len(),
            rgb.wf(),
            rgb.same_devices(old(rgb)),
            (Run { state: rgb@, out: outcomes_view(out@) }) == run_colors(
                s0,
                w@.device_id,
                w@.zones,
                k as nat,
                o0,
            ),
        decreases w.zones@.len() - k,
    {
        let ghost before = outcomes_view(out@);
        let r = rgb.set_direct_colors(w.device_id.as_str(), w.zones[k].0, &w.zones[k].1);
        let ghost o = outcome_view(r);
        out.push(r);
        proof {
            assert(w@.zones[k as int] == (w.zones@[k as int].0, w.zones@[k as int].1@));
            assert(outcomes_view(out@) =~= before.push(o));
        }
        k += 1;
    }
}

/// Serves the wired devices of a flush, each zone by itself.
pub fn flush_wired(rgb: &mut RgbController, writes: &Vec<DeviceWrite>) -> (r: Vec<
    Result<Action, RgbError>,
>)
    requires
        old(rgb).wf(),
    ensures
        final(rgb).wf(),
        final(rgb).same_devices(old(rgb)),
        (Run { state: final(rgb)@, out: outcomes_view(r@) }) == run_all_writes(
            old(rgb)@,
            writes_view(writes@),
        ),
{
    let ghost s0 = rgb@;
    let ghost ws = writes_view(writes@);
    let mut out: Vec<Result<Action, RgbError>> = Vec::new();
    let mut k: usize = 0;
    proof {
        assert(outcomes_view(out@) =~= Seq::empty());
    }
    while k < writes.len()
        invariant
            k <= writes@.len(),
            ws == writes_view(writes@),
            rgb.wf(),
            rgb.same_devices(old(rgb)),
            (Run { state: rgb@, out: outcomes_view(out@) }) == run_writes(s0, ws, k as nat),
        decreases writes@.len() - k,
    {
        proof {
            assert(ws[k as int] == writes@[k as int]@);
        }
        flush_device(rgb, &writes[k], &mut out);
        k += 1;
    }
    out
}

/// Serves one bank of a flush, all of its zones at once. A write that stands
/// alone gets the full effort, one of a stream the least.
pub fn flush_bank(clock: &FlushClock, rgb: &mut RgbController, w: &DeviceWrite, now: u64) -> (r:
    BatchAnswer)
    requires
        clock.wf(),
        old(rgb).wf(),
    ensures
        final(rgb).wf(),
        final(rgb).same_devices(old(rgb)),
        (final(rgb)@, actions_view(r.actions@), refusal_view(r.refused)) == old(
            rgb,
        )@.apply_direct_zones(
            w@.device_id,
            w@.zones,
            stands_alone(clock@, w@.device_id, now),
        ),
{
    let one_shot = clock.is_one_shot(w.device_id.as_str(), now);
    rgb.apply_direct_zones(w.device_id.as_str(), &w.zones, one_shot)
}

/// When each device was last flushed.
pub struct FlushClock {
    last_flush: VecMap<String, u64>,
}

/// Whether a write to a device stands alone: none went out to it within the
/// stream window.
pub open spec fn stands_alone(last: Map<Seq<char>, u64>, id: Seq<char>, now: u64) -> bool {
    !last.contains_key(id) || now - last[id] > STREAM_WINDOW
}

/// The turn that serves pending colors, where `banks` are the names of the
/// banks.
pub open spec fn turn_of(p: PendingColors, banks: Set<Seq<char>>) -> FlushTurnView {
    FlushTurnView {
        wired: write_list(p).filter(|w: DeviceWriteView| !banks.contains(w.device_id)),
        banks: write_list(p).filter(|w: DeviceWriteView| banks.contains(w.device_id)),
        served: 0,
    }
}

/// How a turn of the writer begins.
pub enum TurnStart {
    /// The writer is to end.
    Stop,
    /// There is nothing to flush: rest for so long.
    Rest(u64),
    /// These colors are to be flushed.
    Flush(PendingColors),
}

/// Begins a turn of the writer. One that is to end leaves the buffer alone.
pub fn begin_turn(buffer: &mut DirectColorBuffer, stop: bool) -> (r: TurnStart)
    requires
        old(buffer).wf(),
    ensures
        final(buffer).wf(),
        stop ==> r is Stop && final(buffer)@ == old(buffer)@,
        !stop && old(buffer)@ =~= Map::<Seq<char>, Map<u8, Seq<[u8; 3]>>>::empty() ==> r
            == TurnStart::Rest(EMPTY_PAUSE) && final(buffer)@ == old(buffer)@,
        !stop && !(old(buffer)@ =~= Map::<Seq<char>, Map<u8, Seq<[u8; 3]>>>::empty()) ==> {
            &&& r == TurnStart::Flush(old(buffer).colors())
            &&& final(buffer)@ == Map::<Seq<char>, Map<u8, Seq<[u8; 3]>>>::empty()
        },
{
    if stop {
        return TurnStart::Stop;
    }
    let updates = buffer.take_all();
    if updates.len() == 0 {
        proof {
            assert(old(buffer)@ =~= Map::<Seq<char>, Map<u8, Seq<[u8; 3]>>>::empty());
        }
        return TurnStart::Rest(EMPTY_PAUSE);
    }
    proof {
        let id = updates.ids()[0];
        assert(updates.ids().contains(id));
        assert(old(buffer)@.contains_key(id));
    }
    TurnStart::Flush(updates)
}

/// A turn of the writer in progress: the wired devices first, then the banks,
/// one by one.
pub struct FlushTurn {
    wired: Vec<DeviceWrite>,
    banks: Vec<DeviceWrite>,
    /// Whether the wired devices have been served.
    begun: bool,
    /// How many banks have been served.
    next: usize,
    /// Whether the turn has been closed.
    closed: bool,
}

/// The mathematical content of a [`FlushTurn`].
#[verifier::ext_equal]
pub struct FlushTurnView {
    pub wired: Seq<DeviceWriteView>,
    pub banks: Seq<DeviceWriteView>,
    /// The steps taken. The first serves the wired devices, each further one
    /// a bank, and one more closes the turn.
    pub served: nat,
}

impl View for FlushTurn {
    type V = FlushTurnView;

    closed spec fn view(&self) -> FlushTurnView {
        FlushTurnView {
            wired: writes_view(self.wired@),
            banks: writes_view(self.banks@),
            served: if !self.begun {
                0
            } else if self.closed {
                self.banks@.len() + 2
            } else {
                self.next as nat + 1
            },
        }
    }
}

impl FlushTurnView {
    /// The flush times once those of the last step have been noted.
    pub open spec fn noted(self, last: Map<Seq<char>, u64>, now: u64) -> Map<Seq<char>, u64> {
        if 2 <= self.served <= self.banks.len() + 1 {
            last.insert(self.banks[self.served - 2].device_id, now)
        } else {
            last
        }
    }

    /// The turn after a step.
    pub open spec fn next(self) -> FlushTurnView {
        if self.served <= self.banks.len() + 1 {
            FlushTurnView { served: self.served + 1, ..self }
        } else {
            self
        }
    }
}

/// What a step of a turn hands out to be performed.
pub enum TurnStep {
    /// The writes to the wired devices.
    Wired(Vec<Result<Action, RgbError>>),
    /// The write to a bank.
    Bank(String, BatchAnswer),
    /// The turn is over.
    Done,
}

impl FlushTurn {
    pub closed spec fn wf(&self) -> bool {
        &&& self.next <= self.banks.len()
        &&& !self.begun ==> self.next == 0 && !self.closed
    }

    pub fn new(plan: FlushPlan) -> (r: Self)
        ensures
            r.wf(),
            r@ == (FlushTurnView {
                wired: writes_view(plan.wired@),
                banks: writes_view(plan.wireless@),
                served: 0,
            }),
    {
        FlushTurn {
            wired: plan.wired,
            banks: plan.wireless,
            begun: false,
            next: 0,
            closed: false,
        }
    }

    /// Takes the next step of a turn: all wired devices, then bank after bank.
    /// A bank counts as flushed when the step after it begins, whatever became
    /// of the write. How a step turns out holds up none of the others.
    pub fn step(&mut self, clock: &mut FlushClock, rgb: &mut RgbController, now: u64) -> (r:
        TurnStep)
        requires
            old(self).wf(),
            old(clock).wf(),
            old(rgb).wf(),
        ensures
            final(self).wf(),
            final(clock).wf(),
            final(rgb).wf(),
            final(rgb).same_devices(old(rgb)),
            final(self)@ == old(self)@.next(),
            final(clock)@ == old(self)@.noted(old(clock)@, now),
            r is Wired <==> old(self)@.served == 0,
            r matches TurnStep::Wired(out) ==> (Run {
                state: final(rgb)@,
                out: outcomes_view(out@),
            }) == run_all_writes(old(rgb)@, old(self)@.wired),
            r is Bank <==> 1 <= old(self)@.served <= old(self)@.banks.len(),
            r matches TurnStep::Bank(id, a) ==> {
                let w = old(self)@.banks[old(self)@.served - 1];
                &&& id@ == w.device_id
                &&& (final(rgb)@, actions_view(a.actions@), refusal_view(a.refused)) == old(
                    rgb,
                )@.apply_direct_zones(
                    w.device_id,
                    w.zones,
                    stands_alone(final(clock)@, w.device_id, now),
                )
            },
            r is Done ==> final(rgb)@ == old(rgb)@,
    {
        let ghost before = self@;
        if !self.begun {
            self.begun = true;
            proof {
                assert(self@ =~= before.next());
            }
            return TurnStep::Wired(flush_wired(rgb, &self.wired));
        }
        if self.closed {
            return TurnStep::Done;
        }
        let i: usize = self.next;
        if i > 0 {
            proof {
                assert(before.banks[i - 1].device_id == self.banks@[i - 1].device_id@);
            }
            clock.flushed(self.banks[i - 1].device_id.as_str(), now);
        }
        if i < self.banks.len() {
            self.next = i + 1;
            proof {
                assert(self@ =~= before.next());
                assert(before.banks[i as int] == self.banks@[i as int]@);
            }
            let a = flush_bank(clock, rgb, &self.banks[i], now);
            return TurnStep::Bank(self.banks[i].device_id.clone(), a);
        }
        self.closed = true;
        proof {
            assert(self@ =~= before.next());
        }
        TurnStep::Done
    }
}

/// How long to rest after a flush that took `elapsed`.
pub open spec fn spec_flush_pause(elapsed: u64) -> int {
    if FLUSH_INTERVAL - elapsed > FLUSH_IDLE_FLOOR {
        FLUSH_INTERVAL - elapsed
    } else {
        FLUSH_IDLE_FLOOR as int
    }
}

impl View for FlushClock {
    type V = Map<Seq<char>, u64>;

    closed spec fn view(&self) -> Map<Seq<char>, u64> {
        self.last_flush@
    }
}

impl FlushClock {
    pub closed spec fn wf(&self) -> bool {
        self.last_flush.wf()
    }

    pub fn new() -> (r: Self)
        ensures
            r.wf(),
            r@ == Map::<Seq<char>, u64>::empty(),
    {
        FlushClock { last_flush: VecMap::new() }
    }

    /// Whether a write to a device now is one that no later one will make up
    /// for.
    pub fn is_one_shot(&self, device_id: &str, now: u64) -> (r: bool)
        requires
            self.wf(),
        ensures
            r == stands_alone(self@, device_id@, now),
    {
        let id = device_id.to_owned();
        match self.last_flush.get(&id) {
            Some(t) => now > *t && now - *t > STREAM_WINDOW,
            None => true,
        }
    }

    /// Notes that a write to a device has gone out.
    pub fn flushed(&mut self, device_id: &str, now: u64)
        requires
            old(self).wf(),
        ensures
            final(self).wf(),
            final(self)@ == old(self)@.insert(device_id@, now),
    {
        let id = device_id.to_owned();
        self.last_flush.insert(id, now);
    }
}

/// How long to rest after a flush that took `elapsed`.
pub fn flush_pause(elapsed: u64) -> (r: u64)
    ensures
        r == spec_flush_pause(elapsed),
{
    let remaining: u64 = if elapsed < FLUSH_INTERVAL {
        FLUSH_INTERVAL - elapsed
    } else {
        0
    };
    if remaining > FLUSH_IDLE_FLOOR {
        remaining
    } else {
        FLUSH_IDLE_FLOOR
    }
}

/// The radio rests after every flush, and flushes start no closer together
/// than the flush interval.
pub proof fn law_flush_pace(elapsed: u64)
    ensures
        spec_flush_pause(elapsed) >= FLUSH_IDLE_FLOOR,
        elapsed + spec_flush_pause(elapsed) >= FLUSH_INTERVAL,
{
}

/// The newest colors for a zone win, and no other zone is touched.
pub proof fn law_newest_wins(
    b: Map<Seq<char>, Map<u8, Seq<[u8; 3]>>>,
    id: Seq<char>,
    zone: u8,
    first: Seq<[u8; 3]>,
    second: Seq<[u8; 3]>,
)
    ensures
        buffer_set(buffer_set(b, id, zone, first), id, zone, second) == buffer_set(
            b,
            id,
            zone,
            second,
        ),
        buffer_set(b, id, zone, first)[id][zone] == first,
        forall|i: Seq<char>, z: u8|
            (i != id || z != zone) && b.contains_key(i) && b[i].contains_key(z) ==> {
                &&& #[trigger] buffer_set(b, id, zone, first)[i].contains_key(z)
                &&& buffer_set(b, id, zone, first)[i][z] == b[i][z]
            },
{
    let x = buffer_set(buffer_set(b, id, zone, first), id, zone, second);
    let y = buffer_set(b, id, zone, second);
    assert(x[id] =~= y[id]);
    assert(x =~= y);
}

/// Once colors for a zone have come in, each of its LEDs can be changed by
/// itself, and no other can.
pub proof fn law_patch_after_set(
    b: Map<Seq<char>, Map<u8, Seq<[u8; 3]>>>,
    id: Seq<char>,
    zone: u8,
    colors: Seq<[u8; 3]>,
    led: int,
    color: [u8; 3],
)
    ensures
        buffer_covers(buffer_set(b, id, zone, colors), id, zone, led) <==> 0 <= led < colors.len(),
        0 <= led < colors.len() ==> buffer_patch(
            buffer_set(b, id, zone, colors),
            id,
            zone,
            led,
            color,
        ) == buffer_set(b, id, zone, colors.update(led, color)),
{
    if 0 <= led < colors.len() {
        law_newest_wins(b, id, zone, colors, colors.update(led, color));
    }
}

} // verus!
