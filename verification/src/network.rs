//! The wireless network of a dongle, as its polls show it.
//!
//! Under heavy radio load the dongle returns records with corrupt fields.
//! What a poll reports is therefore held against what was accepted before,
//! and a device is only addressed elsewhere when that is sure to be right.

use vstd::prelude::*;
use vstd::relations::sorted_by;
use crate::discovery::{
    is_device_record, parse_device_record, record_device, DiscoveredDevice, MASTER_DEVICE_TYPE,
    RECORD_LEN, RECORD_MARKER,
};
use crate::slots::{
    any_slot_shared, bound_slots, slot_le, slots_differ, slots_shared, sorted_slots,
};
use crate::vec_map::{MapKey, VecMap};

verus! {

/// The command that asks the dongle for its devices, and the first byte of
/// its answer.
pub const USB_CMD_SEND_RF: u8 = 0x10;

/// The highest receiver slot that a device can be given. A record with a
/// higher one is corrupt.
pub const RX_TYPE_MAX: u8 = 14;

/// The most devices that a dongle reports.
pub const MAX_DEVICES: u8 = 12;

/// The duty cycle of the mainboard when it is not known.
pub const PWM_UNAVAILABLE: u16 = 0xFFFF;

/// The answer of the dongle begins with an unexpected byte.
#[derive(Debug, Clone, Copy, PartialEq, Eq, Structural)]
pub struct UnexpectedResponse(pub u8);

/// What is known of the network.
pub struct WirelessNetwork {
    /// The devices, from the last record of each that was accepted.
    pub devices: Vec<DiscoveredDevice>,
    /// The duty cycle that the mainboard asks for.
    pub mobo_pwm: u16,
    /// The address of the dongle.
    pub master_mac: [u8; 6],
    /// The channel on which the dongle sends to all devices.
    pub master_channel: u8,
    /// A slot and channel that a device has moved to, if it is to be believed.
    pub pending_addr: VecMap<[u8; 6], (u8, u8)>,
    /// Since when a device has been off the network, in nanoseconds.
    pub limbo_since: VecMap<[u8; 6], u64>,
}

/// The mathematical content of a [`WirelessNetwork`].
#[verifier::ext_equal]
pub struct NetworkView {
    pub devices: Seq<DiscoveredDevice>,
    pub mobo_pwm: u16,
    pub master_mac: [u8; 6],
    pub master_channel: u8,
    pub pending: Map<[u8; 6], (u8, u8)>,
    pub limbo: Map<[u8; 6], u64>,
}

impl View for WirelessNetwork {
    type V = NetworkView;

    open spec fn view(&self) -> NetworkView {
        NetworkView {
            devices: self.devices@,
            mobo_pwm: self.mobo_pwm,
            master_mac: self.master_mac,
            master_channel: self.master_channel,
            pending: self.pending_addr@,
            limbo: self.limbo_since@,
        }
    }
}

/// The banks of the dongle and their slots have changed.
#[derive(Debug)]
pub struct SlotReport {
    /// The banks with their slots, in order.
    pub assignment: Vec<([u8; 6], u8)>,
    /// Whether two of them share a slot, so that not all that is sent to one
    /// bank alone may arrive.
    pub shared: bool,
}

/// What a poll has changed.
#[derive(Debug)]
pub struct PollReport {
    pub slots: Option<SlotReport>,
    /// Where the number of devices has changed: how many are bound to the
    /// dongle, and how many are not.
    pub population: Option<(usize, usize)>,
    /// Where the dongle's own record has moved its channel: to which.
    pub announced: Option<u8>,
    /// Where the devices then agreed on another channel: on which.
    pub moved: Option<u8>,
}

/// The request for the device list: the command, and page one.
pub fn getdev_command() -> (r: Vec<u8>)
    ensures
        r@ == Seq::new(
            64,
            |i: int|
                if i == 0 {
                    USB_CMD_SEND_RF
                } else if i == 1 {
                    1u8
                } else {
                    0u8
                },
        ),
{
    let mut cmd: Vec<u8> = Vec::new();
    cmd.push(USB_CMD_SEND_RF);
    cmd.push(1);
    while cmd.len() < 64
        invariant
            2 <= cmd.len() <= 64,
            cmd@ =~= Seq::new(
                cmd@.len(),
                |i: int|
                    if i == 0 {
                        USB_CMD_SEND_RF
                    } else if i == 1 {
                        1u8
                    } else {
                        0u8
                    },
            ),
        decreases 64 - cmd.len(),
    {
        cmd.push(0);
    }
    cmd
}

/// The duty cycle of the mainboard, from the times for which its signal is
/// low and high; the top bit of the first says that there is none.
pub open spec fn pwm_of(indicator: u8, on_time: u8) -> u16 {
    if indicator >= 128 || indicator + on_time == 0 {
        PWM_UNAVAILABLE
    } else {
        (255 * on_time / (indicator + on_time)) as u16
    }
}

fn mobo_pwm_of(indicator: u8, on_time: u8) -> (r: u16)
    ensures
        r == pwm_of(indicator, on_time),
{
    if indicator >= 128 {
        return PWM_UNAVAILABLE;
    }
    let total: u16 = indicator as u16 + on_time as u16;
    if total > 0 {
        255u16 * on_time as u16 / total
    } else {
        PWM_UNAVAILABLE
    }
}

/// A known duty cycle is one of eight bits.
pub proof fn law_pwm_range(indicator: u8, on_time: u8)
    ensures
        pwm_of(indicator, on_time) <= 255 || pwm_of(indicator, on_time) == PWM_UNAVAILABLE,
{
    if indicator < 128 && indicator + on_time > 0 {
        let n = 255 * on_time;
        let d = indicator + on_time;
        assert(0 <= n / d <= 255) by (nonlinear_arith)
            requires
                0 <= n <= 255 * d,
                d > 0,
        ;
    }
}

/// Record `i` of an answer.
pub open spec fn record(resp: Seq<u8>, i: int) -> Seq<u8> {
    resp.subrange(4 + i * 42, 46 + i * 42)
}

/// How many records of an answer are complete.
pub open spec fn record_count(resp: Seq<u8>) -> nat {
    let fit = (resp.len() - 4) / 42;
    if fit < resp[1] {
        fit as nat
    } else {
        resp[1] as nat
    }
}

/// Whether a record is that of the dongle at `mac`, and names a channel.
pub open spec fn is_master_record(rec: Seq<u8>, mac: [u8; 6]) -> bool {
    &&& rec[41] == RECORD_MARKER
    &&& rec[18] == MASTER_DEVICE_TYPE
    &&& rec.subrange(0, 6) == mac@
    &&& rec[12] != 0
}

/// The channel of the dongle after the first `n` records of an answer: its
/// own record tells.
pub open spec fn channel_after(resp: Seq<u8>, mac: [u8; 6], channel: u8, n: nat) -> u8
    decreases n,
{
    if n == 0 {
        channel
    } else if is_master_record(record(resp, n - 1), mac) {
        record(resp, n - 1)[12]
    } else {
        channel_after(resp, mac, channel, (n - 1) as nat)
    }
}

/// The devices in the first `n` records of an answer.
pub open spec fn found_devices(resp: Seq<u8>, n: nat) -> Seq<DiscoveredDevice>
    decreases n,
{
    if n == 0 {
        Seq::empty()
    } else {
        let before = found_devices(resp, (n - 1) as nat);
        let rec = record(resp, n - 1);
        if is_device_record(rec) {
            before.push(record_device(rec, (n - 1) as u8))
        } else {
            before
        }
    }
}

/// Whether all bound devices report channel `ch`, and there is one.
pub open spec fn all_bound_on(found: Seq<DiscoveredDevice>, mac: [u8; 6], ch: u8) -> bool {
    &&& exists|i: int| 0 <= i < found.len() && (#[trigger] found[i]).master_mac == mac
    &&& forall|i: int|
        0 <= i < found.len() && (#[trigger] found[i]).master_mac == mac ==> found[i].channel == ch
}

/// The channel of the dongle once its devices have been heard: where they
/// agree on one, it is that.
pub open spec fn consensus_channel(found: Seq<DiscoveredDevice>, mac: [u8; 6], channel: u8) -> u8 {
    if exists|ch: u8| all_bound_on(found, mac, ch) {
        choose|ch: u8| all_bound_on(found, mac, ch)
    } else {
        channel
    }
}

/// The first device of the list at address `mac`, from place `i` on.
pub open spec fn device_at(devices: Seq<DiscoveredDevice>, mac: [u8; 6], i: int) -> Option<
    DiscoveredDevice,
>
    decreases devices.len() - i,
{
    if i < 0 || i >= devices.len() {
        None
    } else if devices[i].mac == mac {
        Some(devices[i])
    } else {
        device_at(devices, mac, i + 1)
    }
}

/// Records on their way into the device list.
#[verifier::ext_equal]
pub struct Sieve {
    pub kept: Seq<DiscoveredDevice>,
    pub pending: Map<[u8; 6], (u8, u8)>,
    pub limbo: Map<[u8; 6], u64>,
}

impl Sieve {
    pub open spec fn keep(self, d: DiscoveredDevice) -> Sieve {
        Sieve { kept: self.kept.push(d), ..self }
    }

    /// A record held against the one accepted before, `old`.
    pub open spec fn against(
        self,
        old: DiscoveredDevice,
        mac: [u8; 6],
        channel: u8,
        d: DiscoveredDevice,
    ) -> Sieve {
        let addr = (d.rx_type, d.channel);
        if d.fan_count == 0 && old.fan_count > 0 {
            // It has lost its fans.
            self.keep(old)
        } else if d.rx_type > RX_TYPE_MAX {
            // No device has such a slot.
            self.keep(old)
        } else if d.master_mac == mac && d.channel != channel {
            // A bound device that is not where the network is.
            self.keep(old)
        } else if addr == (old.rx_type, old.channel) {
            Sieve { pending: self.pending.remove(d.mac), ..self }.keep(d)
        } else if self.pending.contains_key(d.mac) && self.pending[d.mac] == addr {
            // It has moved, and says so for the second time.
            Sieve { pending: self.pending.remove(d.mac), ..self }.keep(d)
        } else {
            // It has moved, if it is to be believed.
            Sieve { pending: self.pending.insert(d.mac, addr), ..self }.keep(old)
        }
    }

    /// A record, held against the devices accepted before.
    pub open spec fn step(
        self,
        devices: Seq<DiscoveredDevice>,
        mac: [u8; 6],
        channel: u8,
        now: u64,
        d: DiscoveredDevice,
    ) -> Sieve {
        if d.master_mac == mac && d.channel == 0 {
            // It has fallen off the network, and can be reached where it is.
            Sieve {
                pending: self.pending.remove(d.mac),
                limbo: if self.limbo.contains_key(d.mac) {
                    self.limbo
                } else {
                    self.limbo.insert(d.mac, now)
                },
                ..self
            }.keep(d)
        } else {
            let s = if d.master_mac == mac {
                Sieve { limbo: self.limbo.remove(d.mac), ..self }
            } else {
                self
            };
            match device_at(devices, d.mac, 0) {
                None => if d.rx_type <= RX_TYPE_MAX {
                    s.keep(d)
                } else {
                    s
                },
                Some(old) => s.against(old, mac, channel, d),
            }
        }
    }
}

impl NetworkView {
    /// The first `n` of the found records, held against the devices that were
    /// accepted before.
    pub open spec fn sieve(
        self,
        channel: u8,
        now: u64,
        found: Seq<DiscoveredDevice>,
        n: nat,
    ) -> Sieve
        decreases n,
    {
        if n == 0 {
            Sieve { kept: Seq::empty(), pending: self.pending, limbo: self.limbo }
        } else {
            self.sieve(channel, now, found, (n - 1) as nat).step(
                self.devices,
                self.master_mac,
                channel,
                now,
                found[n - 1],
            )
        }
    }

    /// The network once the records of a poll have been found.
    pub open spec fn with_found(self, now: u64, found: Seq<DiscoveredDevice>) -> NetworkView {
        if found.len() == 0 {
            self
        } else {
            let channel = consensus_channel(found, self.master_mac, self.master_channel);
            let s = self.sieve(channel, now, found, found.len());
            NetworkView {
                devices: s.kept,
                master_channel: channel,
                pending: s.pending,
                limbo: s.limbo,
                ..self
            }
        }
    }

    /// Whether an answer carries a device list.
    pub open spec fn has_list(resp: Seq<u8>) -> bool {
        resp.len() >= 4 && resp[0] == USB_CMD_SEND_RF && 1 <= resp[1] <= MAX_DEVICES
    }

    /// The network after an answer of the dongle.
    pub open spec fn poll(self, resp: Seq<u8>, now: u64) -> NetworkView {
        if resp.len() < 4 || resp[0] != USB_CMD_SEND_RF {
            self
        } else {
            let s = NetworkView { mobo_pwm: pwm_of(resp[2], resp[3]), ..self };
            if !Self::has_list(resp) {
                s
            } else {
                let n = record_count(resp);
                NetworkView {
                    master_channel: channel_after(resp, s.master_mac, s.master_channel, n),
                    ..s
                }.with_found(now, found_devices(resp, n))
            }
        }
    }

    /// The banks of the dongle with their slots.
    pub open spec fn slots(self) -> Seq<([u8; 6], u8)> {
        bound_slots(self.devices, self.master_mac)
    }

    /// Whether the banks or their slots have changed in a way that is worth
    /// telling: there were some before.
    pub open spec fn slots_changed(self, after: NetworkView) -> bool {
        &&& self.slots().len() > 0
        &&& self.slots().to_multiset() != after.slots().to_multiset()
    }
}

impl PollReport {
    /// That a report tells what has changed between two states.
    pub open spec fn tells(self, before: NetworkView, after: NetworkView) -> bool {
        &&& self.slots is Some <==> before.slots_changed(after)
        &&& self.slots matches Some(s) ==> {
            &&& s.assignment@.to_multiset() == after.slots().to_multiset()
            &&& sorted_by(s.assignment@, slot_le())
            &&& s.shared == slots_shared(s.assignment@)
        }
        &&& self.population is Some <==> before.devices.len() != after.devices.len()
        &&& self.population matches Some((bound, unbound)) ==> {
            &&& bound == after.slots().len()
            &&& bound + unbound == after.devices.len()
        }
    }
}

/// The channel of the dongle once its own record in an answer has been read.
pub open spec fn announced_channel(n: NetworkView, resp: Seq<u8>) -> u8 {
    if NetworkView::has_list(resp) {
        channel_after(resp, n.master_mac, n.master_channel, record_count(resp))
    } else {
        n.master_channel
    }
}

/// `to`, where that is not `from`.
pub open spec fn change(from: u8, to: u8) -> Option<u8> {
    if from == to {
        None
    } else {
        Some(to)
    }
}

fn change_of(from: u8, to: u8) -> (r: Option<u8>)
    ensures
        r == change(from, to),
{
    if from == to {
        None
    } else {
        Some(to)
    }
}

/// The place of the first device at address `mac`.
fn device_position(devices: &Vec<DiscoveredDevice>, mac: &[u8; 6]) -> (r: Option<usize>)
    ensures
        match r {
            Some(i) => i < devices@.len() && device_at(devices@, *mac, 0) == Some(
                devices@[i as int],
            ),
            None => device_at(devices@, *mac, 0) is None,
        },
{
    let mut i: usize = 0;
    while i < devices.len()
        invariant
            i <= devices@.len(),
            device_at(devices@, *mac, 0) == device_at(devices@, *mac, i as int),
        decreases devices@.len() - i,
    {
        if devices[i].mac.same(mac) {
            return Some(i);
        }
        i += 1;
    }
    None
}

/// The first bound device of the list.
fn first_bound(found: &Vec<DiscoveredDevice>, mac: &[u8; 6]) -> (r: Option<usize>)
    ensures
        match r {
            Some(i) => i < found@.len() && found@[i as int].master_mac == *mac,
            None => forall|i: int| 0 <= i < found@.len() ==> (#[trigger] found@[i]).master_mac != *mac,
        },
{
    let mut i: usize = 0;
    while i < found.len()
        invariant
            i <= found@.len(),
            forall|j: int| 0 <= j < i ==> (#[trigger] found@[j]).master_mac != *mac,
        decreases found@.len() - i,
    {
        if found[i].master_mac.same(mac) {
            return Some(i);
        }
        i += 1;
    }
    None
}

/// The channel of the dongle once its devices have been heard.
fn agreed_channel(found: &Vec<DiscoveredDevice>, mac: &[u8; 6], channel: u8) -> (r: u8)
    ensures
        r == consensus_channel(found@, *mac, channel),
{
    let first: usize = match first_bound(found, mac) {
        Some(i) => i,
        None => {
            return channel;
        },
    };
    let ch: u8 = found[first].channel;
    let mut i: usize = 0;
    while i < found.len()
        invariant
            i <= found@.len(),
            first < found@.len(),
            found@[first as int].master_mac == *mac,
            ch == found@[first as int].channel,
            forall|j: int|
                0 <= j < i && (#[trigger] found@[j]).master_mac == *mac ==> found@[j].channel == ch,
        decreases found@.len() - i,
    {
        if found[i].master_mac.same(mac) && found[i].channel != ch {
            proof {
                assert forall|c: u8| !all_bound_on(found@, *mac, c) by {
                    if all_bound_on(found@, *mac, c) {
                        assert(found@[first as int].channel == c);
                        assert(found@[i as int].channel == c);
                    }
                }
            }
            return channel;
        }
        i += 1;
    }
    proof {
        assert(all_bound_on(found@, *mac, ch));
        let c = choose|c: u8| all_bound_on(found@, *mac, c);
        assert(found@[first as int].channel == c);
    }
    ch
}

/// How many devices of the list are bound to the dongle.
fn count_bound(devices: &Vec<DiscoveredDevice>, mac: &[u8; 6]) -> (r: usize)
    ensures
        r == bound_slots(devices@, *mac).len(),
        r <= devices@.len(),
{
    let mut n: usize = 0;
    let mut i: usize = 0;
    proof {
        assert(devices@.take(0) =~= Seq::empty());
    }
    while i < devices.len()
        invariant
            i <= devices@.len(),
            n <= i,
            n == bound_slots(devices@.take(i as int), *mac).len(),
        decreases devices@.len() - i,
    {
        proof {
            assert(devices@.take(i + 1).drop_last() =~= devices@.take(i as int));
        }
        if devices[i].master_mac.same(mac) {
            n += 1;
        }
        i += 1;
    }
    proof {
        assert(devices@.take(i as int) =~= devices@);
    }
    n
}

/// Whether a record is that of the dongle, and names a channel.
fn names_master_channel(rec: &[u8], mac: &[u8; 6]) -> (r: bool)
    requires
        rec@.len() == 42,
    ensures
        r == is_master_record(rec@, *mac),
{
    let r = rec[41] == RECORD_MARKER && rec[18] == MASTER_DEVICE_TYPE && rec[0] == mac[0] && rec[1]
        == mac[1] && rec[2] == mac[2] && rec[3] == mac[3] && rec[4] == mac[4] && rec[5] == mac[5]
        && rec[12] != 0;
    proof {
        let head = rec@.subrange(0, 6);
        if r {
            assert(head =~= mac@);
        }
        if head == mac@ {
            assert(head[0] == mac[0] && head[1] == mac[1] && head[2] == mac[2] && head[3] == mac[3]
                && head[4] == mac[4] && head[5] == mac[5]);
        }
    }
    r
}

/// What has changed between two device lists.
fn compare_lists(
    before: &Vec<DiscoveredDevice>,
    after: &Vec<DiscoveredDevice>,
    mac: &[u8; 6],
) -> (r: PollReport)
    ensures
        forall|a: NetworkView, b: NetworkView|
            a.devices == before@ && b.devices == after@ && a.master_mac == *mac && b.master_mac
                == *mac ==> #[trigger] r.tells(a, b),
{
    broadcast use vstd::seq_lib::group_to_multiset_ensures;

    let old_slots = sorted_slots(before, mac);
    let new_slots = sorted_slots(after, mac);
    let changed = old_slots.len() > 0 && slots_differ(&old_slots, &new_slots);
    let slots = if changed {
        let shared = any_slot_shared(&new_slots);
        Some(SlotReport { assignment: new_slots, shared })
    } else {
        None
    };
    let population: Option<(usize, usize)> = if before.len() != after.len() {
        let bound: usize = count_bound(after, mac);
        Some((bound, after.len() - bound))
    } else {
        None
    };
    proof {
        assert(old_slots@.to_multiset().len() == old_slots@.len());
        assert(bound_slots(before@, *mac).to_multiset().len() == bound_slots(before@, *mac).len());
    }
    PollReport { slots, population, announced: None, moved: None }
}

impl WirelessNetwork {
    pub open spec fn wf(&self) -> bool {
        self.pending_addr.wf() && self.limbo_since.wf()
    }

    /// A network of which nothing is known but its dongle.
    pub fn new(master_mac: [u8; 6], master_channel: u8) -> (r: Self)
        ensures
            r.wf(),
            r@ == (NetworkView {
                devices: Seq::empty(),
                mobo_pwm: PWM_UNAVAILABLE,
                master_mac,
                master_channel,
                pending: Map::empty(),
                limbo: Map::empty(),
            }),
    {
        WirelessNetwork {
            devices: Vec::new(),
            mobo_pwm: PWM_UNAVAILABLE,
            master_mac,
            master_channel,
            pending_addr: VecMap::new(),
            limbo_since: VecMap::new(),
        }
    }

    /// Holds a record against the devices accepted before.
    fn sieve_record(&mut self, kept: &mut Vec<DiscoveredDevice>, channel: u8, now: u64, d: DiscoveredDevice)
        requires
            old(self).wf(),
        ensures
            final(self).wf(),
            final(self)@ == (NetworkView {
                pending: final(self)@.pending,
                limbo: final(self)@.limbo,
                ..old(self)@
            }),
            (Sieve {
                kept: final(kept)@,
                pending: final(self)@.pending,
                limbo: final(self)@.limbo,
            }) == (Sieve {
                kept: old(kept)@,
                pending: old(self)@.pending,
                limbo: old(self)@.limbo,
            }).step(old(self)@.devices, old(self)@.master_mac, channel, now, d),
    {
        let bound = d.master_mac.same(&self.master_mac);
        if bound {
            if d.channel == 0 {
                if !self.limbo_since.contains_key(&d.mac) {
                    self.limbo_since.insert(d.mac, now);
                }
                self.pending_addr.remove(&d.mac);
                kept.push(d);
                return;
            }
            self.limbo_since.remove(&d.mac);
        }
        let old_device: DiscoveredDevice = match device_position(&self.devices, &d.mac) {
            Some(i) => self.devices[i],
            None => {
                if d.rx_type <= RX_TYPE_MAX {
                    kept.push(d);
                }
                return;
            },
        };
        if d.fan_count == 0 && old_device.fan_count > 0 {
            kept.push(old_device);
            return;
        }
        if d.rx_type > RX_TYPE_MAX {
            kept.push(old_device);
            return;
        }
        if bound && d.channel != channel {
            kept.push(old_device);
            return;
        }
        if d.rx_type != old_device.rx_type || d.channel != old_device.channel {
            let confirmed = match self.pending_addr.get(&d.mac) {
                Some(addr) => addr.0 == d.rx_type && addr.1 == d.channel,
                None => false,
            };
            if confirmed {
                self.pending_addr.remove(&d.mac);
                kept.push(d);
            } else {
                self.pending_addr.insert(d.mac, (d.rx_type, d.channel));
                kept.push(old_device);
            }
            return;
        }
        self.pending_addr.remove(&d.mac);
        kept.push(d);
    }

    /// Takes the records of a poll.
    fn take_found(&mut self, found: &Vec<DiscoveredDevice>, now: u64) -> (r: PollReport)
        requires
            old(self).wf(),
            found@.len() > 0,
        ensures
            final(self).wf(),
            final(self)@ == old(self)@.with_found(now, found@),
            r.tells(old(self)@, final(self)@),
    {
        let channel: u8 = agreed_channel(found, &self.master_mac, self.master_channel);
        let ghost start = self@;
        let mut kept: Vec<DiscoveredDevice> = Vec::new();
        let mut i: usize = 0;
        while i < found.len()
            invariant
                i <= found@.len(),
                self.wf(),
                self@ == (NetworkView {
                    pending: self@.pending,
                    limbo: self@.limbo,
                    ..start
                }),
                (Sieve { kept: kept@, pending: self@.pending, limbo: self@.limbo }) == start.sieve(
                    channel,
                    now,
                    found@,
                    i as nat,
                ),
            decreases found@.len() - i,
        {
            self.sieve_record(&mut kept, channel, now, found[i]);
            i += 1;
        }
        self.master_channel = channel;
        let report = compare_lists(&self.devices, &kept, &self.master_mac);
        self.devices = kept;
        proof {
            assert(report.tells(start, self@));
        }
        report
    }

    /// Takes an answer of the dongle to the request for its devices.
    pub fn poll_and_discover(&mut self, response: &[u8], now: u64) -> (r: Result<
        PollReport,
        UnexpectedResponse,
    >)
        requires
            old(self).wf(),
        ensures
            final(self).wf(),
            final(self)@ == old(self)@.poll(response@, now),
            r is Err <==> response@.len() >= 4 && response@[0] != USB_CMD_SEND_RF,
            r matches Err(e) ==> e == UnexpectedResponse(response@[0]),
            r matches Ok(report) ==> {
                &&& report.tells(old(self)@, final(self)@)
                &&& report.announced == change(
                    old(self)@.master_channel,
                    announced_channel(old(self)@, response@),
                )
                &&& report.moved == change(
                    announced_channel(old(self)@, response@),
                    final(self)@.master_channel,
                )
            },
    {
        if response.len() < 4 {
            return Ok(PollReport { slots: None, population: None, announced: None, moved: None });
        }
        if response[0] != USB_CMD_SEND_RF {
            return Err(UnexpectedResponse(response[0]));
        }
        let count: u8 = response[1];
        let channel: u8 = self.master_channel;
        self.mobo_pwm = mobo_pwm_of(response[2], response[3]);
        if count == 0 || count > MAX_DEVICES {
            return Ok(PollReport { slots: None, population: None, announced: None, moved: None });
        }
        let ghost start = self@;
        let ghost resp = response@;
        let ghost total = record_count(resp);
        let mut found: Vec<DiscoveredDevice> = Vec::new();
        let mut idx: u8 = 0;
        let mut offset: usize = 4;
        while idx < count && offset + RECORD_LEN <= response.len()
            invariant
                resp == response@,
                count == resp[1],
                count <= MAX_DEVICES,
                resp.len() >= 4,
                total == record_count(resp),
                idx <= total,
                offset == 4 + idx * 42,
                self.wf(),
                self@ == (NetworkView {
                    master_channel: channel_after(
                        resp,
                        start.master_mac,
                        start.master_channel,
                        idx as nat,
                    ),
                    ..start
                }),
                found@ == found_devices(resp, idx as nat),
            decreases count - idx,
        {
            let rec = vstd::slice::slice_subrange(response, offset, offset + RECORD_LEN);
            proof {
                assert(rec@ =~= record(resp, idx as int));
            }
            if names_master_channel(rec, &self.master_mac) {
                self.master_channel = rec[12];
            }
            if let Some(device) = parse_device_record(rec, idx) {
                found.push(device);
            }
            idx += 1;
            offset += RECORD_LEN;
        }
        proof {
            assert(idx == total);
        }
        let announced: u8 = self.master_channel;
        if found.len() == 0 {
            return Ok(
                PollReport {
                    slots: None,
                    population: None,
                    announced: change_of(channel, announced),
                    moved: None,
                },
            );
        }
        let report = self.take_found(&found, now);
        Ok(
            PollReport {
                announced: change_of(channel, announced),
                moved: change_of(announced, self.master_channel),
                ..report
            },
        )
    }
}

} // verus!
