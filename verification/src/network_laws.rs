//! What holds of the polls of a network.

use vstd::prelude::*;
use crate::discovery::DiscoveredDevice;
use crate::network::{
    all_bound_on, channel_after, consensus_channel, device_at, found_devices, pwm_of, record_count,
    NetworkView, Sieve, RX_TYPE_MAX, USB_CMD_SEND_RF,
};

verus! {

/// Whether a record is of a device that has fallen off the network of the
/// dongle at `mac`.
pub open spec fn in_limbo(d: DiscoveredDevice, mac: [u8; 6]) -> bool {
    d.master_mac == mac && d.channel == 0
}

/// A device's slot and channel.
pub open spec fn address(d: DiscoveredDevice) -> (u8, u8) {
    (d.rx_type, d.channel)
}

/// Whether a record of a device on the network, known as `old`, is free of
/// the signs of corruption.
pub open spec fn plausible(d: DiscoveredDevice, old: DiscoveredDevice, mac: [u8; 6], channel: u8) -> bool {
    &&& !in_limbo(d, mac)
    &&& d.fan_count > 0 || old.fan_count == 0
    &&& d.rx_type <= RX_TYPE_MAX
    &&& d.master_mac == mac ==> d.channel == channel
}

/// Where the bound devices agree on a channel, the dongle follows them, and
/// otherwise it stays on its own.
pub proof fn law_channel_follows(found: Seq<DiscoveredDevice>, mac: [u8; 6], channel: u8, ch: u8)
    ensures
        all_bound_on(found, mac, ch) ==> consensus_channel(found, mac, channel) == ch,
        (forall|c: u8| !#[trigger] all_bound_on(found, mac, c)) ==> consensus_channel(
            found,
            mac,
            channel,
        ) == channel,
{
    if all_bound_on(found, mac, ch) {
        let c = choose|c: u8| all_bound_on(found, mac, c);
        assert(all_bound_on(found, mac, c));
        let i = choose|i: int| 0 <= i < found.len() && (#[trigger] found[i]).master_mac == mac;
        assert(found[i].channel == ch && found[i].channel == c);
    }
}

/// A known device is the one that was asked for.
pub proof fn lemma_device_at(devices: Seq<DiscoveredDevice>, mac: [u8; 6], i: int)
    requires
        0 <= i,
    ensures
        device_at(devices, mac, i) matches Some(d) ==> d.mac == mac && devices.contains(d),
    decreases devices.len() - i,
{
    if i < devices.len() && devices[i].mac != mac {
        lemma_device_at(devices, mac, i + 1);
    }
}

/// Whether a record of a device on the network, known as `old`, shows signs of
/// corruption.
pub open spec fn corrupt(d: DiscoveredDevice, old: DiscoveredDevice, mac: [u8; 6], channel: u8) -> bool {
    !in_limbo(d, mac) && !plausible(d, old, mac, channel)
}

/// The devices in an answer of the dongle, record by record.
pub open spec fn reports(resp: Seq<u8>) -> Seq<DiscoveredDevice> {
    if NetworkView::has_list(resp) {
        found_devices(resp, record_count(resp))
    } else {
        Seq::empty()
    }
}

/// That no later record of an answer is of the same device as record `k`.
pub open spec fn last_record(found: Seq<DiscoveredDevice>, k: int) -> bool {
    &&& 0 <= k < found.len()
    &&& forall|i: int| k < i < found.len() ==> (#[trigger] found[i]).mac != found[k].mac
}

/// That record `k` is the only one of its device in an answer.
pub open spec fn only_record(found: Seq<DiscoveredDevice>, k: int) -> bool {
    &&& 0 <= k < found.len()
    &&& forall|i: int| 0 <= i < found.len() && i != k ==> (#[trigger] found[i]).mac != found[k].mac
}

/// That all later records of the device of record `k`, if there are any, show
/// signs of corruption.
pub open spec fn later_corrupt(
    found: Seq<DiscoveredDevice>,
    k: int,
    old: DiscoveredDevice,
    mac: [u8; 6],
    channel: u8,
) -> bool {
    &&& 0 <= k < found.len()
    &&& forall|i: int|
        k < i < found.len() && (#[trigger] found[i]).mac == found[k].mac ==> corrupt(
            found[i],
            old,
            mac,
            channel,
        )
}

/// That all other records of the device of record `k`, if there are any, show
/// signs of corruption.
pub open spec fn others_corrupt(
    found: Seq<DiscoveredDevice>,
    k: int,
    old: DiscoveredDevice,
    mac: [u8; 6],
    channel: u8,
) -> bool {
    &&& 0 <= k < found.len()
    &&& forall|i: int|
        0 <= i < found.len() && i != k && (#[trigger] found[i]).mac == found[k].mac ==> corrupt(
            found[i],
            old,
            mac,
            channel,
        )
}

/// That no earlier record of the device of record `k`, free of signs of
/// corruption, names the same address.
pub open spec fn first_of_its_address(
    found: Seq<DiscoveredDevice>,
    k: int,
    old: DiscoveredDevice,
    mac: [u8; 6],
    channel: u8,
) -> bool {
    forall|i: int|
        0 <= i < k && (#[trigger] found[i]).mac == found[k].mac && plausible(
            found[i],
            old,
            mac,
            channel,
        ) ==> address(found[i]) != address(found[k])
}

/// A network once the duty cycle and the dongle's own record of an answer have
/// been taken.
spec fn heard(n: NetworkView, resp: Seq<u8>) -> NetworkView {
    NetworkView {
        mobo_pwm: pwm_of(resp[2], resp[3]),
        master_channel: channel_after(resp, n.master_mac, n.master_channel, record_count(resp)),
        ..n
    }
}

/// A poll with devices is what its records leave in the sieve.
proof fn lemma_poll(n: NetworkView, resp: Seq<u8>, now: u64)
    requires
        reports(resp).len() > 0,
    ensures
        ({
            let found = reports(resp);
            let after = n.poll(resp, now);
            let s = heard(n, resp).sieve(after.master_channel, now, found, found.len());
            &&& after.master_mac == n.master_mac
            &&& after.devices == s.kept
            &&& after.pending == s.pending
            &&& after.limbo == s.limbo
        }),
{
    let h = heard(n, resp);
    assert(n.poll(resp, now) == h.with_found(now, reports(resp)));
}

/// An entry of the list has its address found.
pub proof fn lemma_device_at_contains(devices: Seq<DiscoveredDevice>, x: DiscoveredDevice, i: int)
    requires
        0 <= i,
        exists|j: int| i <= j < devices.len() && devices[j] == x,
    ensures
        device_at(devices, x.mac, i) is Some,
    decreases devices.len() - i,
{
    let j = choose|j: int| i <= j < devices.len() && devices[j] == x;
    if devices[i].mac != x.mac {
        assert(i + 1 <= j);
        lemma_device_at_contains(devices, x, i + 1);
    }
}

/// What the sieve has kept stays, and a record touches only the memory of its
/// own device.
proof fn lemma_step_frame(
    s: Sieve,
    devices: Seq<DiscoveredDevice>,
    mac: [u8; 6],
    channel: u8,
    now: u64,
    d: DiscoveredDevice,
    m: [u8; 6],
)
    ensures
        s.kept.is_prefix_of(s.step(devices, mac, channel, now, d).kept),
        d.mac != m ==> {
            let t = s.step(devices, mac, channel, now, d);
            &&& t.pending.contains_key(m) == s.pending.contains_key(m)
            &&& s.pending.contains_key(m) ==> t.pending[m] == s.pending[m]
            &&& t.limbo.contains_key(m) == s.limbo.contains_key(m)
            &&& s.limbo.contains_key(m) ==> t.limbo[m] == s.limbo[m]
        },
{
    let t = s.step(devices, mac, channel, now, d);
    assert(s.kept =~= t.kept.take(s.kept.len() as int));
}

proof fn lemma_sieve_prefix(
    n: NetworkView,
    channel: u8,
    now: u64,
    found: Seq<DiscoveredDevice>,
    k: nat,
    j: nat,
)
    requires
        k <= j <= found.len(),
    ensures
        n.sieve(channel, now, found, k).kept.is_prefix_of(n.sieve(channel, now, found, j).kept),
    decreases j,
{
    let a = n.sieve(channel, now, found, k).kept;
    if k < j {
        lemma_sieve_prefix(n, channel, now, found, k, (j - 1) as nat);
        let s = n.sieve(channel, now, found, (j - 1) as nat);
        lemma_step_frame(s, n.devices, n.master_mac, channel, now, found[j - 1], found[j - 1].mac);
        let b = n.sieve(channel, now, found, j).kept;
        assert(a =~= b.take(a.len() as int));
    } else {
        assert(a =~= a.take(a.len() as int));
    }
}

/// Records of other devices leave the memory of a device alone.
proof fn lemma_sieve_frame(
    n: NetworkView,
    channel: u8,
    now: u64,
    found: Seq<DiscoveredDevice>,
    k: nat,
    j: nat,
    m: [u8; 6],
)
    requires
        k <= j <= found.len(),
        forall|i: int| k <= i < j ==> (#[trigger] found[i]).mac != m,
    ensures
        ({
            let s = n.sieve(channel, now, found, k);
            let t = n.sieve(channel, now, found, j);
            &&& t.pending.contains_key(m) == s.pending.contains_key(m)
            &&& s.pending.contains_key(m) ==> t.pending[m] == s.pending[m]
            &&& t.limbo.contains_key(m) == s.limbo.contains_key(m)
            &&& s.limbo.contains_key(m) ==> t.limbo[m] == s.limbo[m]
        }),
    decreases j,
{
    if k < j {
        lemma_sieve_frame(n, channel, now, found, k, (j - 1) as nat, m);
        let s = n.sieve(channel, now, found, (j - 1) as nat);
        lemma_step_frame(s, n.devices, n.master_mac, channel, now, found[j - 1], m);
    }
}

/// Records of other devices, and corrupt ones of a known device, leave what is
/// pending for that device alone, and keep it as it was known.
proof fn lemma_sieve_quiet(
    n: NetworkView,
    channel: u8,
    now: u64,
    found: Seq<DiscoveredDevice>,
    k: nat,
    j: nat,
    m: [u8; 6],
    old: DiscoveredDevice,
)
    requires
        k <= j <= found.len(),
        device_at(n.devices, m, 0) == Some(old),
        forall|i: int|
            k <= i < j && (#[trigger] found[i]).mac == m ==> corrupt(
                found[i],
                old,
                n.master_mac,
                channel,
            ),
    ensures
        ({
            let s = n.sieve(channel, now, found, k);
            let t = n.sieve(channel, now, found, j);
            &&& t.pending.contains_key(m) == s.pending.contains_key(m)
            &&& s.pending.contains_key(m) ==> t.pending[m] == s.pending[m]
            &&& s.kept.is_prefix_of(t.kept)
            &&& forall|i: int|
                s.kept.len() <= i < t.kept.len() && (#[trigger] t.kept[i]).mac == m ==> t.kept[i]
                    == old
        }),
    decreases j,
{
    lemma_sieve_prefix(n, channel, now, found, k, j);
    if k < j {
        lemma_sieve_quiet(n, channel, now, found, k, (j - 1) as nat, m, old);
        let d = found[j - 1];
        let s = n.sieve(channel, now, found, k);
        let u = n.sieve(channel, now, found, (j - 1) as nat);
        let t = n.sieve(channel, now, found, j);
        assert(t == u.step(n.devices, n.master_mac, channel, now, d));
        lemma_step_frame(u, n.devices, n.master_mac, channel, now, d, m);
        lemma_device_at(n.devices, d.mac, 0);
        assert forall|i: int|
            s.kept.len() <= i < t.kept.len() && (#[trigger] t.kept[i]).mac == m implies t.kept[i]
            == old by {
            if i < u.kept.len() {
                assert(t.kept[i] == u.kept[i]);
            }
        }
    }
}

/// Where no record names an address, that address does not become pending.
proof fn lemma_sieve_not_pending(
    n: NetworkView,
    channel: u8,
    now: u64,
    found: Seq<DiscoveredDevice>,
    k: nat,
    m: [u8; 6],
    old: DiscoveredDevice,
    addr: (u8, u8),
)
    requires
        k <= found.len(),
        device_at(n.devices, m, 0) == Some(old),
        !(n.pending.contains_key(m) && n.pending[m] == addr),
        forall|i: int|
            0 <= i < k && (#[trigger] found[i]).mac == m && plausible(
                found[i],
                old,
                n.master_mac,
                channel,
            ) ==> address(found[i]) != addr,
    ensures
        ({
            let t = n.sieve(channel, now, found, k);
            !(t.pending.contains_key(m) && t.pending[m] == addr)
        }),
    decreases k,
{
    if k > 0 {
        lemma_sieve_not_pending(n, channel, now, found, (k - 1) as nat, m, old, addr);
        let d = found[k - 1];
        let u = n.sieve(channel, now, found, (k - 1) as nat);
        lemma_step_frame(u, n.devices, n.master_mac, channel, now, d, m);
    }
}

proof fn lemma_device_at_push(devices: Seq<DiscoveredDevice>, x: DiscoveredDevice, mac: [u8; 6], i: int)
    requires
        0 <= i <= devices.len(),
    ensures
        device_at(devices.push(x), mac, i) == match device_at(devices, mac, i) {
            Some(d) => Some(d),
            None => if x.mac == mac {
                Some(x)
            } else {
                None
            },
        },
    decreases devices.len() - i,
{
    reveal_with_fuel(device_at, 2);
    if i < devices.len() && devices[i].mac != mac {
        lemma_device_at_push(devices, x, mac, i + 1);
    }
}

/// A record puts nothing but its own device into the list.
proof fn lemma_step_device_at(
    s: Sieve,
    devices: Seq<DiscoveredDevice>,
    mac: [u8; 6],
    channel: u8,
    now: u64,
    d: DiscoveredDevice,
    m: [u8; 6],
)
    ensures
        d.mac != m || device_at(s.kept, m, 0) is Some ==> device_at(
            s.step(devices, mac, channel, now, d).kept,
            m,
            0,
        ) == device_at(s.kept, m, 0),
        d.mac == m && device_at(s.kept, m, 0) is None && device_at(devices, m, 0) is Some
            ==> device_at(s.step(devices, mac, channel, now, d).kept, m, 0) == Some(
            s.step(devices, mac, channel, now, d).kept.last(),
        ),
{
    lemma_device_at(devices, d.mac, 0);
    let t = s.step(devices, mac, channel, now, d);
    if t.kept.len() > s.kept.len() {
        lemma_device_at_push(s.kept, t.kept.last(), m, 0);
        assert(t.kept =~= s.kept.push(t.kept.last()));
    }
}

proof fn lemma_sieve_device_at(
    n: NetworkView,
    channel: u8,
    now: u64,
    found: Seq<DiscoveredDevice>,
    k: nat,
    j: nat,
    m: [u8; 6],
)
    requires
        k <= j <= found.len(),
        forall|i: int| k <= i < j ==> (#[trigger] found[i]).mac != m,
    ensures
        device_at(n.sieve(channel, now, found, j).kept, m, 0) == device_at(
            n.sieve(channel, now, found, k).kept,
            m,
            0,
        ),
    decreases j,
{
    if k < j {
        lemma_sieve_device_at(n, channel, now, found, k, (j - 1) as nat, m);
        let s = n.sieve(channel, now, found, (j - 1) as nat);
        lemma_step_device_at(s, n.devices, n.master_mac, channel, now, found[j - 1], m);
    }
}

/// What a poll makes of a known device, if after one record of it the others
/// show signs of corruption: what is pending is what that record left, and the
/// devices at the address end with what it kept.
proof fn lemma_poll_after_record(
    n: NetworkView,
    resp: Seq<u8>,
    now: u64,
    k: int,
    old: DiscoveredDevice,
)
    requires
        device_at(n.devices, reports(resp)[k].mac, 0) == Some(old),
        later_corrupt(
            reports(resp),
            k,
            old,
            n.master_mac,
            n.poll(resp, now).master_channel,
        ),
    ensures
        ({
            let found = reports(resp);
            let d = found[k];
            let after = n.poll(resp, now);
            let h = heard(n, resp);
            let s = h.sieve(after.master_channel, now, found, k as nat);
            let t = s.step(n.devices, n.master_mac, after.master_channel, now, d);
            &&& after.pending.contains_key(d.mac) == t.pending.contains_key(d.mac)
            &&& t.pending.contains_key(d.mac) ==> after.pending[d.mac] == t.pending[d.mac]
            &&& after.devices.contains(t.kept.last())
            &&& t.kept.len() == s.kept.len() + 1
            &&& t.kept.is_prefix_of(after.devices)
            &&& forall|i: int|
                t.kept.len() <= i < after.devices.len() && (#[trigger] after.devices[i]).mac
                    == d.mac ==> after.devices[i] == old
        }),
{
    let found = reports(resp);
    let d = found[k];
    let channel = n.poll(resp, now).master_channel;
    let h = heard(n, resp);
    lemma_poll(n, resp, now);
    lemma_sieve_quiet(h, channel, now, found, (k + 1) as nat, found.len(), d.mac, old);
    let t = h.sieve(channel, now, found, (k + 1) as nat);
    assert(t == h.sieve(channel, now, found, k as nat).step(
        h.devices,
        h.master_mac,
        channel,
        now,
        d,
    ));
    let u = h.sieve(channel, now, found, found.len());
    assert(u.kept[t.kept.len() - 1] == t.kept.last());
}

/// A device that has fallen off the network is taken as its record shows it,
/// so that it can be reached where it is, and the time since when is kept.
pub proof fn law_limbo_is_followed(n: NetworkView, resp: Seq<u8>, now: u64, k: int)
    requires
        0 <= k < reports(resp).len(),
        in_limbo(reports(resp)[k], n.master_mac),
    ensures
        ({
            let found = reports(resp);
            let d = found[k];
            let after = n.poll(resp, now);
            &&& after.devices.contains(d)
            &&& last_record(found, k) ==> {
                &&& after.limbo.contains_key(d.mac)
                &&& !after.pending.contains_key(d.mac)
            }
            &&& only_record(found, k) ==> after.limbo[d.mac] == if n.limbo.contains_key(d.mac) {
                n.limbo[d.mac]
            } else {
                now
            }
        }),
{
    let found = reports(resp);
    let d = found[k];
    let h = heard(n, resp);
    let channel = n.poll(resp, now).master_channel;
    lemma_poll(n, resp, now);
    lemma_sieve_prefix(h, channel, now, found, (k + 1) as nat, found.len());
    let s = h.sieve(channel, now, found, k as nat);
    let t = h.sieve(channel, now, found, (k + 1) as nat);
    let u = h.sieve(channel, now, found, found.len());
    assert(t == s.step(h.devices, h.master_mac, channel, now, d));
    assert(t.kept.last() == d);
    assert(u.kept[t.kept.len() - 1] == d);
    if last_record(found, k) {
        lemma_sieve_frame(h, channel, now, found, (k + 1) as nat, found.len(), d.mac);
    }
    if only_record(found, k) {
        lemma_sieve_frame(h, channel, now, found, 0, k as nat, d.mac);
        lemma_sieve_frame(h, channel, now, found, (k + 1) as nat, found.len(), d.mac);
    }
}

/// A bound device that is heard on a channel again is no longer off the
/// network.
pub proof fn law_limbo_ends(n: NetworkView, resp: Seq<u8>, now: u64, k: int)
    requires
        last_record(reports(resp), k),
        reports(resp)[k].master_mac == n.master_mac,
        reports(resp)[k].channel != 0,
    ensures
        !n.poll(resp, now).limbo.contains_key(reports(resp)[k].mac),
{
    let found = reports(resp);
    let d = found[k];
    let h = heard(n, resp);
    let channel = n.poll(resp, now).master_channel;
    lemma_poll(n, resp, now);
    lemma_sieve_frame(h, channel, now, found, (k + 1) as nat, found.len(), d.mac);
    let s = h.sieve(channel, now, found, k as nat);
    let t = h.sieve(channel, now, found, (k + 1) as nat);
    assert(t == s.step(h.devices, h.master_mac, channel, now, d));
}

/// A known device whose record has lost its fans, names a slot that does not
/// exist, or is not where the network is, stays as it was known.
pub proof fn law_corrupt_record_is_ignored(
    n: NetworkView,
    resp: Seq<u8>,
    now: u64,
    k: int,
    old: DiscoveredDevice,
)
    requires
        0 <= k < reports(resp).len(),
        device_at(n.devices, reports(resp)[k].mac, 0) == Some(old),
        corrupt(reports(resp)[k], old, n.master_mac, n.poll(resp, now).master_channel),
    ensures
        ({
            let found = reports(resp);
            let m = found[k].mac;
            let after = n.poll(resp, now);
            &&& after.devices.contains(old)
            &&& others_corrupt(found, k, old, n.master_mac, after.master_channel) ==> {
                &&& device_at(after.devices, m, 0) == Some(old)
                &&& after.pending.contains_key(m) == n.pending.contains_key(m)
                &&& n.pending.contains_key(m) ==> after.pending[m] == n.pending[m]
            }
        }),
{
    let found = reports(resp);
    let d = found[k];
    let m = d.mac;
    let h = heard(n, resp);
    let after = n.poll(resp, now);
    let channel = after.master_channel;
    lemma_poll(n, resp, now);
    lemma_device_at(n.devices, m, 0);
    lemma_sieve_prefix(h, channel, now, found, (k + 1) as nat, found.len());
    let s = h.sieve(channel, now, found, k as nat);
    let t = h.sieve(channel, now, found, (k + 1) as nat);
    assert(t == s.step(h.devices, h.master_mac, channel, now, d));
    assert(t.kept.last() == old);
    assert(after.devices[t.kept.len() - 1] == old);
    if others_corrupt(found, k, old, n.master_mac, channel) {
        lemma_sieve_quiet(h, channel, now, found, 0, found.len(), m, old);
        lemma_device_at_contains(after.devices, old, 0);
        lemma_device_at(after.devices, m, 0);
    }
}

/// The address of a known device changes in a poll only if the device is off
/// the network or the same new address was reported in an earlier one.
pub proof fn law_move_needs_confirmation(
    n: NetworkView,
    resp: Seq<u8>,
    now: u64,
    k: int,
    old: DiscoveredDevice,
    x: DiscoveredDevice,
)
    requires
        0 <= k < reports(resp).len(),
        device_at(n.devices, reports(resp)[k].mac, 0) == Some(old),
        others_corrupt(reports(resp), k, old, n.master_mac, n.poll(resp, now).master_channel),
        n.poll(resp, now).devices.contains(x),
        x.mac == reports(resp)[k].mac,
    ensures
        address(x) != address(old) ==> {
            ||| in_limbo(reports(resp)[k], n.master_mac)
            ||| n.pending.contains_key(x.mac) && n.pending[x.mac] == address(reports(resp)[k])
        },
{
    let found = reports(resp);
    let d = found[k];
    let h = heard(n, resp);
    let after = n.poll(resp, now);
    let channel = after.master_channel;
    lemma_poll_after_record(n, resp, now, k, old);
    lemma_sieve_quiet(h, channel, now, found, 0, k as nat, d.mac, old);
    let s = h.sieve(channel, now, found, k as nat);
    let t = s.step(n.devices, n.master_mac, channel, now, d);
    let i = choose|i: int| 0 <= i < after.devices.len() && after.devices[i] == x;
    if i < t.kept.len() {
        assert(after.devices[i] == t.kept[i]);
        if i < s.kept.len() {
            assert(t.kept[i] == s.kept[i]);
        }
    }
}

/// A known device that reports, free of signs of corruption, a new address that
/// is not the one it reported before stays in that poll where it was known to
/// be, and the report is remembered.
pub proof fn law_first_report_is_remembered(
    n: NetworkView,
    resp: Seq<u8>,
    now: u64,
    k: int,
    old: DiscoveredDevice,
)
    requires
        device_at(n.devices, reports(resp)[k].mac, 0) == Some(old),
        !(n.pending.contains_key(reports(resp)[k].mac) && n.pending[reports(resp)[k].mac] == address(
            reports(resp)[k],
        )),
        plausible(reports(resp)[k], old, n.master_mac, n.poll(resp, now).master_channel),
        address(reports(resp)[k]) != address(old),
        first_of_its_address(
            reports(resp),
            k,
            old,
            n.master_mac,
            n.poll(resp, now).master_channel,
        ),
        later_corrupt(reports(resp), k, old, n.master_mac, n.poll(resp, now).master_channel),
    ensures
        ({
            let found = reports(resp);
            let m = found[k].mac;
            let after = n.poll(resp, now);
            &&& after.devices.contains(old)
            &&& after.pending.contains_key(m)
            &&& after.pending[m] == address(found[k])
            &&& device_at(after.devices, m, 0) is Some
            &&& others_corrupt(found, k, old, n.master_mac, after.master_channel) ==> device_at(
                after.devices,
                m,
                0,
            ) == Some(old)
        }),
{
    let found = reports(resp);
    let d = found[k];
    let m = d.mac;
    let h = heard(n, resp);
    let after = n.poll(resp, now);
    let channel = after.master_channel;
    lemma_device_at(n.devices, m, 0);
    lemma_poll_after_record(n, resp, now, k, old);
    lemma_sieve_not_pending(h, channel, now, found, k as nat, m, old, address(d));
    let s = h.sieve(channel, now, found, k as nat);
    let t = s.step(n.devices, n.master_mac, channel, now, d);
    assert(t.kept.last() == old);
    lemma_device_at_contains(after.devices, old, 0);
    lemma_device_at(after.devices, m, 0);
    if others_corrupt(found, k, old, n.master_mac, channel) {
        lemma_sieve_quiet(h, channel, now, found, 0, k as nat, m, old);
        let x = device_at(after.devices, m, 0)->0;
        let i = choose|i: int| 0 <= i < after.devices.len() && after.devices[i] == x;
        if i < t.kept.len() {
            assert(after.devices[i] == t.kept[i]);
            if i < s.kept.len() {
                assert(t.kept[i] == s.kept[i]);
            }
        }
    }
}

/// A known device that reports, free of signs of corruption, the new address
/// that it reported before, is taken to be there from then on, and the report
/// is forgotten.
pub proof fn law_second_report_is_believed(
    n: NetworkView,
    resp: Seq<u8>,
    now: u64,
    k: int,
    old: DiscoveredDevice,
)
    requires
        device_at(n.devices, reports(resp)[k].mac, 0) == Some(old),
        plausible(reports(resp)[k], old, n.master_mac, n.poll(resp, now).master_channel),
        others_corrupt(reports(resp), k, old, n.master_mac, n.poll(resp, now).master_channel),
        n.pending.contains_key(reports(resp)[k].mac),
        n.pending[reports(resp)[k].mac] == address(reports(resp)[k]),
    ensures
        ({
            let found = reports(resp);
            let after = n.poll(resp, now);
            &&& after.devices.contains(found[k])
            &&& !after.pending.contains_key(found[k].mac)
            &&& only_record(found, k) ==> device_at(after.devices, found[k].mac, 0) == Some(
                found[k],
            )
        }),
{
    let found = reports(resp);
    let d = found[k];
    let m = d.mac;
    let h = heard(n, resp);
    let after = n.poll(resp, now);
    let channel = after.master_channel;
    lemma_poll_after_record(n, resp, now, k, old);
    lemma_sieve_quiet(h, channel, now, found, 0, k as nat, m, old);
    let s = h.sieve(channel, now, found, k as nat);
    let t = s.step(n.devices, n.master_mac, channel, now, d);
    assert(t.kept.last() == d);
    if only_record(found, k) {
        lemma_poll(n, resp, now);
        lemma_sieve_device_at(h, channel, now, found, 0, k as nat, m);
        lemma_step_device_at(s, n.devices, n.master_mac, channel, now, d, m);
        assert(h.sieve(channel, now, found, (k + 1) as nat) == t);
        lemma_sieve_device_at(h, channel, now, found, (k + 1) as nat, found.len(), m);
    }
}

/// A known device that reports, free of signs of corruption, the address at
/// which it is known is taken as it reports, and any other address that it
/// reported before is forgotten.
pub proof fn law_known_address_is_confirmed(
    n: NetworkView,
    resp: Seq<u8>,
    now: u64,
    k: int,
    old: DiscoveredDevice,
)
    requires
        device_at(n.devices, reports(resp)[k].mac, 0) == Some(old),
        plausible(reports(resp)[k], old, n.master_mac, n.poll(resp, now).master_channel),
        later_corrupt(reports(resp), k, old, n.master_mac, n.poll(resp, now).master_channel),
        address(reports(resp)[k]) == address(old),
    ensures
        n.poll(resp, now).devices.contains(reports(resp)[k]),
        !n.poll(resp, now).pending.contains_key(reports(resp)[k].mac),
{
    lemma_poll_after_record(n, resp, now, k, old);
}

/// A known device that really moves is followed: once two polls in a row
/// report the same new address, free of signs of corruption, the device is
/// taken to be there, and not before.
pub proof fn law_move_is_followed(
    n: NetworkView,
    resp1: Seq<u8>,
    now1: u64,
    k1: int,
    resp2: Seq<u8>,
    now2: u64,
    k2: int,
    old: DiscoveredDevice,
    old1: DiscoveredDevice,
)
    requires
        ({
            let found1 = reports(resp1);
            let found2 = reports(resp2);
            let n1 = n.poll(resp1, now1);
            let n2 = n1.poll(resp2, now2);
            let m = found1[k1].mac;
            &&& device_at(n.devices, m, 0) == Some(old)
            &&& !(n.pending.contains_key(m) && n.pending[m] == address(found1[k1]))
            &&& plausible(found1[k1], old, n.master_mac, n1.master_channel)
            &&& address(found1[k1]) != address(old)
            &&& first_of_its_address(found1, k1, old, n.master_mac, n1.master_channel)
            &&& later_corrupt(found1, k1, old, n.master_mac, n1.master_channel)
            &&& device_at(n1.devices, m, 0) == Some(old1)
            &&& found2[k2].mac == m
            &&& address(found2[k2]) == address(found1[k1])
            &&& plausible(found2[k2], old1, n.master_mac, n2.master_channel)
            &&& others_corrupt(found2, k2, old1, n.master_mac, n2.master_channel)
        }),
    ensures
        ({
            let found1 = reports(resp1);
            let found2 = reports(resp2);
            let n1 = n.poll(resp1, now1);
            let n2 = n1.poll(resp2, now2);
            let m = found1[k1].mac;
            &&& n1.devices.contains(old)
            &&& n1.pending.contains_key(m)
            &&& n1.pending[m] == address(found1[k1])
            &&& others_corrupt(found1, k1, old, n.master_mac, n1.master_channel) ==> old1 == old
            &&& n2.devices.contains(found2[k2])
            &&& !n2.pending.contains_key(m)
            &&& only_record(found2, k2) ==> device_at(n2.devices, m, 0) == Some(found2[k2])
        }),
{
    lemma_poll(n, resp1, now1);
    law_first_report_is_remembered(n, resp1, now1, k1, old);
    law_second_report_is_believed(n.poll(resp1, now1), resp2, now2, k2, old1);
}

/// A new address that only one poll reports redirects nothing: the device
/// stays as it was known, and once a poll reports it there again, that record
/// is taken and the report of the other address is forgotten.
pub proof fn law_glitch_is_forgotten(
    n: NetworkView,
    resp1: Seq<u8>,
    now1: u64,
    k1: int,
    resp2: Seq<u8>,
    now2: u64,
    k2: int,
    old: DiscoveredDevice,
)
    requires
        ({
            let found1 = reports(resp1);
            let found2 = reports(resp2);
            let n1 = n.poll(resp1, now1);
            let n2 = n1.poll(resp2, now2);
            let m = found1[k1].mac;
            &&& device_at(n.devices, m, 0) == Some(old)
            &&& !(n.pending.contains_key(m) && n.pending[m] == address(found1[k1]))
            &&& plausible(found1[k1], old, n.master_mac, n1.master_channel)
            &&& address(found1[k1]) != address(old)
            &&& others_corrupt(found1, k1, old, n.master_mac, n1.master_channel)
            &&& found2[k2].mac == m
            &&& address(found2[k2]) == address(old)
            &&& plausible(found2[k2], old, n.master_mac, n2.master_channel)
            &&& later_corrupt(found2, k2, old, n.master_mac, n2.master_channel)
        }),
    ensures
        ({
            let found1 = reports(resp1);
            let found2 = reports(resp2);
            let n1 = n.poll(resp1, now1);
            let n2 = n1.poll(resp2, now2);
            let m = found1[k1].mac;
            &&& device_at(n1.devices, m, 0) == Some(old)
            &&& n1.pending.contains_key(m)
            &&& n1.pending[m] == address(found1[k1])
            &&& n2.devices.contains(found2[k2])
            &&& !n2.pending.contains_key(m)
            &&& others_corrupt(found2, k2, old, n.master_mac, n2.master_channel) ==> forall|
                x: DiscoveredDevice,
            |
                #[trigger] n2.devices.contains(x) && x.mac == m ==> address(x) == address(old)
        }),
{
    let found2 = reports(resp2);
    let n1 = n.poll(resp1, now1);
    let n2 = n1.poll(resp2, now2);
    lemma_poll(n, resp1, now1);
    law_first_report_is_remembered(n, resp1, now1, k1, old);
    law_known_address_is_confirmed(n1, resp2, now2, k2, old);
    if others_corrupt(found2, k2, old, n.master_mac, n2.master_channel) {
        assert forall|x: DiscoveredDevice| #[trigger]
            n2.devices.contains(x) && x.mac == found2[k2].mac implies address(x) == address(old) by {
            law_move_needs_confirmation(n1, resp2, now2, k2, old, x);
        }
    }
}

/// Whether a record gives an entry of the device list: it is off the network,
/// or its device is known, or it names a slot that exists.
pub open spec fn gives_entry(n: NetworkView, d: DiscoveredDevice) -> bool {
    in_limbo(d, n.master_mac) || device_at(n.devices, d.mac, 0) is Some || d.rx_type <= RX_TYPE_MAX
}

/// Whether an entry of the device list is what a record can give: the record
/// itself, or the device as it was known.
pub open spec fn entry_of(n: NetworkView, x: DiscoveredDevice, d: DiscoveredDevice) -> bool {
    &&& x.mac == d.mac
    &&& x == d || device_at(n.devices, d.mac, 0) == Some(x)
}

proof fn lemma_sieve_list(
    n: NetworkView,
    channel: u8,
    now: u64,
    found: Seq<DiscoveredDevice>,
    k: nat,
)
    requires
        k <= found.len(),
    ensures
        ({
            let kept = n.sieve(channel, now, found, k).kept;
            let given = found.take(k as int).filter(|d: DiscoveredDevice| gives_entry(n, d));
            &&& kept.len() == given.len()
            &&& forall|i: int| 0 <= i < kept.len() ==> entry_of(n, #[trigger] kept[i], given[i])
        }),
    decreases k,
{
    reveal(Seq::filter);
    if k > 0 {
        lemma_sieve_list(n, channel, now, found, (k - 1) as nat);
        let gives = |d: DiscoveredDevice| gives_entry(n, d);
        let d = found[k - 1];
        let s = n.sieve(channel, now, found, (k - 1) as nat);
        let t = n.sieve(channel, now, found, k);
        let before = found.take(k - 1).filter(gives);
        let given = found.take(k as int).filter(gives);
        assert(found.take(k as int).drop_last() =~= found.take(k - 1));
        assert(found.take(k as int).last() == d);
        lemma_device_at(n.devices, d.mac, 0);
        assert forall|i: int| 0 <= i < t.kept.len() implies entry_of(
            n,
            #[trigger] t.kept[i],
            given[i],
        ) by {
            if i < s.kept.len() {
                assert(t.kept[i] == s.kept[i] && given[i] == before[i]);
            }
        }
    }
}

/// After a poll with devices, the device list follows the records of the
/// answer in their order. Each record gives one entry, itself or its device as
/// it was known; only one of an unknown device with a slot that does not exist
/// gives none. No other device stays. A poll without devices leaves the list
/// as it is.
pub proof fn law_list_follows_records(n: NetworkView, resp: Seq<u8>, now: u64)
    ensures
        ({
            let list = n.poll(resp, now).devices;
            let given = reports(resp).filter(|d: DiscoveredDevice| gives_entry(n, d));
            &&& reports(resp).len() > 0 ==> {
                &&& list.len() == given.len()
                &&& forall|i: int| 0 <= i < list.len() ==> entry_of(n, #[trigger] list[i], given[i])
            }
            &&& reports(resp).len() == 0 ==> list == n.devices
        }),
{
    let found = reports(resp);
    if found.len() > 0 {
        let h = heard(n, resp);
        let channel = n.poll(resp, now).master_channel;
        lemma_poll(n, resp, now);
        lemma_sieve_list(h, channel, now, found, found.len());
        assert(found.take(found.len() as int) =~= found);
        let a = |d: DiscoveredDevice| gives_entry(h, d);
        let b = |d: DiscoveredDevice| gives_entry(n, d);
        assert(a =~= b);
        let list = n.poll(resp, now).devices;
        assert forall|i: int| 0 <= i < list.len() implies entry_of(
            n,
            #[trigger] list[i],
            found.filter(b)[i],
        ) by {
            assert(entry_of(h, list[i], found.filter(a)[i]));
        }
    }
}

/// Whether a device can be reached: on a slot that exists, or off the network
/// at whatever it reports.
pub open spec fn reachable(d: DiscoveredDevice, mac: [u8; 6]) -> bool {
    d.rx_type <= RX_TYPE_MAX || in_limbo(d, mac)
}

pub open spec fn all_reachable(devices: Seq<DiscoveredDevice>, mac: [u8; 6]) -> bool {
    forall|i: int| 0 <= i < devices.len() ==> reachable(#[trigger] devices[i], mac)
}

proof fn lemma_sieve_reachable(
    n: NetworkView,
    channel: u8,
    now: u64,
    found: Seq<DiscoveredDevice>,
    k: nat,
)
    requires
        all_reachable(n.devices, n.master_mac),
        k <= found.len(),
    ensures
        all_reachable(n.sieve(channel, now, found, k).kept, n.master_mac),
    decreases k,
{
    if k > 0 {
        lemma_sieve_reachable(n, channel, now, found, (k - 1) as nat);
        let s = n.sieve(channel, now, found, (k - 1) as nat);
        let d = found[k - 1];
        lemma_device_at(n.devices, d.mac, 0);
        let t = s.step(n.devices, n.master_mac, channel, now, d);
        assert forall|i: int| 0 <= i < t.kept.len() implies reachable(
            #[trigger] t.kept[i],
            n.master_mac,
        ) by {
            if i < s.kept.len() {
                assert(t.kept[i] == s.kept[i]);
            } else if let Some(old) = device_at(n.devices, d.mac, 0) {
                let j = choose|j: int| 0 <= j < n.devices.len() && n.devices[j] == old;
                assert(reachable(n.devices[j], n.master_mac));
            }
        }
    }
}

/// No answer of the dongle, however corrupt, makes a device unreachable.
pub proof fn law_devices_stay_reachable(n: NetworkView, resp: Seq<u8>, now: u64)
    requires
        all_reachable(n.devices, n.master_mac),
    ensures
        all_reachable(n.poll(resp, now).devices, n.master_mac),
        n.poll(resp, now).master_mac == n.master_mac,
{
    if NetworkView::has_list(resp) {
        let k = record_count(resp);
        let s = NetworkView {
            mobo_pwm: pwm_of(resp[2], resp[3]),
            master_channel: channel_after(resp, n.master_mac, n.master_channel, k),
            ..n
        };
        let found = found_devices(resp, k);
        let channel = consensus_channel(found, s.master_mac, s.master_channel);
        lemma_sieve_reachable(s, channel, now, found, found.len());
    }
}

/// An answer that is too short or begins with the wrong byte changes nothing;
/// one without devices changes no more than the duty cycle of the mainboard.
pub proof fn law_poor_answer_changes_nothing(n: NetworkView, resp: Seq<u8>, now: u64)
    requires
        !NetworkView::has_list(resp),
    ensures
        n.poll(resp, now) == (NetworkView { mobo_pwm: n.poll(resp, now).mobo_pwm, ..n }),
        resp.len() < 4 || resp[0] != USB_CMD_SEND_RF ==> n.poll(resp, now) == n,
{
}

/// Whether what is remembered of the device at `m` is the same in two states.
pub open spec fn same_memory(a: NetworkView, b: NetworkView, m: [u8; 6]) -> bool {
    &&& same_pending(a, b, m)
    &&& same_limbo(a, b, m)
}

/// Whether the same new address, or none, awaits its second report.
pub open spec fn same_pending(a: NetworkView, b: NetworkView, m: [u8; 6]) -> bool {
    &&& a.pending.contains_key(m) == b.pending.contains_key(m)
    &&& a.pending.contains_key(m) ==> a.pending[m] == b.pending[m]
}

/// Whether a device is off the network since the same time, or is not.
pub open spec fn same_limbo(a: NetworkView, b: NetworkView, m: [u8; 6]) -> bool {
    &&& a.limbo.contains_key(m) == b.limbo.contains_key(m)
    &&& a.limbo.contains_key(m) ==> a.limbo[m] == b.limbo[m]
}

/// Of a device that is not in an answer, what was remembered stays remembered.
pub proof fn law_absent_device_is_remembered(n: NetworkView, resp: Seq<u8>, now: u64, m: [u8; 6])
    requires
        forall|i: int| 0 <= i < reports(resp).len() ==> (#[trigger] reports(resp)[i]).mac != m,
    ensures
        same_memory(n, n.poll(resp, now), m),
{
    let found = reports(resp);
    if found.len() > 0 {
        lemma_poll(n, resp, now);
        lemma_sieve_frame(
            heard(n, resp),
            n.poll(resp, now).master_channel,
            now,
            found,
            0,
            found.len(),
            m,
        );
    }
}

proof fn lemma_sieve_unbound(
    n: NetworkView,
    channel: u8,
    now: u64,
    found: Seq<DiscoveredDevice>,
    k: nat,
    m: [u8; 6],
)
    requires
        k <= found.len(),
        forall|i: int|
            0 <= i < k && (#[trigger] found[i]).mac == m ==> found[i].master_mac != n.master_mac,
    ensures
        ({
            let t = n.sieve(channel, now, found, k);
            &&& t.limbo.contains_key(m) == n.limbo.contains_key(m)
            &&& t.limbo.contains_key(m) ==> t.limbo[m] == n.limbo[m]
        }),
    decreases k,
{
    if k > 0 {
        lemma_sieve_unbound(n, channel, now, found, (k - 1) as nat, m);
        let s = n.sieve(channel, now, found, (k - 1) as nat);
        lemma_step_frame(s, n.devices, n.master_mac, channel, now, found[k - 1], m);
    }
}

/// Records of a device that is not bound to the dongle tell nothing of whether
/// it is off the network.
pub proof fn law_unbound_device_keeps_limbo(n: NetworkView, resp: Seq<u8>, now: u64, m: [u8; 6])
    requires
        forall|i: int|
            0 <= i < reports(resp).len() && (#[trigger] reports(resp)[i]).mac == m ==> reports(
                resp,
            )[i].master_mac != n.master_mac,
    ensures
        same_limbo(n, n.poll(resp, now), m),
{
    let found = reports(resp);
    if found.len() > 0 {
        lemma_poll(n, resp, now);
        lemma_sieve_unbound(
            heard(n, resp),
            n.poll(resp, now).master_channel,
            now,
            found,
            found.len(),
            m,
        );
    }
}

proof fn lemma_sieve_unknown(
    n: NetworkView,
    channel: u8,
    now: u64,
    found: Seq<DiscoveredDevice>,
    k: nat,
    m: [u8; 6],
)
    requires
        k <= found.len(),
        device_at(n.devices, m, 0) is None,
        forall|i: int|
            0 <= i < k && (#[trigger] found[i]).mac == m ==> !in_limbo(found[i], n.master_mac),
    ensures
        ({
            let t = n.sieve(channel, now, found, k);
            &&& t.pending.contains_key(m) == n.pending.contains_key(m)
            &&& t.pending.contains_key(m) ==> t.pending[m] == n.pending[m]
        }),
    decreases k,
{
    if k > 0 {
        lemma_sieve_unknown(n, channel, now, found, (k - 1) as nat, m);
        let s = n.sieve(channel, now, found, (k - 1) as nat);
        lemma_step_frame(s, n.devices, n.master_mac, channel, now, found[k - 1], m);
    }
}

/// A device that is not known needs no second report: its records leave alone
/// what is remembered of its address.
pub proof fn law_unknown_device_awaits_nothing(n: NetworkView, resp: Seq<u8>, now: u64, m: [u8; 6])
    requires
        forall|i: int| 0 <= i < n.devices.len() ==> (#[trigger] n.devices[i]).mac != m,
        forall|i: int|
            0 <= i < reports(resp).len() && (#[trigger] reports(resp)[i]).mac == m ==> !in_limbo(
                reports(resp)[i],
                n.master_mac,
            ),
    ensures
        same_pending(n, n.poll(resp, now), m),
{
    let found = reports(resp);
    if found.len() > 0 {
        lemma_poll(n, resp, now);
        lemma_device_at(n.devices, m, 0);
        if let Some(d) = device_at(n.devices, m, 0) {
            let j = choose|j: int| 0 <= j < n.devices.len() && n.devices[j] == d;
            assert(n.devices[j].mac == m);
        }
        lemma_sieve_unknown(
            heard(n, resp),
            n.poll(resp, now).master_channel,
            now,
            found,
            found.len(),
            m,
        );
    }
}

/// Of several devices at one address, the one that counts is the first.
pub proof fn law_first_device_counts(devices: Seq<DiscoveredDevice>, mac: [u8; 6], i: int, k: int)
    requires
        0 <= i <= k < devices.len(),
        devices[k].mac == mac,
        forall|j: int| i <= j < k ==> (#[trigger] devices[j]).mac != mac,
    ensures
        device_at(devices, mac, i) == Some(devices[k]),
    decreases k - i,
{
    if i < k {
        law_first_device_counts(devices, mac, i + 1, k);
    }
}

} // verus!
