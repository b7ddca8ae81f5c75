//! What a poll reads from the bytes of an answer.

use vstd::prelude::*;
use crate::discovery::{is_device_record, record_device, DiscoveredDevice};
use crate::network::{
    all_bound_on, announced_channel, change, channel_after, found_devices, is_master_record, pwm_of,
    record, record_count, NetworkView,
};
use crate::network_laws::{
    entry_of, gives_entry, law_channel_follows, law_list_follows_records, lemma_device_at_contains,
    lemma_device_at, reports,
};

verus! {

/// Whether an answer holds record `i`: it carries a list of one to twelve
/// devices, of which that is one, and is long enough for it.
pub open spec fn holds_record(resp: Seq<u8>, i: int) -> bool {
    &&& resp.len() >= 4
    &&& resp[0] == 0x10
    &&& 1 <= resp[1] <= 12
    &&& 0 <= i < resp[1]
    &&& 4 + 42 * (i + 1) <= resp.len()
}

/// The bytes of record `i`.
pub open spec fn record_bytes(resp: Seq<u8>, i: int) -> Seq<u8> {
    resp.subrange(4 + 42 * i, 4 + 42 * (i + 1))
}

/// Whether record `i` of an answer is there and is one of a device.
pub open spec fn holds_device(resp: Seq<u8>, i: int) -> bool {
    &&& holds_record(resp, i)
    &&& resp[4 + 42 * i + 41] == 0x1C
    &&& resp[4 + 42 * i + 18] != 0xFF
}

/// Whether record `i` of an answer is that of a device bound to the dongle at
/// `mac`.
pub open spec fn holds_bound(resp: Seq<u8>, i: int, mac: [u8; 6]) -> bool {
    &&& holds_device(resp, i)
    &&& forall|b: int| 0 <= b < 6 ==> resp[4 + 42 * i + 6 + b] == #[trigger] mac[b]
}

/// Whether record `i` of an answer is that of the dongle at `mac` itself, and
/// names a channel.
pub open spec fn holds_dongle(resp: Seq<u8>, i: int, mac: [u8; 6]) -> bool {
    &&& holds_record(resp, i)
    &&& resp[4 + 42 * i + 41] == 0x1C
    &&& resp[4 + 42 * i + 18] == 0xFF
    &&& resp[4 + 42 * i + 12] != 0
    &&& forall|b: int| 0 <= b < 6 ==> resp[4 + 42 * i + b] == #[trigger] mac[b]
}

proof fn lemma_record(resp: Seq<u8>, i: int)
    requires
        NetworkView::has_list(resp),
        0 <= i,
    ensures
        i < record_count(resp) <==> holds_record(resp, i),
        holds_record(resp, i) ==> {
            &&& record(resp, i) == record_bytes(resp, i)
            &&& record(resp, i).len() == 42
            &&& forall|b: int| 0 <= b < 42 ==> #[trigger] record(resp, i)[b] == resp[4 + 42 * i + b]
            &&& is_device_record(record(resp, i)) <==> holds_device(resp, i)
        },
{
    if holds_record(resp, i) {
        assert(record(resp, i) =~= record_bytes(resp, i));
    }
}

proof fn lemma_found(resp: Seq<u8>, n: nat)
    requires
        NetworkView::has_list(resp),
        n <= record_count(resp),
    ensures
        ({
            let found = found_devices(resp, n);
            &&& found.len() <= n
            &&& forall|j: int|
                0 <= j < found.len() ==> {
                    let i = (#[trigger] found[j]).list_index;
                    &&& i < n
                    &&& holds_device(resp, i as int)
                    &&& found[j] == record_device(record_bytes(resp, i as int), i)
                }
            &&& forall|a: int, b: int|
                0 <= a < b < found.len() ==> (#[trigger] found[a]).list_index < (
                #[trigger] found[b]).list_index
            &&& forall|i: int|
                0 <= i < n && #[trigger] holds_device(resp, i) ==> found.contains(
                    record_device(record_bytes(resp, i), i as u8),
                )
        }),
    decreases n,
{
    if n > 0 {
        lemma_found(resp, (n - 1) as nat);
        lemma_record(resp, n - 1);
        let before = found_devices(resp, (n - 1) as nat);
        let found = found_devices(resp, n);
        let d = record_device(record_bytes(resp, n - 1), (n - 1) as u8);
        assert forall|i: int| 0 <= i < n && #[trigger] holds_device(resp, i) implies found.contains(
            record_device(record_bytes(resp, i), i as u8),
        ) by {
            if i == n - 1 {
                assert(found.last() == d);
            } else {
                let x = record_device(record_bytes(resp, i), i as u8);
                assert(before.contains(x));
                let j = choose|j: int| 0 <= j < before.len() && before[j] == x;
                assert(found[j] == x);
            }
        }
    }
}

/// The devices in an answer are exactly those of its records that are ones of
/// devices, in their order, each read from just its own bytes and with the
/// number of its record.
pub proof fn law_every_record_is_read(resp: Seq<u8>)
    ensures
        forall|i: int| #[trigger]
            holds_device(resp, i) ==> reports(resp).contains(
                record_device(record_bytes(resp, i), i as u8),
            ),
        forall|j: int|
            0 <= j < reports(resp).len() ==> {
                let i = (#[trigger] reports(resp)[j]).list_index;
                &&& holds_device(resp, i as int)
                &&& reports(resp)[j] == record_device(record_bytes(resp, i as int), i)
            },
        forall|a: int, b: int|
            0 <= a < b < reports(resp).len() ==> (#[trigger] reports(resp)[a]).list_index < (
            #[trigger] reports(resp)[b]).list_index,
{
    if NetworkView::has_list(resp) {
        lemma_found(resp, record_count(resp));
        assert forall|i: int| #[trigger] holds_device(resp, i) implies reports(resp).contains(
            record_device(record_bytes(resp, i), i as u8),
        ) by {
            lemma_record(resp, i);
        }
    } else {
        assert forall|i: int| !#[trigger] holds_device(resp, i) by {}
    }
}

/// Every device in an answer that was not known before, on a slot from 0 to 14,
/// is discovered, just as its record says.
pub proof fn law_new_device_is_discovered(n: NetworkView, resp: Seq<u8>, now: u64, i: int)
    requires
        holds_device(resp, i),
        resp[4 + 42 * i + 13] <= 14,
        forall|k: int|
            0 <= k < n.devices.len() ==> exists|b: int|
                0 <= b < 6 && #[trigger] (#[trigger] n.devices[k]).mac[b] != resp[4 + 42 * i + b],
    ensures
        n.poll(resp, now).devices.contains(record_device(record_bytes(resp, i), i as u8)),
{
    broadcast use vstd::seq_lib::group_filter_ensures;

    let d = record_device(record_bytes(resp, i), i as u8);
    let gives = |d: DiscoveredDevice| gives_entry(n, d);
    let given = reports(resp).filter(gives);
    let list = n.poll(resp, now).devices;
    law_every_record_is_read(resp);
    law_list_follows_records(n, resp, now);
    let j = choose|j: int| 0 <= j < reports(resp).len() && reports(resp)[j] == d;
    assert(gives(reports(resp)[j]));
    assert(given.contains(d));
    let q = choose|q: int| 0 <= q < given.len() && given[q] == d;
    assert(entry_of(n, list[q], given[q]));
    lemma_device_at(n.devices, d.mac, 0);
    if crate::network::device_at(n.devices, d.mac, 0) is Some {
        let x = crate::network::device_at(n.devices, d.mac, 0)->0;
        let k = choose|k: int| 0 <= k < n.devices.len() && n.devices[k] == x;
        assert(n.devices[k].mac == d.mac);
        let b = choose|b: int| 0 <= b < 6 && #[trigger] n.devices[k].mac[b] != resp[4 + 42 * i + b];
        assert(d.mac[b] == resp[4 + 42 * i + b]);
    }
    assert(list[q] == d);
}

/// On a network of which no device is known, the devices after a poll are those
/// of its records, in order, but for those that name a slot above 14 and are on
/// a channel or bound elsewhere.
pub proof fn law_first_poll(n: NetworkView, resp: Seq<u8>, now: u64)
    requires
        n.devices.len() == 0,
    ensures
        n.poll(resp, now).devices == reports(resp).filter(
            |d: DiscoveredDevice| d.rx_type <= 14 || d.channel == 0 && d.master_mac == n.master_mac,
        ),
{
    law_list_follows_records(n, resp, now);
    let a = |d: DiscoveredDevice| gives_entry(n, d);
    let b = |d: DiscoveredDevice|
        d.rx_type <= 14 || d.channel == 0 && d.master_mac == n.master_mac;
    assert(a =~= b);
    let list = n.poll(resp, now).devices;
    let given = reports(resp).filter(a);
    if reports(resp).len() == 0 {
        reveal(Seq::filter);
    } else {
        assert forall|i: int| 0 <= i < list.len() implies list[i] == given[i] by {
            assert(entry_of(n, list[i], given[i]));
        }
    }
    assert(list =~= given);
}

/// A device that is in an answer and was known before is known after it.
pub proof fn law_known_device_stays(n: NetworkView, resp: Seq<u8>, now: u64, i: int, k: int)
    requires
        holds_device(resp, i),
        0 <= k < n.devices.len(),
        forall|b: int| 0 <= b < 6 ==> #[trigger] n.devices[k].mac[b] == resp[4 + 42 * i + b],
    ensures
        exists|q: int|
            0 <= q < n.poll(resp, now).devices.len() && (#[trigger] n.poll(resp, now).devices[q]).mac
                == n.devices[k].mac,
{
    broadcast use vstd::seq_lib::group_filter_ensures;

    let d = record_device(record_bytes(resp, i), i as u8);
    assert(d.mac =~= n.devices[k].mac);
    let gives = |d: DiscoveredDevice| gives_entry(n, d);
    let given = reports(resp).filter(gives);
    let list = n.poll(resp, now).devices;
    law_every_record_is_read(resp);
    law_list_follows_records(n, resp, now);
    lemma_device_at_contains(n.devices, n.devices[k], 0);
    let j = choose|j: int| 0 <= j < reports(resp).len() && reports(resp)[j] == d;
    assert(gives(reports(resp)[j]));
    assert(given.contains(d));
    let q = choose|q: int| 0 <= q < given.len() && given[q] == d;
    assert(entry_of(n, list[q], given[q]));
}

/// A device in an answer has the address that its record begins with.
proof fn lemma_report(resp: Seq<u8>, j: int)
    requires
        0 <= j < reports(resp).len(),
    ensures
        holds_device(resp, reports(resp)[j].list_index as int),
        forall|b: int|
            0 <= b < 6 ==> #[trigger] reports(resp)[j].mac[b] == resp[4 + 42
                * reports(resp)[j].list_index + b],
{
    law_every_record_is_read(resp);
    let d = reports(resp)[j];
    assert(holds_device(resp, d.list_index as int));
}

/// A device that is known after a poll with devices has the address of one of
/// them.
proof fn lemma_list_from_reports(n: NetworkView, resp: Seq<u8>, now: u64, q: int) -> (j: int)
    requires
        reports(resp).len() > 0,
        0 <= q < n.poll(resp, now).devices.len(),
    ensures
        0 <= j < reports(resp).len(),
        reports(resp)[j].mac == n.poll(resp, now).devices[q].mac,
{
    let gives = |d: DiscoveredDevice| gives_entry(n, d);
    let given = reports(resp).filter(gives);
    let list = n.poll(resp, now).devices;
    law_list_follows_records(n, resp, now);
    assert(entry_of(n, list[q], given[q]));
    assert(given.contains(given[q]));
    reports(resp).lemma_filter_contains_rev(gives, given[q]);
    choose|j: int| 0 <= j < reports(resp).len() && reports(resp)[j] == given[q]
}

/// After an answer with a device, every device that is known is in it.
pub proof fn law_absent_devices_leave(n: NetworkView, resp: Seq<u8>, now: u64, i: int, q: int)
    requires
        holds_device(resp, i),
        0 <= q < n.poll(resp, now).devices.len(),
    ensures
        exists|k: int| #[trigger]
            holds_device(resp, k) && forall|b: int|
                0 <= b < 6 ==> #[trigger] n.poll(resp, now).devices[q].mac[b] == resp[4 + 42 * k
                    + b],
{
    assert(reports(resp).len() > 0) by {
        law_every_record_is_read(resp);
        assert(reports(resp).contains(record_device(record_bytes(resp, i), i as u8)));
    }
    let j = lemma_list_from_reports(n, resp, now, q);
    lemma_report(resp, j);
    assert(holds_device(resp, reports(resp)[j].list_index as int));
}

/// The duty cycle of the mainboard is the share of the high time in 255 parts,
/// rounded down, and unknown where the top bit of the low time is set or both
/// are zero.
pub proof fn law_duty_cycle(n: NetworkView, resp: Seq<u8>, now: u64)
    requires
        resp.len() >= 4,
        resp[0] == 0x10,
    ensures
        ({
            let pwm = n.poll(resp, now).mobo_pwm;
            let total = resp[2] + resp[3];
            &&& resp[2] >= 0x80 || total == 0 ==> pwm == 0xFFFF
            &&& resp[2] < 0x80 && total > 0 ==> {
                &&& pwm <= 255
                &&& pwm * total <= 255 * resp[3] < pwm * total + total
            }
        }),
{
    crate::network::law_pwm_range(resp[2], resp[3]);
    let total = resp[2] + resp[3];
    let x = 255 * resp[3];
    assert(n.poll(resp, now).mobo_pwm == pwm_of(resp[2], resp[3]));
    if resp[2] < 0x80 && total > 0 {
        vstd::arithmetic::div_mod::lemma_fundamental_div_mod(x, total);
        let q = x / total;
        assert(0 <= q <= 255) by (nonlinear_arith)
            requires
                q == x / total,
                0 <= x <= 255 * total,
                total > 0,
        ;
        assert(total * q == q * total) by (nonlinear_arith);
        assert(0 <= x % total < total);
    }
}

/// An answer that is too short, or begins with another byte than the command,
/// changes nothing. One with no devices or more than twelve changes nothing but
/// the duty cycle.
pub proof fn law_answers_without_devices(n: NetworkView, resp: Seq<u8>, now: u64)
    ensures
        resp.len() < 4 || resp[0] != 0x10 ==> n.poll(resp, now) == n,
        resp.len() >= 4 && resp[0] == 0x10 && (resp[1] == 0 || resp[1] > 12) ==> n.poll(resp, now)
            == (NetworkView { mobo_pwm: n.poll(resp, now).mobo_pwm, ..n }),
        n.poll(resp, now).master_mac == n.master_mac,
{
}

proof fn lemma_bound(resp: Seq<u8>, j: int, mac: [u8; 6])
    requires
        0 <= j < reports(resp).len(),
    ensures
        ({
            let i = reports(resp)[j].list_index as int;
            &&& reports(resp)[j].master_mac == mac <==> holds_bound(resp, i, mac)
            &&& reports(resp)[j].channel == resp[4 + 42 * i + 12]
        }),
{
    law_every_record_is_read(resp);
    let d = reports(resp)[j];
    let i = d.list_index as int;
    assert(holds_device(resp, i));
    assert forall|b: int| 0 <= b < 6 implies #[trigger] d.master_mac[b] == resp[4 + 42 * i + 6
        + b] by {}
    if holds_bound(resp, i, mac) {
        assert(d.master_mac =~= mac);
    }
}

/// Where the bound devices in an answer name one channel, all of them the same,
/// the dongle is on it after the poll.
pub proof fn law_dongle_goes_with_its_devices(
    n: NetworkView,
    resp: Seq<u8>,
    now: u64,
    i: int,
    ch: u8,
)
    requires
        holds_bound(resp, i, n.master_mac),
        forall|k: int| #[trigger]
            holds_bound(resp, k, n.master_mac) ==> resp[4 + 42 * k + 12] == ch,
    ensures
        n.poll(resp, now).master_channel == ch,
{
    let found = reports(resp);
    let mac = n.master_mac;
    law_every_record_is_read(resp);
    let d = record_device(record_bytes(resp, i), i as u8);
    assert(found.contains(d));
    let j = choose|j: int| 0 <= j < found.len() && found[j] == d;
    lemma_bound(resp, j, mac);
    assert forall|k: int| 0 <= k < found.len() && (#[trigger] found[k]).master_mac == mac implies
        found[k].channel == ch by {
        lemma_bound(resp, k, mac);
    }
    assert(all_bound_on(found, mac, ch));
    let c = channel_after(resp, mac, n.master_channel, record_count(resp));
    law_channel_follows(found, mac, c, ch);
}

proof fn lemma_channel_after(resp: Seq<u8>, mac: [u8; 6], channel: u8, n: nat)
    ensures
        (forall|k: int| 0 <= k < n ==> !is_master_record(#[trigger] record(resp, k), mac))
            ==> channel_after(resp, mac, channel, n) == channel,
        forall|i: int|
            0 <= i < n && is_master_record(#[trigger] record(resp, i), mac) && (forall|k: int|
                i < k < n ==> !is_master_record(#[trigger] record(resp, k), mac))
                ==> channel_after(resp, mac, channel, n) == record(resp, i)[12],
    decreases n,
{
    if n > 0 {
        lemma_channel_after(resp, mac, channel, (n - 1) as nat);
    }
}

proof fn lemma_dongle(resp: Seq<u8>, i: int, mac: [u8; 6])
    requires
        NetworkView::has_list(resp),
        0 <= i < record_count(resp),
    ensures
        is_master_record(record(resp, i), mac) <==> holds_dongle(resp, i, mac),
{
    lemma_record(resp, i);
    let head = record(resp, i).subrange(0, 6);
    if holds_dongle(resp, i, mac) {
        assert forall|b: int| 0 <= b < 6 implies head[b] == mac@[b] by {
            assert(resp[4 + 42 * i + b] == mac[b]);
        }
        assert(head =~= mac@);
    }
    if is_master_record(record(resp, i), mac) {
        assert forall|b: int| 0 <= b < 6 implies resp[4 + 42 * i + b] == #[trigger] mac[b] by {
            assert(head[b] == mac@[b]);
        }
    }
}

/// Where the devices in an answer settle nothing, as none is bound or two of
/// those that are name different channels, the dongle is on the channel of its
/// own record, of the last if there are several; without one it stays.
pub proof fn law_dongle_tells_its_channel(n: NetworkView, resp: Seq<u8>, now: u64, i: int)
    requires
        ({
            ||| forall|k: int| !#[trigger] holds_bound(resp, k, n.master_mac)
            ||| exists|a: int, b: int| #[trigger]
                holds_bound(resp, a, n.master_mac) && #[trigger] holds_bound(resp, b, n.master_mac)
                    && resp[4 + 42 * a + 12] != resp[4 + 42 * b + 12]
        }),
    ensures
        holds_dongle(resp, i, n.master_mac) && (forall|k: int|
            k > i ==> !#[trigger] holds_dongle(resp, k, n.master_mac)) ==> n.poll(
            resp,
            now,
        ).master_channel == resp[4 + 42 * i + 12],
        (forall|k: int| !#[trigger] holds_dongle(resp, k, n.master_mac)) ==> n.poll(
            resp,
            now,
        ).master_channel == n.master_channel,
{
    let found = reports(resp);
    let mac = n.master_mac;
    if NetworkView::has_list(resp) {
        let count = record_count(resp);
        let c = channel_after(resp, mac, n.master_channel, count);
        law_every_record_is_read(resp);
        assert forall|ch: u8| !#[trigger] all_bound_on(found, mac, ch) by {
            if all_bound_on(found, mac, ch) {
                let j = choose|j: int| 0 <= j < found.len() && (#[trigger] found[j]).master_mac == mac;
                lemma_bound(resp, j, mac);
                assert(holds_bound(resp, found[j].list_index as int, mac));
                let (a, b) = choose|a: int, b: int| #[trigger]
                    holds_bound(resp, a, mac) && #[trigger] holds_bound(resp, b, mac) && resp[4 + 42
                        * a + 12] != resp[4 + 42 * b + 12];
                let x = record_device(record_bytes(resp, a), a as u8);
                let y = record_device(record_bytes(resp, b), b as u8);
                assert(found.contains(x) && found.contains(y));
                let p = choose|p: int| 0 <= p < found.len() && found[p] == x;
                let q = choose|q: int| 0 <= q < found.len() && found[q] == y;
                lemma_bound(resp, p, mac);
                lemma_bound(resp, q, mac);
                assert(found[p].channel == ch && found[q].channel == ch);
            }
        }
        law_channel_follows(found, mac, c, 0);
        assert(n.poll(resp, now).master_channel == c);
        lemma_channel_after(resp, mac, n.master_channel, count);
        assert forall|k: int| 0 <= k < count implies is_master_record(
            #[trigger] record(resp, k),
            mac,
        ) == holds_dongle(resp, k, mac) by {
            lemma_dongle(resp, k, mac);
        }
        if holds_dongle(resp, i, mac) {
            lemma_record(resp, i);
            assert(record(resp, i)[12] == resp[4 + 42 * i + 12]);
        }
    }
}

/// What a report announces is the channel of the dongle's own record, of the
/// last if there are several, where that is another than before; without such a
/// record it announces none.
pub proof fn law_announced_channel(n: NetworkView, resp: Seq<u8>, i: int)
    ensures
        holds_dongle(resp, i, n.master_mac) && (forall|k: int|
            k > i ==> !#[trigger] holds_dongle(resp, k, n.master_mac)) ==> {
            let channel = resp[4 + 42 * i + 12];
            change(n.master_channel, announced_channel(n, resp)) == if channel
                == n.master_channel {
                None
            } else {
                Some(channel)
            }
        },
        (forall|k: int| !#[trigger] holds_dongle(resp, k, n.master_mac)) ==> change(
            n.master_channel,
            announced_channel(n, resp),
        ) is None,
{
    let mac = n.master_mac;
    if NetworkView::has_list(resp) {
        let count = record_count(resp);
        lemma_channel_after(resp, mac, n.master_channel, count);
        assert forall|k: int| 0 <= k < count implies is_master_record(
            #[trigger] record(resp, k),
            mac,
        ) == holds_dongle(resp, k, mac) by {
            lemma_dongle(resp, k, mac);
        }
        if holds_dongle(resp, i, mac) {
            lemma_record(resp, i);
            assert(record(resp, i)[12] == resp[4 + 42 * i + 12]);
        }
    }
}

} // verus!
