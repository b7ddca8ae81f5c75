//! What streaming does with times and with pending colors.

use vstd::prelude::*;
use crate::direct_color::{
    buffer_covers, buffer_patch, buffer_set, spec_flush_pause, stands_alone, FlushTurnView, EMPTY_PAUSE,
};

verus! {

/// After colors for a zone have come in, they are pending, and everything else
/// is pending as before.
pub proof fn law_buffer_set(
    b: Map<Seq<char>, Map<u8, Seq<[u8; 3]>>>,
    id: Seq<char>,
    zone: u8,
    colors: Seq<[u8; 3]>,
    i: Seq<char>,
    z: u8,
)
    ensures
        ({
            let a = buffer_set(b, id, zone, colors);
            &&& a.contains_key(id)
            &&& a[id].contains_key(zone)
            &&& a[id][zone] == colors
            &&& i != id ==> a.contains_key(i) == b.contains_key(i)
            &&& i != id && b.contains_key(i) ==> a[i] == b[i]
            &&& z != zone ==> a[id].contains_key(z) == (b.contains_key(id) && b[id].contains_key(z))
            &&& z != zone && b.contains_key(id) && b[id].contains_key(z) ==> a[id][z] == b[id][z]
        }),
{
}

/// A patch changes the color of one LED in colors that are pending and reach as
/// far, and nothing else; where there are none, it changes nothing.
pub proof fn law_buffer_patch(
    b: Map<Seq<char>, Map<u8, Seq<[u8; 3]>>>,
    id: Seq<char>,
    zone: u8,
    led: int,
    color: [u8; 3],
    i: Seq<char>,
    z: u8,
    p: int,
)
    ensures
        ({
            let a = buffer_patch(b, id, zone, led, color);
            let there = b.contains_key(id) && b[id].contains_key(zone) && 0 <= led
                < b[id][zone].len();
            &&& buffer_covers(b, id, zone, led) == there
            &&& !there ==> a == b
            &&& there ==> {
                &&& a.contains_key(i) == b.contains_key(i)
                &&& b.contains_key(i) ==> a[i].contains_key(z) == b[i].contains_key(z)
                &&& b.contains_key(i) && b[i].contains_key(z) ==> {
                    &&& a[i][z].len() == b[i][z].len()
                    &&& 0 <= p < b[i][z].len() ==> a[i][z][p] == if i == id && z == zone && p
                        == led {
                        color
                    } else {
                        b[i][z][p]
                    }
                }
            }
        }),
{
}

/// A write stands alone exactly if none went out to the device before, or the
/// last one more than a second ago.
pub proof fn law_when_a_write_stands_alone(last: Map<Seq<char>, u64>, id: Seq<char>, now: u64)
    ensures
        !last.contains_key(id) ==> stands_alone(last, id, now),
        last.contains_key(id) ==> (stands_alone(last, id, now) <==> now > last[id] + 1_000_000_000),
{
}

/// A flush of up to 18 milliseconds is filled up to 33; a longer one is
/// followed by 15 of rest. Where there is nothing to flush, 5 are rested.
pub proof fn law_rest_after_a_flush(elapsed: u64)
    ensures
        elapsed <= 18_000_000 ==> elapsed + spec_flush_pause(elapsed) == 33_000_000,
        elapsed >= 18_000_000 ==> spec_flush_pause(elapsed) == 15_000_000,
        EMPTY_PAUSE == 5_000_000,
{
}

/// The step after that of a bank notes that bank as flushed, and nothing else;
/// no other step notes anything. Steps are counted until the turn is closed,
/// which takes one step for the wired devices, one for each bank, and one more.
pub proof fn law_turn_bookkeeping(
    t: FlushTurnView,
    last: Map<Seq<char>, u64>,
    now: u64,
    i: int,
    id: Seq<char>,
)
    ensures
        0 <= i < t.banks.len() && t.served == i + 2 ==> {
            let a = t.noted(last, now);
            &&& a.contains_key(t.banks[i].device_id)
            &&& a[t.banks[i].device_id] == now
            &&& id != t.banks[i].device_id ==> a.contains_key(id) == last.contains_key(id)
            &&& id != t.banks[i].device_id && last.contains_key(id) ==> a[id] == last[id]
        },
        t.served <= 1 || t.served >= t.banks.len() + 2 ==> t.noted(last, now) == last,
        t.next().wired == t.wired,
        t.next().banks == t.banks,
        t.served < t.banks.len() + 2 ==> t.next().served == t.served + 1,
        t.served >= t.banks.len() + 2 ==> t.next() == t,
{
}

} // verus!
