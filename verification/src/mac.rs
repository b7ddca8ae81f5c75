//! Radio addresses as text.

use vstd::prelude::*;
use crate::text::{hex2, lemma_hex2_injective, push_hex2};

verus! {

/// A MAC address as six pairs of hexadecimal digits between colons.
pub open spec fn mac_text(mac: [u8; 6]) -> Seq<char> {
    hex2(mac[0]) + ":"@ + hex2(mac[1]) + ":"@ + hex2(mac[2]) + ":"@ + hex2(mac[3]) + ":"@ + hex2(
        mac[4],
    ) + ":"@ + hex2(mac[5])
}

/// The name under which the lighting code knows the bank at `mac`.
pub open spec fn bank_id(mac: [u8; 6]) -> Seq<char> {
    "wireless:"@ + mac_text(mac)
}

pub fn mac_string(mac: &[u8; 6]) -> (s: String)
    ensures
        s@ == mac_text(*mac),
{
    let mut s = String::new();
    push_hex2(&mut s, mac[0]);
    s.append(":");
    push_hex2(&mut s, mac[1]);
    s.append(":");
    push_hex2(&mut s, mac[2]);
    s.append(":");
    push_hex2(&mut s, mac[3]);
    s.append(":");
    push_hex2(&mut s, mac[4]);
    s.append(":");
    push_hex2(&mut s, mac[5]);
    proof {
        assert(s@ =~= mac_text(*mac));
    }
    s
}

pub fn bank_id_string(mac: &[u8; 6]) -> (s: String)
    ensures
        s@ == bank_id(*mac),
{
    let mut s = "wireless:".to_owned();
    let m = mac_string(mac);
    s.append(m.as_str());
    s
}

/// A MAC address takes seventeen characters.
pub proof fn law_mac_text_len(mac: [u8; 6])
    ensures
        mac_text(mac).len() == 17,
{
    reveal_strlit(":");
}

proof fn lemma_mac_text_pair(mac: [u8; 6], i: int)
    requires
        0 <= i < 6,
    ensures
        mac_text(mac).subrange(3 * i, 3 * i + 2) == hex2(mac[i]),
{
    reveal_strlit(":");
    assert(mac_text(mac).subrange(3 * i, 3 * i + 2) =~= hex2(mac[i]));
}

/// Different addresses have different text.
pub proof fn law_mac_text_injective(a: [u8; 6], b: [u8; 6])
    requires
        mac_text(a) == mac_text(b),
    ensures
        a == b,
{
    assert forall|i: int| 0 <= i < 6 implies a[i] == b[i] by {
        lemma_mac_text_pair(a, i);
        lemma_mac_text_pair(b, i);
        lemma_hex2_injective(a[i], b[i]);
    }
    assert(a =~= b);
}

/// Banks at different addresses have different names.
pub proof fn law_bank_id_injective(a: [u8; 6], b: [u8; 6])
    requires
        bank_id(a) == bank_id(b),
    ensures
        a == b,
{
    let n = "wireless:"@.len() as int;
    assert(bank_id(a).skip(n) =~= mac_text(a));
    assert(bank_id(b).skip(n) =~= mac_text(b));
    law_mac_text_injective(a, b);
}

} // verus!
