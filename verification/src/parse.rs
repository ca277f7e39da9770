//! The wire grammar of the protocol, and verified decoders for it.
//!
//! Every inbound message begins with the 4-byte out-of-band marker
//! `0xFFFFFFFF`, then an ASCII literal naming the message, then the payload.
//! The grammar of each payload is written down here as spec functions over
//! byte sequences; each executable decoder is proved to return exactly what
//! the grammar says, together with the index where the unconsumed leftover
//! begins.

#![allow(non_snake_case)]

use vstd::prelude::*;

use crate::addr::SocketAddr;
use crate::addr::SocketAddrV4;
use crate::addr::SocketAddrV6;
use crate::addr::spec_ip_v4;
use crate::addr::spec_ip_v6;
use crate::addr::spec_port;
use crate::ParseResponseError;

verus! {

/// The out-of-band marker that opens every control datagram.
pub open spec fn oob_lit() -> Seq<u8> {
    seq![255u8, 255u8, 255u8, 255u8]
}

/// The 7-byte end-of-transmission sentinel `\EOT\0\0\0`.
pub open spec fn eot_lit() -> Seq<u8> {
    seq![92u8, 69u8, 79u8, 84u8, 0u8, 0u8, 0u8]
}

/// The literal `getserversResponse`.
pub open spec fn getservers_response_lit() -> Seq<u8> {
    seq![
        103u8, 101u8, 116u8, 115u8, 101u8, 114u8, 118u8, 101u8, 114u8, 115u8, 82u8, 101u8, 115u8,
        112u8, 111u8, 110u8, 115u8, 101u8,
    ]
}

/// The literal `getserversExtResponse`.
pub open spec fn getservers_ext_response_lit() -> Seq<u8> {
    seq![
        103u8, 101u8, 116u8, 115u8, 101u8, 114u8, 118u8, 101u8, 114u8, 115u8, 69u8, 120u8, 116u8,
        82u8, 101u8, 115u8, 112u8, 111u8, 110u8, 115u8, 101u8,
    ]
}

/// `lit` occurs in `s` at offset `i`.
pub open spec fn lit_at(s: Seq<u8>, i: int, lit: Seq<u8>) -> bool {
    &&& 0 <= i
    &&& i + lit.len() <= s.len()
    &&& forall|k: int| 0 <= k < lit.len() ==> s[i + k] == lit[k]
}

/// The out-of-band marker occurs at offset `i`.
pub open spec fn oob_at(s: Seq<u8>, i: int) -> bool {
    lit_at(s, i, oob_lit())
}

/// The end-of-transmission sentinel occurs at offset `i`.
pub open spec fn eot_at(s: Seq<u8>, i: int) -> bool {
    lit_at(s, i, eot_lit())
}

/// A tagged IPv4 socket address could start at offset `i`: the tag byte
/// `\` with at least 6 bytes after it.
pub open spec fn v4_tagged_at(s: Seq<u8>, i: int) -> bool {
    &&& 0 <= i
    &&& i + 7 <= s.len()
    &&& s[i] == 92u8
}

/// A tagged IPv6 socket address could start at offset `i`: the tag byte
/// `/` with at least 18 bytes after it.
pub open spec fn v6_tagged_at(s: Seq<u8>, i: int) -> bool {
    &&& 0 <= i
    &&& i + 19 <= s.len()
    &&& s[i] == 47u8
}

/// The IPv4 socket address whose 7 wire bytes start at offset `i`.
pub open spec fn v4_value_at(s: Seq<u8>, i: int) -> SocketAddrV4 {
    SocketAddrV4 {
        ip: spec_ip_v4(s[i + 1], s[i + 2], s[i + 3], s[i + 4]),
        port: spec_port(s[i + 5], s[i + 6]),
    }
}

/// The IPv6 socket address whose 19 wire bytes start at offset `i`.
pub open spec fn v6_value_at(s: Seq<u8>, i: int) -> SocketAddrV6 {
    SocketAddrV6 { ip: spec_ip_v6(s, i + 1), port: spec_port(s[i + 17], s[i + 18]) }
}

/// What a run of IPv4 address entries decodes to: the addresses up to the
/// first end-of-transmission sentinel or the first byte that starts
/// neither, whether the sentinel was seen, and the offset of the leftover.
pub ghost struct V4ListOut {
    pub addrs: Seq<SocketAddrV4>,
    pub eot: bool,
    pub end: int,
}

/// Decodes a run of IPv4 address entries starting at `i`, eagerly, stopping
/// at the first end-of-transmission sentinel (consumed, flagged) or at the
/// first position where no entry starts.
pub open spec fn spec_v4_list(s: Seq<u8>, i: int) -> V4ListOut
    decreases s.len() - i,
{
    if eot_at(s, i) {
        V4ListOut { addrs: Seq::empty(), eot: true, end: i + 7 }
    } else if v4_tagged_at(s, i) {
        let rest = spec_v4_list(s, i + 7);
        V4ListOut { addrs: seq![v4_value_at(s, i)] + rest.addrs, eot: rest.eot, end: rest.end }
    } else {
        V4ListOut { addrs: Seq::empty(), eot: false, end: i }
    }
}

/// As `V4ListOut`, for runs that mix IPv4 and IPv6 entries.
pub ghost struct AddrListOut {
    pub addrs: Seq<SocketAddr>,
    pub eot: bool,
    pub end: int,
}

/// Decodes a run of IPv4 or IPv6 address entries starting at `i`; the tag
/// byte of each entry picks its kind; stops as `spec_v4_list` does.
pub open spec fn spec_addr_list(s: Seq<u8>, i: int) -> AddrListOut
    decreases s.len() - i,
{
    if eot_at(s, i) {
        AddrListOut { addrs: Seq::empty(), eot: true, end: i + 7 }
    } else if v4_tagged_at(s, i) {
        let rest = spec_addr_list(s, i + 7);
        AddrListOut {
            addrs: seq![SocketAddr::V4(v4_value_at(s, i))] + rest.addrs,
            eot: rest.eot,
            end: rest.end,
        }
    } else if v6_tagged_at(s, i) {
        let rest = spec_addr_list(s, i + 19);
        AddrListOut {
            addrs: seq![SocketAddr::V6(v6_value_at(s, i))] + rest.addrs,
            eot: rest.eot,
            end: rest.end,
        }
    } else {
        AddrListOut { addrs: Seq::empty(), eot: false, end: i }
    }
}

/// What a whole `getserversResponse` datagram decodes to, if the marker and
/// the message literal are present: the address run that follows them.
pub open spec fn spec_getservers_response(s: Seq<u8>) -> Option<V4ListOut> {
    if oob_at(s, 0) && lit_at(s, 4, getservers_response_lit()) {
        Some(spec_v4_list(s, 22))
    } else {
        None
    }
}

/// What a whole `getserversExtResponse` datagram decodes to.
pub open spec fn spec_getservers_ext_response(s: Seq<u8>) -> Option<AddrListOut> {
    if oob_at(s, 0) && lit_at(s, 4, getservers_ext_response_lit()) {
        Some(spec_addr_list(s, 25))
    } else {
        None
    }
}

/// Whether a decoded discovery response carried the end-of-transmission
/// sentinel.
pub struct ContainsEot(pub bool);

/// The literal `infoResponse` followed by a line feed.
pub open spec fn info_response_lit() -> Seq<u8> {
    seq![105u8, 110u8, 102u8, 111u8, 82u8, 101u8, 115u8, 112u8, 111u8, 110u8, 115u8, 101u8, 10u8]
}

/// The literal `statusResponse` followed by a line feed.
pub open spec fn status_response_lit() -> Seq<u8> {
    seq![
        115u8, 116u8, 97u8, 116u8, 117u8, 115u8, 82u8, 101u8, 115u8, 112u8, 111u8, 110u8, 115u8,
        101u8, 10u8,
    ]
}

/// The offset of the first `\` at or after `i`, or the end of `s`.
pub open spec fn scan_key(s: Seq<u8>, i: int) -> int
    decreases s.len() - i,
{
    if 0 <= i < s.len() && s[i] != 92u8 {
        scan_key(s, i + 1)
    } else {
        i
    }
}

/// The offset of the first `\` or line feed at or after `i`, or the end of
/// `s`.
pub open spec fn scan_value(s: Seq<u8>, i: int) -> int
    decreases s.len() - i,
{
    if 0 <= i < s.len() && s[i] != 92u8 && s[i] != 10u8 {
        scan_value(s, i + 1)
    } else {
        i
    }
}

pub proof fn lemma_scan_key_bounds(s: Seq<u8>, i: int)
    requires
        0 <= i <= s.len(),
    ensures
        i <= scan_key(s, i) <= s.len(),
        scan_key(s, i) < s.len() ==> s[scan_key(s, i)] == 92u8,
        forall|j: int| i <= j < scan_key(s, i) ==> s[j] != 92u8,
    decreases s.len() - i,
{
    if 0 <= i < s.len() && s[i] != 92u8 {
        lemma_scan_key_bounds(s, i + 1);
    }
}

pub proof fn lemma_scan_value_bounds(s: Seq<u8>, i: int)
    requires
        0 <= i <= s.len(),
    ensures
        i <= scan_value(s, i) <= s.len(),
        scan_value(s, i) < s.len() ==> s[scan_value(s, i)] == 92u8 || s[scan_value(s, i)] == 10u8,
        forall|j: int| i <= j < scan_value(s, i) ==> s[j] != 92u8 && s[j] != 10u8,
    decreases s.len() - i,
{
    if 0 <= i < s.len() && s[i] != 92u8 && s[i] != 10u8 {
        lemma_scan_value_bounds(s, i + 1);
    }
}

/// A `\key\value` entry starts at offset `i`: a `\`, key bytes free of
/// `\`, then a second `\` before the end of input. The value bytes after
/// the second `\` may be empty and run to the next `\`, line feed, or the
/// end of input.
pub open spec fn kv_entry_at(s: Seq<u8>, i: int) -> bool {
    &&& 0 <= i < s.len()
    &&& s[i] == 92u8
    &&& scan_key(s, i + 1) < s.len()
}

/// What a key-value run decodes to: the pairs in encounter order and the
/// offset of the leftover.
pub ghost struct KvOut {
    pub pairs: Seq<(Seq<u8>, Seq<u8>)>,
    pub end: int,
}

/// Decodes a greedy run of `\key\value` entries starting at `i`. The run
/// may be empty; whole-message grammars demand at least one entry.
pub open spec fn spec_kv_run(s: Seq<u8>, i: int) -> KvOut
    decreases s.len() - i,
        via spec_kv_run_decreases
{
    if 0 <= i <= s.len() && kv_entry_at(s, i) {
        let kend = scan_key(s, i + 1);
        let vend = scan_value(s, kend + 1);
        let rest = spec_kv_run(s, vend);
        KvOut {
            pairs: seq![(s.subrange(i + 1, kend), s.subrange(kend + 1, vend))] + rest.pairs,
            end: rest.end,
        }
    } else {
        KvOut { pairs: Seq::empty(), end: i }
    }
}

#[via_fn]
proof fn spec_kv_run_decreases(s: Seq<u8>, i: int) {
    if 0 <= i <= s.len() && kv_entry_at(s, i) {
        lemma_scan_key_bounds(s, i + 1);
        lemma_scan_value_bounds(s, scan_key(s, i + 1) + 1);
    }
}

/// The views of a vector of decoded key-value pairs.
pub open spec fn pairs_view(ps: Seq<(Vec<u8>, Vec<u8>)>) -> Seq<(Seq<u8>, Seq<u8>)> {
    ps.map_values(|p: (Vec<u8>, Vec<u8>)| (p.0@, p.1@))
}

/// The offset of the first non-digit at or after `i`, or the end of `s`.
pub open spec fn scan_digits(s: Seq<u8>, i: int) -> int
    decreases s.len() - i,
{
    if 0 <= i < s.len() && 48 <= s[i] <= 57 {
        scan_digits(s, i + 1)
    } else {
        i
    }
}

pub proof fn lemma_scan_digits_bounds(s: Seq<u8>, i: int)
    requires
        0 <= i <= s.len(),
    ensures
        i <= scan_digits(s, i) <= s.len(),
        forall|j: int| i <= j < scan_digits(s, i) ==> 48 <= #[trigger] s[j] <= 57,
    decreases s.len() - i,
{
    if 0 <= i < s.len() && 48 <= s[i] <= 57 {
        lemma_scan_digits_bounds(s, i + 1);
    }
}

/// The non-negative number written by the decimal digits `s[i..j]`.
pub open spec fn digits_value(s: Seq<u8>, i: int, j: int) -> int
    decreases j - i,
{
    if i < j {
        digits_value(s, i, j - 1) * 10 + (s[j - 1] - 48)
    } else {
        0
    }
}

pub proof fn lemma_digits_value_mono(s: Seq<u8>, i: int, m: int, j: int)
    requires
        i <= m <= j,
        forall|k: int| i <= k < j ==> 48 <= #[trigger] s[k] <= 57,
    ensures
        0 <= digits_value(s, i, m) <= digits_value(s, i, j),
    decreases j - m,
{
    if m == j {
        lemma_digits_value_nonneg(s, i, m);
    } else {
        lemma_digits_value_mono(s, i, m, j - 1);
    }
}

pub proof fn lemma_digits_value_nonneg(s: Seq<u8>, i: int, j: int)
    requires
        forall|k: int| i <= k < j ==> 48 <= #[trigger] s[k] <= 57,
    ensures
        digits_value(s, i, j) >= 0,
    decreases j - i,
{
    if i < j {
        lemma_digits_value_nonneg(s, i, j - 1);
    }
}

/// `v` fits a 32-bit signed integer.
pub open spec fn i32_fits(v: int) -> bool {
    -0x80000000 <= v <= 0x7FFFFFFF
}

/// What a signed decimal integer token at offset `i` decodes to: an
/// optional minus sign, then one or more digits; the mathematical value
/// and the offset after the digits.
pub open spec fn spec_int_at(s: Seq<u8>, i: int) -> Option<(int, int)> {
    if 0 <= i < s.len() && s[i] == 45 {
        let d = scan_digits(s, i + 1);
        if d > i + 1 {
            Some((-digits_value(s, i + 1, d), d))
        } else {
            None
        }
    } else if 0 <= i {
        let d = scan_digits(s, i);
        if d > i {
            Some((digits_value(s, i, d), d))
        } else {
            None
        }
    } else {
        None
    }
}

/// The offset of the first `"` at or after `i`, or the end of `s`.
pub open spec fn scan_quote(s: Seq<u8>, i: int) -> int
    decreases s.len() - i,
{
    if 0 <= i < s.len() && s[i] != 34u8 {
        scan_quote(s, i + 1)
    } else {
        i
    }
}

pub proof fn lemma_scan_quote_bounds(s: Seq<u8>, i: int)
    requires
        0 <= i <= s.len(),
    ensures
        i <= scan_quote(s, i) <= s.len(),
        scan_quote(s, i) < s.len() ==> s[scan_quote(s, i)] == 34u8,
    decreases s.len() - i,
{
    if 0 <= i < s.len() && s[i] != 34u8 {
        lemma_scan_quote_bounds(s, i + 1);
    }
}

/// What a double-quoted string at offset `i` decodes to: the bytes up to
/// the next literal `"`, with no escape handling, and the offset after the
/// closing quote.
pub open spec fn spec_quoted_at(s: Seq<u8>, i: int) -> Option<(Seq<u8>, int)> {
    if 0 <= i < s.len() && s[i] == 34u8 {
        let q = scan_quote(s, i + 1);
        if q < s.len() {
            Some((s.subrange(i + 1, q), q + 1))
        } else {
            None
        }
    } else {
        None
    }
}

/// One decoded player line of a status response.
pub ghost struct PlayerRec {
    pub frags: int,
    pub ping: int,
    pub name: Seq<u8>,
    pub team: int,
}

/// What a player line at offset `i` decodes to: frags, a space, ping, a
/// space, a double-quoted name, a space, team, a line feed. Each integer
/// must fit 32 signed bits.
pub open spec fn spec_player_at(s: Seq<u8>, i: int) -> Option<(PlayerRec, int)> {
    match spec_int_at(s, i) {
        Some((frags, a)) => if a < s.len() && s[a] == 32 {
            match spec_int_at(s, a + 1) {
                Some((ping, b)) => if b < s.len() && s[b] == 32 {
                    match spec_quoted_at(s, b + 1) {
                        Some((name, c)) => if c < s.len() && s[c] == 32 {
                            match spec_int_at(s, c + 1) {
                                Some((team, d)) => if d < s.len() && s[d] == 10 && i32_fits(frags)
                                    && i32_fits(ping) && i32_fits(team) {
                                    Some((PlayerRec { frags, ping, name, team }, d + 1))
                                } else {
                                    None
                                },
                                None => None,
                            }
                        } else {
                            None
                        },
                        None => None,
                    }
                } else {
                    None
                },
                None => None,
            }
        } else {
            None
        },
        None => None,
    }
}

pub proof fn lemma_int_at_bounds(s: Seq<u8>, i: int)
    requires
        0 <= i <= s.len(),
        spec_int_at(s, i) is Some,
    ensures
        i < spec_int_at(s, i)->Some_0.1 <= s.len(),
{
    lemma_scan_digits_bounds(s, i);
    if i < s.len() && s[i] == 45 {
        lemma_scan_digits_bounds(s, i + 1);
    }
}

pub proof fn lemma_player_at_bounds(s: Seq<u8>, i: int)
    requires
        0 <= i <= s.len(),
        spec_player_at(s, i) is Some,
    ensures
        i < spec_player_at(s, i)->Some_0.1 <= s.len(),
{
    let (frags, a) = spec_int_at(s, i)->Some_0;
    lemma_int_at_bounds(s, i);
    let (ping, b) = spec_int_at(s, a + 1)->Some_0;
    lemma_int_at_bounds(s, a + 1);
    let (name, c) = spec_quoted_at(s, b + 1)->Some_0;
    lemma_scan_quote_bounds(s, b + 2);
    let (team, d) = spec_int_at(s, c + 1)->Some_0;
    lemma_int_at_bounds(s, c + 1);
}

/// What a run of player lines decodes to: the records in order and the
/// offset of the leftover.
pub ghost struct PlayersOut {
    pub players: Seq<PlayerRec>,
    pub end: int,
}

/// Decodes a greedy run of player lines starting at `i`. The run may be
/// empty; the status-response grammar demands at least one line once the
/// separating line feed was seen.
pub open spec fn spec_player_list(s: Seq<u8>, i: int) -> PlayersOut
    decreases s.len() - i,
        via spec_player_list_decreases
{
    if 0 <= i <= s.len() && spec_player_at(s, i) is Some {
        let rec = spec_player_at(s, i)->Some_0.0;
        let next = spec_player_at(s, i)->Some_0.1;
        let rest = spec_player_list(s, next);
        PlayersOut { players: seq![rec] + rest.players, end: rest.end }
    } else {
        PlayersOut { players: Seq::empty(), end: i }
    }
}

#[via_fn]
proof fn spec_player_list_decreases(s: Seq<u8>, i: int) {
    if 0 <= i <= s.len() && spec_player_at(s, i) is Some {
        lemma_player_at_bounds(s, i);
    }
}

/// What a whole status response decodes to: the key-value pairs, the
/// player records, and the offset of the leftover.
pub ghost struct StatusOut {
    pub pairs: Seq<(Seq<u8>, Seq<u8>)>,
    pub players: Seq<PlayerRec>,
    pub end: int,
}

/// What a whole `statusResponse` datagram decodes to: marker, message
/// literal, a key-value run of at least one entry, then either no player
/// section at all, or a line feed followed by one or more player lines.
pub open spec fn spec_status_response(s: Seq<u8>) -> Option<StatusOut> {
    if oob_at(s, 0) && lit_at(s, 4, status_response_lit()) {
        let kv = spec_kv_run(s, 19);
        if kv.pairs.len() == 0 {
            None
        } else if kv.end < s.len() && s[kv.end] == 10 {
            let pl = spec_player_list(s, kv.end + 1);
            if pl.players.len() >= 1 {
                Some(StatusOut { pairs: kv.pairs, players: pl.players, end: pl.end })
            } else {
                None
            }
        } else {
            Some(StatusOut { pairs: kv.pairs, players: Seq::empty(), end: kv.end })
        }
    } else {
        None
    }
}

/// What a whole `infoResponse` datagram decodes to: marker, message
/// literal, then a key-value run of at least one entry.
pub open spec fn spec_info_response(s: Seq<u8>) -> Option<KvOut> {
    if oob_at(s, 0) && lit_at(s, 4, info_response_lit()) {
        let kv = spec_kv_run(s, 17);
        if kv.pairs.len() >= 1 {
            Some(kv)
        } else {
            None
        }
    } else {
        None
    }
}

/// `lit` compared byte for byte against `data` at offset `at`.
pub fn check_lit(data: &[u8], at: usize, lit: &[u8]) -> (r: bool)
    ensures
        r == lit_at(data@, at as int, lit@),
{
    let dlen = data.len();
    let llen = lit.len();
    if at > dlen || dlen - at < llen {
        return false;
    }
    let mut k: usize = 0;
    while k < llen
        invariant
            dlen == data@.len(),
            llen == lit@.len(),
            at + llen <= dlen,
            0 <= k <= llen,
            forall|j: int| 0 <= j < k ==> data@[at + j] == lit@[j],
        decreases llen - k,
    {
        if data[at + k] != lit[k] {
            return false;
        }
        k += 1;
    }
    true
}

/// The out-of-band marker compared against `data` at offset `at`.
fn check_oob(data: &[u8], at: usize) -> (r: bool)
    ensures
        r == oob_at(data@, at as int),
{
    let lit: [u8; 4] = [255u8, 255u8, 255u8, 255u8];
    proof {
        assert(lit@ =~= oob_lit());
    }
    check_lit(data, at, &lit)
}

/// The end-of-transmission sentinel compared against `data` at offset `at`.
fn check_eot(data: &[u8], at: usize) -> (r: bool)
    ensures
        r == eot_at(data@, at as int),
{
    let lit: [u8; 7] = [92u8, 69u8, 79u8, 84u8, 0u8, 0u8, 0u8];
    proof {
        assert(lit@ =~= eot_lit());
    }
    check_lit(data, at, &lit)
}

/// Decodes the tagged IPv4 socket address at offset `pos`: tag `\`, 4
/// address bytes, 2 port bytes, all big-endian.
pub fn socket_addr_v4(i: &[u8], pos: usize) -> (r: Option<(SocketAddrV4, usize)>)
    requires
        pos <= i@.len(),
    ensures
        match r {
            Some(out) => {
                &&& v4_tagged_at(i@, pos as int)
                &&& out.0 == v4_value_at(i@, pos as int)
                &&& out.1 == pos + 7
            },
            None => !v4_tagged_at(i@, pos as int),
        },
{
    if i.len() - pos < 7 || i[pos] != 92 {
        return None;
    }
    let ip = (i[pos + 1] as u32) << 24 | (i[pos + 2] as u32) << 16 | (i[pos + 3] as u32) << 8 | (
    i[pos + 4] as u32);
    let port = (i[pos + 5] as u16) << 8 | (i[pos + 6] as u16);
    Some((SocketAddrV4 { ip, port }, pos + 7))
}

/// Decodes the tagged IPv6 socket address at offset `pos`: tag `/`, 16
/// address bytes, 2 port bytes, all big-endian.
pub fn socket_addr_v6(i: &[u8], pos: usize) -> (r: Option<(SocketAddrV6, usize)>)
    requires
        pos <= i@.len(),
    ensures
        match r {
            Some(out) => {
                &&& v6_tagged_at(i@, pos as int)
                &&& out.0 == v6_value_at(i@, pos as int)
                &&& out.1 == pos + 19
            },
            None => !v6_tagged_at(i@, pos as int),
        },
{
    if i.len() - pos < 19 || i[pos] != 47 {
        return None;
    }
    let ip = (i[pos + 1] as u128) << 120 | (i[pos + 2] as u128) << 112 | (i[pos + 3] as u128)
        << 104 | (i[pos + 4] as u128) << 96 | (i[pos + 5] as u128) << 88 | (i[pos + 6] as u128)
        << 80 | (i[pos + 7] as u128) << 72 | (i[pos + 8] as u128) << 64 | (i[pos + 9] as u128)
        << 56 | (i[pos + 10] as u128) << 48 | (i[pos + 11] as u128) << 40 | (i[pos + 12] as u128)
        << 32 | (i[pos + 13] as u128) << 24 | (i[pos + 14] as u128) << 16 | (i[pos + 15] as u128)
        << 8 | (i[pos + 16] as u128);
    let port = (i[pos + 17] as u16) << 8 | (i[pos + 18] as u16);
    Some((SocketAddrV6 { ip, port }, pos + 19))
}

/// Decodes a socket address of either kind at offset `pos`; the tag byte
/// alone picks the kind.
pub fn socket_addr(i: &[u8], pos: usize) -> (r: Option<(SocketAddr, usize)>)
    requires
        pos <= i@.len(),
    ensures
        match r {
            Some(out) => {
                &&& (v4_tagged_at(i@, pos as int) || v6_tagged_at(i@, pos as int))
                &&& v4_tagged_at(i@, pos as int) ==> out.0 == SocketAddr::V4(
                    v4_value_at(i@, pos as int),
                ) && out.1 == pos + 7
                &&& !v4_tagged_at(i@, pos as int) ==> out.0 == SocketAddr::V6(
                    v6_value_at(i@, pos as int),
                ) && out.1 == pos + 19
            },
            None => !v4_tagged_at(i@, pos as int) && !v6_tagged_at(i@, pos as int),
        },
{
    match socket_addr_v4(i, pos) {
        Some((a, end)) => Some((SocketAddr::V4(a), end)),
        None => match socket_addr_v6(i, pos) {
            Some((a, end)) => Some((SocketAddr::V6(a), end)),
            None => None,
        },
    }
}

/// Decodes a whole `getserversResponse` datagram: marker, message literal,
/// then an eager run of IPv4 addresses up to an optional
/// end-of-transmission sentinel. Returns the addresses, the sentinel flag,
/// and the offset of the first leftover byte.
pub fn getserversResponse(i: &[u8]) -> (r: Result<
    (Vec<SocketAddrV4>, ContainsEot, usize),
    ParseResponseError,
>)
    ensures
        match r {
            Ok(out) => {
                &&& spec_getservers_response(i@) is Some
                &&& out.0@ == spec_getservers_response(i@)->Some_0.addrs
                &&& out.1.0 == spec_getservers_response(i@)->Some_0.eot
                &&& out.2 as int == spec_getservers_response(i@)->Some_0.end
                &&& out.2 <= i@.len()
            },
            Err(_) => spec_getservers_response(i@) is None,
        },
{
    let lit: [u8; 18] = [
        103u8,
        101u8,
        116u8,
        115u8,
        101u8,
        114u8,
        118u8,
        101u8,
        114u8,
        115u8,
        82u8,
        101u8,
        115u8,
        112u8,
        111u8,
        110u8,
        115u8,
        101u8,
    ];
    proof {
        assert(lit@ =~= getservers_response_lit());
    }
    if !check_oob(i, 0) || !check_lit(i, 4, &lit) {
        return Err(ParseResponseError::InvalidResponse);
    }
    let ilen = i.len();
    let ghost whole = spec_v4_list(i@, 22);
    let mut addrs: Vec<SocketAddrV4> = Vec::new();
    let mut pos: usize = 22;
    let mut eot: bool = false;
    loop
        invariant_except_break
            ilen == i@.len(),
            22 <= pos <= i@.len(),
            !eot,
            whole == spec_v4_list(i@, 22),
            whole.addrs == addrs@ + spec_v4_list(i@, pos as int).addrs,
            whole.eot == spec_v4_list(i@, pos as int).eot,
            whole.end == spec_v4_list(i@, pos as int).end,
        ensures
            addrs@ == whole.addrs,
            eot == whole.eot,
            pos as int == whole.end,
            pos <= i@.len(),
        decreases i@.len() - pos,
    {
        if check_eot(i, pos) {
            proof {
                assert(whole.addrs =~= addrs@);
            }
            eot = true;
            pos = pos + 7;
            break;
        }
        match socket_addr_v4(i, pos) {
            Some((a, next)) => {
                let ghost before = spec_v4_list(i@, pos as int);
                addrs.push(a);
                proof {
                    assert(before.addrs == seq![a] + spec_v4_list(i@, pos as int + 7).addrs);
                    assert(whole.addrs =~= addrs@ + spec_v4_list(i@, pos as int + 7).addrs);
                }
                pos = next;
            },
            None => {
                proof {
                    assert(whole.addrs =~= addrs@);
                }
                break;
            },
        }
    }
    Ok((addrs, ContainsEot(eot), pos))
}

/// Decodes a whole `getserversExtResponse` datagram: as
/// `getserversResponse`, but each entry may be IPv4 or IPv6.
pub fn getserversExtResponse(i: &[u8]) -> (r: Result<
    (Vec<SocketAddr>, ContainsEot, usize),
    ParseResponseError,
>)
    ensures
        match r {
            Ok(out) => {
                &&& spec_getservers_ext_response(i@) is Some
                &&& out.0@ == spec_getservers_ext_response(i@)->Some_0.addrs
                &&& out.1.0 == spec_getservers_ext_response(i@)->Some_0.eot
                &&& out.2 as int == spec_getservers_ext_response(i@)->Some_0.end
                &&& out.2 <= i@.len()
            },
            Err(_) => spec_getservers_ext_response(i@) is None,
        },
{
    let lit: [u8; 21] = [
        103u8,
        101u8,
        116u8,
        115u8,
        101u8,
        114u8,
        118u8,
        101u8,
        114u8,
        115u8,
        69u8,
        120u8,
        116u8,
        82u8,
        101u8,
        115u8,
        112u8,
        111u8,
        110u8,
        115u8,
        101u8,
    ];
    proof {
        assert(lit@ =~= getservers_ext_response_lit());
    }
    if !check_oob(i, 0) || !check_lit(i, 4, &lit) {
        return Err(ParseResponseError::InvalidResponse);
    }
    let ilen = i.len();
    let ghost whole = spec_addr_list(i@, 25);
    let mut addrs: Vec<SocketAddr> = Vec::new();
    let mut pos: usize = 25;
    let mut eot: bool = false;
    loop
        invariant_except_break
            ilen == i@.len(),
            25 <= pos <= i@.len(),
            !eot,
            whole == spec_addr_list(i@, 25),
            whole.addrs == addrs@ + spec_addr_list(i@, pos as int).addrs,
            whole.eot == spec_addr_list(i@, pos as int).eot,
            whole.end == spec_addr_list(i@, pos as int).end,
        ensures
            addrs@ == whole.addrs,
            eot == whole.eot,
            pos as int == whole.end,
            pos <= i@.len(),
        decreases i@.len() - pos,
    {
        if check_eot(i, pos) {
            proof {
                assert(whole.addrs =~= addrs@);
            }
            eot = true;
            pos = pos + 7;
            break;
        }
        match socket_addr(i, pos) {
            Some((a, next)) => {
                let ghost before = spec_addr_list(i@, pos as int);
                addrs.push(a);
                proof {
                    if v4_tagged_at(i@, pos as int) {
                        assert(before.addrs == seq![a] + spec_addr_list(
                            i@,
                            pos as int + 7,
                        ).addrs);
                        assert(whole.addrs =~= addrs@ + spec_addr_list(i@, pos as int + 7).addrs);
                    } else {
                        assert(before.addrs == seq![a] + spec_addr_list(
                            i@,
                            pos as int + 19,
                        ).addrs);
                        assert(whole.addrs =~= addrs@ + spec_addr_list(i@, pos as int + 19).addrs);
                    }
                }
                pos = next;
            },
            None => {
                proof {
                    assert(whole.addrs =~= addrs@);
                }
                break;
            },
        }
    }
    Ok((addrs, ContainsEot(eot), pos))
}

/// The offset of the first `\` at or after `from`, or the end of `data`.
fn scan_key_exec(data: &[u8], from: usize) -> (r: usize)
    requires
        from <= data@.len(),
    ensures
        r as int == scan_key(data@, from as int),
        from <= r <= data@.len(),
{
    let dlen = data.len();
    let mut p = from;
    while p < dlen && data[p] != 92
        invariant
            dlen == data@.len(),
            from <= p <= dlen,
            scan_key(data@, from as int) == scan_key(data@, p as int),
        decreases dlen - p,
    {
        p += 1;
    }
    p
}

/// The offset of the first `\` or line feed at or after `from`, or the end
/// of `data`.
fn scan_value_exec(data: &[u8], from: usize) -> (r: usize)
    requires
        from <= data@.len(),
    ensures
        r as int == scan_value(data@, from as int),
        from <= r <= data@.len(),
{
    let dlen = data.len();
    let mut p = from;
    while p < dlen && data[p] != 92 && data[p] != 10
        invariant
            dlen == data@.len(),
            from <= p <= dlen,
            scan_value(data@, from as int) == scan_value(data@, p as int),
        decreases dlen - p,
    {
        p += 1;
    }
    p
}

/// Decodes a greedy run of `\key\value` entries at offset `pos`, returning
/// the pairs in encounter order and the offset of the leftover. Fails when
/// the run is empty, as the message grammars demand at least one entry.
pub fn key_value_map(i: &[u8], pos: usize) -> (r: Option<(Vec<(Vec<u8>, Vec<u8>)>, usize)>)
    requires
        pos <= i@.len(),
    ensures
        match r {
            Some(out) => {
                &&& spec_kv_run(i@, pos as int).pairs.len() >= 1
                &&& pairs_view(out.0@) == spec_kv_run(i@, pos as int).pairs
                &&& out.1 as int == spec_kv_run(i@, pos as int).end
                &&& out.1 <= i@.len()
            },
            None => spec_kv_run(i@, pos as int).pairs.len() == 0,
        },
{
    let ilen = i.len();
    let ghost whole = spec_kv_run(i@, pos as int);
    let mut pairs: Vec<(Vec<u8>, Vec<u8>)> = Vec::new();
    let mut p: usize = pos;
    loop
        invariant_except_break
            ilen == i@.len(),
            pos <= p <= ilen,
            whole == spec_kv_run(i@, pos as int),
            whole.pairs == pairs_view(pairs@) + spec_kv_run(i@, p as int).pairs,
            whole.end == spec_kv_run(i@, p as int).end,
        ensures
            pairs_view(pairs@) == whole.pairs,
            p as int == whole.end,
            p <= ilen,
        decreases ilen - p,
    {
        if p >= ilen || i[p] != 92 {
            proof {
                assert(whole.pairs =~= pairs_view(pairs@));
            }
            break;
        }
        let kend = scan_key_exec(i, p + 1);
        if kend >= ilen {
            proof {
                assert(!kv_entry_at(i@, p as int));
                assert(whole.pairs =~= pairs_view(pairs@));
            }
            break;
        }
        let vend = scan_value_exec(i, kend + 1);
        let key = vstd::slice::slice_to_vec(vstd::slice::slice_subrange(i, p + 1, kend));
        let value = vstd::slice::slice_to_vec(vstd::slice::slice_subrange(i, kend + 1, vend));
        proof {
            assert(kv_entry_at(i@, p as int));
            assert(spec_kv_run(i@, p as int).pairs == seq![
                (i@.subrange(p as int + 1, kend as int), i@.subrange(kend as int + 1, vend as int)),
            ] + spec_kv_run(i@, vend as int).pairs);
        }
        pairs.push((key, value));
        proof {
            assert(pairs_view(pairs@) =~= pairs_view(pairs@.drop_last()).push(
                (i@.subrange(p as int + 1, kend as int), i@.subrange(kend as int + 1, vend as int)),
            ));
            assert(whole.pairs =~= pairs_view(pairs@) + spec_kv_run(i@, vend as int).pairs);
        }
        p = vend;
    }
    if pairs.len() == 0 {
        None
    } else {
        Some((pairs, p))
    }
}

/// Decodes a whole `infoResponse` datagram: marker, message literal, then
/// a key-value run of at least one entry. Returns the pairs in encounter
/// order and the offset of the first leftover byte.
pub fn infoResponse(i: &[u8]) -> (r: Result<
    (Vec<(Vec<u8>, Vec<u8>)>, usize),
    ParseResponseError,
>)
    ensures
        match r {
            Ok(out) => {
                &&& spec_info_response(i@) is Some
                &&& pairs_view(out.0@) == spec_info_response(i@)->Some_0.pairs
                &&& out.1 as int == spec_info_response(i@)->Some_0.end
                &&& out.1 <= i@.len()
            },
            Err(_) => spec_info_response(i@) is None,
        },
{
    let lit: [u8; 13] = [
        105u8,
        110u8,
        102u8,
        111u8,
        82u8,
        101u8,
        115u8,
        112u8,
        111u8,
        110u8,
        115u8,
        101u8,
        10u8,
    ];
    proof {
        assert(lit@ =~= info_response_lit());
    }
    if !check_oob(i, 0) || !check_lit(i, 4, &lit) {
        return Err(ParseResponseError::InvalidResponse);
    }
    match key_value_map(i, 17) {
        Some((pairs, end)) => Ok((pairs, end)),
        None => Err(ParseResponseError::InvalidResponse),
    }
}

/// One player line of a status response: frags, ping, raw display name
/// (protocol colour markers are kept, stripping is a display concern),
/// and team.
#[derive(Debug, Clone)]
pub struct PlayerInfo {
    pub frags: i32,
    pub ping: i32,
    pub name: Vec<u8>,
    pub team: i32,
}

impl View for PlayerInfo {
    type V = PlayerRec;

    open spec fn view(&self) -> PlayerRec {
        PlayerRec {
            frags: self.frags as int,
            ping: self.ping as int,
            name: self.name@,
            team: self.team as int,
        }
    }
}

/// The views of a vector of decoded player lines.
pub open spec fn players_view(ps: Seq<PlayerInfo>) -> Seq<PlayerRec> {
    ps.map_values(|p: PlayerInfo| p@)
}

/// The offset of the first non-digit at or after `from`, or the end of
/// `data`.
fn scan_digits_exec(data: &[u8], from: usize) -> (r: usize)
    requires
        from <= data@.len(),
    ensures
        r as int == scan_digits(data@, from as int),
        from <= r <= data@.len(),
{
    let dlen = data.len();
    let mut p = from;
    while p < dlen && 48 <= data[p] && data[p] <= 57
        invariant
            dlen == data@.len(),
            from <= p <= dlen,
            scan_digits(data@, from as int) == scan_digits(data@, p as int),
        decreases dlen - p,
    {
        p += 1;
    }
    p
}

/// The offset of the first `"` at or after `from`, or the end of `data`.
fn scan_quote_exec(data: &[u8], from: usize) -> (r: usize)
    requires
        from <= data@.len(),
    ensures
        r as int == scan_quote(data@, from as int),
        from <= r <= data@.len(),
{
    let dlen = data.len();
    let mut p = from;
    while p < dlen && data[p] != 34
        invariant
            dlen == data@.len(),
            from <= p <= dlen,
            scan_quote(data@, from as int) == scan_quote(data@, p as int),
        decreases dlen - p,
    {
        p += 1;
    }
    p
}

/// Decodes the signed decimal integer token at offset `pos`, failing also
/// when its value does not fit 32 signed bits.
fn int_token(i: &[u8], pos: usize) -> (r: Option<(i32, usize)>)
    requires
        pos <= i@.len(),
    ensures
        match r {
            Some(out) => {
                &&& spec_int_at(i@, pos as int) is Some
                &&& i32_fits(spec_int_at(i@, pos as int)->Some_0.0)
                &&& out.0 as int == spec_int_at(i@, pos as int)->Some_0.0
                &&& out.1 as int == spec_int_at(i@, pos as int)->Some_0.1
                &&& pos < out.1 <= i@.len()
            },
            None => spec_int_at(i@, pos as int) is None || !i32_fits(
                spec_int_at(i@, pos as int)->Some_0.0,
            ),
        },
{
    let ilen = i.len();
    let neg = pos < ilen && i[pos] == 45;
    let dstart = if neg {
        pos + 1
    } else {
        pos
    };
    let dend = scan_digits_exec(i, dstart);
    if dend == dstart {
        return None;
    }
    proof {
        lemma_scan_digits_bounds(i@, dstart as int);
    }
    let mut acc: u64 = 0;
    let mut p = dstart;
    while p < dend
        invariant
            dstart <= p <= dend <= ilen,
            ilen == i@.len(),
            neg ==> pos < ilen && i@[pos as int] == 45 && dstart == pos + 1,
            !neg ==> dstart == pos,
            dstart < dend,
            dend as int == scan_digits(i@, dstart as int),
            forall|k: int| dstart <= k < dend ==> 48 <= #[trigger] i@[k] <= 57,
            acc as int == digits_value(i@, dstart as int, p as int),
            acc <= 2147483648,
        decreases dend - p,
    {
        let d = i[p];
        acc = acc * 10 + ((d - 48) as u64);
        p += 1;
        if acc > 2147483648 {
            proof {
                assert(digits_value(i@, dstart as int, p as int) == digits_value(
                    i@,
                    dstart as int,
                    p as int - 1,
                ) * 10 + (i@[p as int - 1] - 48));
                lemma_digits_value_mono(i@, dstart as int, p as int, dend as int);
            }
            return None;
        }
    }
    if neg {
        let v: i32 = if acc == 2147483648 {
            -2147483647 - 1
        } else {
            -(acc as i32)
        };
        Some((v, dend))
    } else {
        if acc > 2147483647 {
            return None;
        }
        Some((acc as i32, dend))
    }
}

/// Decodes the double-quoted byte string at offset `pos`: the bytes up to
/// the next literal `"`, with no escape handling.
fn dquoted_string(i: &[u8], pos: usize) -> (r: Option<(Vec<u8>, usize)>)
    requires
        pos <= i@.len(),
    ensures
        match r {
            Some(out) => {
                &&& spec_quoted_at(i@, pos as int) is Some
                &&& out.0@ == spec_quoted_at(i@, pos as int)->Some_0.0
                &&& out.1 as int == spec_quoted_at(i@, pos as int)->Some_0.1
                &&& pos < out.1 <= i@.len()
            },
            None => spec_quoted_at(i@, pos as int) is None,
        },
{
    let ilen = i.len();
    if pos >= ilen || i[pos] != 34 {
        return None;
    }
    let q = scan_quote_exec(i, pos + 1);
    if q >= ilen {
        return None;
    }
    let text = vstd::slice::slice_to_vec(vstd::slice::slice_subrange(i, pos + 1, q));
    Some((text, q + 1))
}

/// Decodes the player line at offset `pos`.
fn player(i: &[u8], pos: usize) -> (r: Option<(PlayerInfo, usize)>)
    requires
        pos <= i@.len(),
    ensures
        match r {
            Some(out) => {
                &&& spec_player_at(i@, pos as int) is Some
                &&& out.0@ == spec_player_at(i@, pos as int)->Some_0.0
                &&& out.1 as int == spec_player_at(i@, pos as int)->Some_0.1
                &&& pos < out.1 <= i@.len()
            },
            None => spec_player_at(i@, pos as int) is None,
        },
{
    let ilen = i.len();
    let (frags, a) = match int_token(i, pos) {
        Some(out) => out,
        None => {
            return None;
        },
    };
    if a >= ilen || i[a] != 32 {
        return None;
    }
    let (ping, b) = match int_token(i, a + 1) {
        Some(out) => out,
        None => {
            return None;
        },
    };
    if b >= ilen || i[b] != 32 {
        return None;
    }
    let (name, c) = match dquoted_string(i, b + 1) {
        Some(out) => out,
        None => {
            return None;
        },
    };
    if c >= ilen || i[c] != 32 {
        return None;
    }
    let (team, d) = match int_token(i, c + 1) {
        Some(out) => out,
        None => {
            return None;
        },
    };
    if d >= ilen || i[d] != 10 {
        return None;
    }
    Some((PlayerInfo { frags, ping, name, team }, d + 1))
}

/// Decodes a greedy run of player lines at offset `pos`; the run may be
/// empty.
fn player_infos(i: &[u8], pos: usize) -> (r: (Vec<PlayerInfo>, usize))
    requires
        pos <= i@.len(),
    ensures
        players_view(r.0@) == spec_player_list(i@, pos as int).players,
        r.1 as int == spec_player_list(i@, pos as int).end,
        r.1 <= i@.len(),
{
    let ilen = i.len();
    let ghost whole = spec_player_list(i@, pos as int);
    let mut players: Vec<PlayerInfo> = Vec::new();
    let mut p: usize = pos;
    loop
        invariant_except_break
            ilen == i@.len(),
            pos <= p <= ilen,
            whole == spec_player_list(i@, pos as int),
            whole.players == players_view(players@) + spec_player_list(i@, p as int).players,
            whole.end == spec_player_list(i@, p as int).end,
        ensures
            players_view(players@) == whole.players,
            p as int == whole.end,
            p <= ilen,
        decreases ilen - p,
    {
        match player(i, p) {
            Some((pl, next)) => {
                proof {
                    assert(spec_player_list(i@, p as int).players == seq![
                        spec_player_at(i@, p as int)->Some_0.0,
                    ] + spec_player_list(i@, next as int).players);
                }
                players.push(pl);
                proof {
                    assert(players_view(players@) =~= players_view(players@.drop_last()).push(
                        spec_player_at(i@, p as int)->Some_0.0,
                    ));
                    assert(whole.players =~= players_view(players@) + spec_player_list(
                        i@,
                        next as int,
                    ).players);
                }
                p = next;
            },
            None => {
                proof {
                    assert(whole.players =~= players_view(players@));
                }
                break;
            },
        }
    }
    (players, p)
}

/// Decodes a whole `statusResponse` datagram: marker, message literal, a
/// key-value run of at least one entry, then either no player section or a
/// line feed followed by one or more player lines. Returns the pairs, the
/// players, and the offset of the first leftover byte.
pub fn statusResponse(i: &[u8]) -> (r: Result<
    (Vec<(Vec<u8>, Vec<u8>)>, Vec<PlayerInfo>, usize),
    ParseResponseError,
>)
    ensures
        match r {
            Ok(out) => {
                &&& spec_status_response(i@) is Some
                &&& pairs_view(out.0@) == spec_status_response(i@)->Some_0.pairs
                &&& players_view(out.1@) == spec_status_response(i@)->Some_0.players
                &&& out.2 as int == spec_status_response(i@)->Some_0.end
                &&& out.2 <= i@.len()
            },
            Err(_) => spec_status_response(i@) is None,
        },
{
    let lit: [u8; 15] = [
        115u8,
        116u8,
        97u8,
        116u8,
        117u8,
        115u8,
        82u8,
        101u8,
        115u8,
        112u8,
        111u8,
        110u8,
        115u8,
        101u8,
        10u8,
    ];
    proof {
        assert(lit@ =~= status_response_lit());
    }
    if !check_oob(i, 0) || !check_lit(i, 4, &lit) {
        return Err(ParseResponseError::InvalidResponse);
    }
    let (pairs, kend) = match key_value_map(i, 19) {
        Some(out) => out,
        None => {
            return Err(ParseResponseError::InvalidResponse);
        },
    };
    if kend < i.len() && i[kend] == 10 {
        let (players, plend) = player_infos(i, kend + 1);
        if players.len() == 0 {
            proof {
                assert(spec_player_list(i@, kend as int + 1).players =~= players_view(players@));
            }
            return Err(ParseResponseError::InvalidResponse);
        }
        Ok((pairs, players, plend))
    } else {
        Ok((pairs, Vec::new(), kend))
    }
}

/// Law: every decoder rejects a byte sequence that lacks the out-of-band
/// marker at offset 0.
pub proof fn lemma_decoders_reject_missing_marker(s: Seq<u8>)
    requires
        !oob_at(s, 0),
    ensures
        spec_getservers_response(s) is None,
        spec_getservers_ext_response(s) is None,
        spec_info_response(s) is None,
        spec_status_response(s) is None,
{
}

} // verus!
