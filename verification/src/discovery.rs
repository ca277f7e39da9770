//! The receive side of one discovery query, as pure decisions.
//!
//! A discovery reply may span several datagrams; the accumulator merges
//! them: each datagram is decoded independently, a decode failure is
//! swallowed and the datagram dropped, decoded addresses are appended, and
//! the end-of-transmission sentinel ends the query. A datagram may also
//! hold several concatenated responses; the accumulator consumes them in
//! order through the decoders' leftover offsets.

use vstd::prelude::*;

use crate::addr::SocketAddr;
use crate::addr::SocketAddrV4;
use crate::messages::GetServersResponse;
use crate::messages::GetServersExtResponse;
use crate::parse::eot_at;
use crate::parse::oob_at;
use crate::parse::spec_addr_list;
use crate::parse::spec_getservers_ext_response;
use crate::parse::spec_getservers_response;
use crate::parse::spec_v4_list;
use crate::parse::v4_tagged_at;
use crate::parse::v6_tagged_at;

verus! {

pub proof fn lemma_v4_list_end_bounds(s: Seq<u8>, i: int)
    requires
        0 <= i <= s.len(),
    ensures
        i <= spec_v4_list(s, i).end <= s.len(),
    decreases s.len() - i,
{
    if eot_at(s, i) {
    } else if v4_tagged_at(s, i) {
        lemma_v4_list_end_bounds(s, i + 7);
    }
}

pub proof fn lemma_addr_list_end_bounds(s: Seq<u8>, i: int)
    requires
        0 <= i <= s.len(),
    ensures
        i <= spec_addr_list(s, i).end <= s.len(),
    decreases s.len() - i,
{
    if eot_at(s, i) {
    } else if v4_tagged_at(s, i) {
        lemma_addr_list_end_bounds(s, i + 7);
    } else if v6_tagged_at(s, i) {
        lemma_addr_list_end_bounds(s, i + 19);
    }
}

/// What feeding one buffer to the IPv4 accumulator leaves in it: decode a
/// response, append its addresses, and go on with the leftover, until the
/// sentinel was seen, a decode fails, or the buffer is spent.
pub open spec fn spec_accumulate(s: Seq<u8>, addrs: Seq<SocketAddrV4>, eot: bool) -> (
    Seq<SocketAddrV4>,
    bool,
)
    decreases s.len(),
        via spec_accumulate_decreases
{
    if eot {
        (addrs, true)
    } else {
        match spec_getservers_response(s) {
            Some(out) => spec_accumulate(s.skip(out.end), addrs + out.addrs, out.eot),
            None => (addrs, eot),
        }
    }
}

#[via_fn]
proof fn spec_accumulate_decreases(s: Seq<u8>, addrs: Seq<SocketAddrV4>, eot: bool) {
    if !eot && spec_getservers_response(s) is Some {
        lemma_v4_list_end_bounds(s, 22);
    }
}

/// What feeding one buffer to the mixed-kind accumulator leaves in it.
pub open spec fn spec_accumulate_ext(s: Seq<u8>, addrs: Seq<SocketAddr>, eot: bool) -> (
    Seq<SocketAddr>,
    bool,
)
    decreases s.len(),
        via spec_accumulate_ext_decreases
{
    if eot {
        (addrs, true)
    } else {
        match spec_getservers_ext_response(s) {
            Some(out) => spec_accumulate_ext(s.skip(out.end), addrs + out.addrs, out.eot),
            None => (addrs, eot),
        }
    }
}

#[via_fn]
proof fn spec_accumulate_ext_decreases(s: Seq<u8>, addrs: Seq<SocketAddr>, eot: bool) {
    if !eot && spec_getservers_ext_response(s) is Some {
        lemma_addr_list_end_bounds(s, 25);
    }
}

/// The state of one IPv4 discovery query: the addresses decoded so far and
/// whether the end-of-transmission sentinel was seen. A timeout before the
/// sentinel is a partial success: whatever was accumulated is the result.
#[derive(Debug)]
pub struct DiscoveryAccumulator {
    pub addresses: Vec<SocketAddrV4>,
    pub eot: bool,
}

impl DiscoveryAccumulator {
    /// An accumulator with nothing received yet.
    pub fn new() -> (r: DiscoveryAccumulator)
        ensures
            r.addresses@ == Seq::<SocketAddrV4>::empty(),
            !r.eot,
    {
        DiscoveryAccumulator { addresses: Vec::new(), eot: false }
    }

    /// Feeds one inbound datagram to the query: decodes the responses it
    /// holds in order, appends their addresses, and notes the sentinel. A
    /// buffer that decodes to nothing changes nothing — malformed traffic
    /// is dropped, never fatal.
    pub fn feed(&mut self, datagram: &[u8])
        ensures
            final(self).addresses@ == spec_accumulate(
                datagram@,
                old(self).addresses@,
                old(self).eot,
            ).0,
            final(self).eot == spec_accumulate(datagram@, old(self).addresses@, old(self).eot).1,
    {
        let dlen = datagram.len();
        let ghost init_addrs = self.addresses@;
        let ghost init_eot = self.eot;
        let mut pos: usize = 0;
        proof {
            assert(datagram@.skip(0) =~= datagram@);
        }
        loop
            invariant_except_break
                dlen == datagram@.len(),
                0 <= pos <= dlen,
                spec_accumulate(datagram@, init_addrs, init_eot) == spec_accumulate(
                    datagram@.skip(pos as int),
                    self.addresses@,
                    self.eot,
                ),
            ensures
                spec_accumulate(datagram@, init_addrs, init_eot) == (
                    self.addresses@,
                    self.eot,
                ),
            decreases dlen - pos,
        {
            if self.eot {
                break;
            }
            let rest = vstd::slice::slice_subrange(datagram, pos, dlen);
            match GetServersResponse::parse(rest) {
                Ok((resp, consumed)) => {
                    proof {
                        lemma_v4_list_end_bounds(rest@, 22);
                        assert(rest@.skip(consumed as int) =~= datagram@.skip(
                            pos as int + consumed as int,
                        ));
                    }
                    let mut fresh = resp.addresses;
                    self.addresses.append(&mut fresh);
                    self.eot = resp.eot;
                    pos = pos + consumed;
                },
                Err(_) => {
                    break;
                },
            }
        }
    }

    /// The query is complete: the sentinel arrived.
    pub fn is_done(&self) -> (r: bool)
        ensures
            r == self.eot,
    {
        self.eot
    }
}

/// The state of one mixed-kind discovery query, fed by
/// `getserversExtResponse` datagrams.
#[derive(Debug)]
pub struct DiscoveryExtAccumulator {
    pub addresses: Vec<SocketAddr>,
    pub eot: bool,
}

impl DiscoveryExtAccumulator {
    /// An accumulator with nothing received yet.
    pub fn new() -> (r: DiscoveryExtAccumulator)
        ensures
            r.addresses@ == Seq::<SocketAddr>::empty(),
            !r.eot,
    {
        DiscoveryExtAccumulator { addresses: Vec::new(), eot: false }
    }

    /// Feeds one inbound datagram to the query, as
    /// `DiscoveryAccumulator::feed` does.
    pub fn feed(&mut self, datagram: &[u8])
        ensures
            final(self).addresses@ == spec_accumulate_ext(
                datagram@,
                old(self).addresses@,
                old(self).eot,
            ).0,
            final(self).eot == spec_accumulate_ext(
                datagram@,
                old(self).addresses@,
                old(self).eot,
            ).1,
    {
        let dlen = datagram.len();
        let ghost init_addrs = self.addresses@;
        let ghost init_eot = self.eot;
        let mut pos: usize = 0;
        proof {
            assert(datagram@.skip(0) =~= datagram@);
        }
        loop
            invariant_except_break
                dlen == datagram@.len(),
                0 <= pos <= dlen,
                spec_accumulate_ext(datagram@, init_addrs, init_eot) == spec_accumulate_ext(
                    datagram@.skip(pos as int),
                    self.addresses@,
                    self.eot,
                ),
            ensures
                spec_accumulate_ext(datagram@, init_addrs, init_eot) == (
                    self.addresses@,
                    self.eot,
                ),
            decreases dlen - pos,
        {
            if self.eot {
                break;
            }
            let rest = vstd::slice::slice_subrange(datagram, pos, dlen);
            match GetServersExtResponse::parse(rest) {
                Ok((resp, consumed)) => {
                    proof {
                        lemma_addr_list_end_bounds(rest@, 25);
                        assert(rest@.skip(consumed as int) =~= datagram@.skip(
                            pos as int + consumed as int,
                        ));
                    }
                    let mut fresh = resp.addresses;
                    self.addresses.append(&mut fresh);
                    self.eot = match resp.datagram_info {
                        crate::messages::DatagramInfo::Eot => true,
                        _ => false,
                    };
                    pos = pos + consumed;
                },
                Err(_) => {
                    break;
                },
            }
        }
    }

    /// The query is complete: the sentinel arrived.
    pub fn is_done(&self) -> (r: bool)
        ensures
            r == self.eot,
    {
        self.eot
    }
}

/// The length of the out-of-band marker.
pub open spec fn oob_lit_len() -> int {
    crate::parse::oob_lit().len() as int
}

/// A buffer that holds exactly one well-formed `getserversResponse`
/// datagram, consumed to its last byte.
pub open spec fn complete_response(d: Seq<u8>) -> bool {
    &&& spec_getservers_response(d) is Some
    &&& spec_getservers_response(d)->Some_0.end == d.len()
}

proof fn lemma_v4_list_append(s: Seq<u8>, i: int, t: Seq<u8>)
    requires
        0 <= i <= s.len(),
        spec_v4_list(s, i).end == s.len(),
        !spec_v4_list(s, i).eot,
        t.len() == 0 || t[0] != 92u8,
    ensures
        spec_v4_list(s + t, i).addrs == spec_v4_list(s, i).addrs,
        !spec_v4_list(s + t, i).eot,
        spec_v4_list(s + t, i).end == s.len(),
    decreases s.len() - i,
{
    let st = s + t;
    if eot_at(s, i) {
        assert(false);
    } else if v4_tagged_at(s, i) {
        assert(v4_tagged_at(st, i));
        if eot_at(st, i) {
            assert forall|k: int| 0 <= k < crate::parse::eot_lit().len() implies s[i + k]
                == crate::parse::eot_lit()[k] by {
                assert(st[i + k] == crate::parse::eot_lit()[k]);
            }
            assert(eot_at(s, i));
            assert(false);
        }
        lemma_v4_list_append(s, i + 7, t);
        assert(crate::parse::v4_value_at(st, i) == crate::parse::v4_value_at(s, i));
        assert(spec_v4_list(st, i).addrs =~= spec_v4_list(s, i).addrs);
    } else {
        assert(spec_v4_list(s, i).end == i);
        assert(i == s.len());
        if t.len() == 0 {
            assert(st =~= s);
        } else {
            assert(st[i] == t[0]);
            assert(!eot_at(st, i));
            assert(!v4_tagged_at(st, i));
        }
    }
}

proof fn lemma_getservers_response_append(s: Seq<u8>, t: Seq<u8>)
    requires
        complete_response(s),
        !spec_getservers_response(s)->Some_0.eot,
        t.len() == 0 || t[0] != 92u8,
    ensures
        spec_getservers_response(s + t) is Some,
        spec_getservers_response(s + t)->Some_0.addrs == spec_getservers_response(
            s,
        )->Some_0.addrs,
        !spec_getservers_response(s + t)->Some_0.eot,
        spec_getservers_response(s + t)->Some_0.end == s.len(),
{
    let st = s + t;
    let lit = crate::parse::getservers_response_lit();
    assert forall|k: int| 0 <= k < oob_lit_len() implies st[0 + k] == crate::parse::oob_lit()[k] by {
        assert(st[0 + k] == s[0 + k]);
    }
    assert(oob_at(st, 0));
    assert forall|k: int| 0 <= k < lit.len() implies st[4 + k] == lit[k] by {
        assert(st[4 + k] == s[4 + k]);
    }
    assert(crate::parse::lit_at(st, 4, lit));
    lemma_v4_list_append(s, 22, t);
}

/// One step of merging: feeding a complete response followed by more bytes
/// equals feeding the response, then the rest. The suffix must not begin
/// with the entry tag `\`; a datagram that begins with the out-of-band
/// marker never does.
proof fn lemma_accumulate_step(d: Seq<u8>, t: Seq<u8>, addrs: Seq<SocketAddrV4>)
    requires
        complete_response(d),
        !spec_getservers_response(d)->Some_0.eot,
        t.len() == 0 || t[0] != 92u8,
    ensures
        spec_accumulate(d + t, addrs, false) == spec_accumulate(
            t,
            addrs + spec_getservers_response(d)->Some_0.addrs,
            false,
        ),
{
    lemma_getservers_response_append(d, t);
    assert((d + t).skip(d.len() as int) =~= t);
}

/// The bytes of a whole transmission: the datagrams joined in order.
pub open spec fn concat_datagrams(ds: Seq<Seq<u8>>) -> Seq<u8>
    decreases ds.len(),
{
    if ds.len() == 0 {
        Seq::empty()
    } else {
        ds.first() + concat_datagrams(ds.drop_first())
    }
}

/// What feeding the datagrams to the accumulator one by one leaves in it.
pub open spec fn accumulate_datagrams(
    ds: Seq<Seq<u8>>,
    addrs: Seq<SocketAddrV4>,
    eot: bool,
) -> (Seq<SocketAddrV4>, bool)
    decreases ds.len(),
{
    if ds.len() == 0 {
        (addrs, eot)
    } else {
        let r = spec_accumulate(ds.first(), addrs, eot);
        accumulate_datagrams(ds.drop_first(), r.0, r.1)
    }
}

/// Law: a discovery reply split across datagrams accumulates to the same
/// addresses and the same completion flag as the one concatenated buffer,
/// when every datagram is a complete well-formed response and only the
/// last may carry the end-of-transmission sentinel. This is what lets the
/// receive loop feed datagrams as they arrive.
pub proof fn lemma_split_transmission(ds: Seq<Seq<u8>>, addrs: Seq<SocketAddrV4>)
    requires
        forall|k: int| 0 <= k < ds.len() ==> complete_response(#[trigger] ds[k]),
        forall|k: int|
            0 <= k < ds.len() - 1 ==> !spec_getservers_response(#[trigger] ds[k])->Some_0.eot,
    ensures
        accumulate_datagrams(ds, addrs, false) == spec_accumulate(
            concat_datagrams(ds),
            addrs,
            false,
        ),
    decreases ds.len(),
{
    if ds.len() == 0 {
        assert(spec_getservers_response(Seq::empty()) is None);
    } else if ds.len() == 1 {
        let d = ds.first();
        assert(concat_datagrams(ds.drop_first()).len() == 0);
        assert(concat_datagrams(ds) =~= d);
        assert(accumulate_datagrams(ds.drop_first(), spec_accumulate(d, addrs, false).0,
            spec_accumulate(d, addrs, false).1) == spec_accumulate(d, addrs, false));
    } else {
        let d = ds.first();
        let rest = ds.drop_first();
        assert(complete_response(d));
        assert(!spec_getservers_response(d)->Some_0.eot);
        let a = spec_getservers_response(d)->Some_0.addrs;
        let t = concat_datagrams(rest);
        assert(complete_response(rest.first())) by {
            assert(rest.first() == ds[1]);
        }
        assert(oob_at(rest.first(), 0));
        assert(rest.first().len() >= 4);
        assert(t[0] == rest.first()[0]);
        assert(rest.first()[0int + 0int] == crate::parse::oob_lit()[0int]);
        assert(t[0] != 92u8);
        lemma_accumulate_step(d, t, addrs);
        // feeding d alone from (addrs, false) leaves (addrs + a, false)
        let e = d.skip(d.len() as int);
        assert(e =~= Seq::<u8>::empty());
        assert(spec_getservers_response(e) is None);
        assert(spec_accumulate(e, addrs + a, false) == (addrs + a, false));
        assert(spec_accumulate(d, addrs, false) == (addrs + a, false));
        assert forall|k: int| 0 <= k < rest.len() implies complete_response(
            #[trigger] rest[k],
        ) by {
            assert(rest[k] == ds[k + 1]);
        }
        assert forall|k: int| 0 <= k < rest.len() - 1 implies !spec_getservers_response(
            #[trigger] rest[k],
        )->Some_0.eot by {
            assert(rest[k] == ds[k + 1]);
        }
        lemma_split_transmission(rest, addrs + a);
        assert(concat_datagrams(ds) == d + t);
    }
}

/// A buffer that holds exactly one well-formed `getserversExtResponse`
/// datagram, consumed to its last byte.
pub open spec fn complete_ext_response(d: Seq<u8>) -> bool {
    &&& spec_getservers_ext_response(d) is Some
    &&& spec_getservers_ext_response(d)->Some_0.end == d.len()
}

proof fn lemma_addr_list_append(s: Seq<u8>, i: int, t: Seq<u8>)
    requires
        0 <= i <= s.len(),
        spec_addr_list(s, i).end == s.len(),
        !spec_addr_list(s, i).eot,
        t.len() == 0 || (t[0] != 92u8 && t[0] != 47u8),
    ensures
        spec_addr_list(s + t, i).addrs == spec_addr_list(s, i).addrs,
        !spec_addr_list(s + t, i).eot,
        spec_addr_list(s + t, i).end == s.len(),
    decreases s.len() - i,
{
    let st = s + t;
    if eot_at(s, i) {
        assert(false);
    } else if v4_tagged_at(s, i) {
        assert(v4_tagged_at(st, i));
        if eot_at(st, i) {
            assert forall|k: int| 0 <= k < crate::parse::eot_lit().len() implies s[i + k]
                == crate::parse::eot_lit()[k] by {
                assert(st[i + k] == crate::parse::eot_lit()[k]);
            }
            assert(eot_at(s, i));
            assert(false);
        }
        lemma_addr_list_append(s, i + 7, t);
        assert(crate::parse::v4_value_at(st, i) == crate::parse::v4_value_at(s, i));
        assert(spec_addr_list(st, i).addrs =~= spec_addr_list(s, i).addrs);
    } else if v6_tagged_at(s, i) {
        assert(v6_tagged_at(st, i));
        assert(st[i] == 47u8);
        assert(!eot_at(st, i));
        assert(!v4_tagged_at(st, i));
        lemma_addr_list_append(s, i + 19, t);
        assert(crate::parse::v6_value_at(st, i).port == crate::parse::v6_value_at(s, i).port);
        assert(crate::parse::v6_value_at(st, i).ip == crate::parse::v6_value_at(s, i).ip);
        assert(spec_addr_list(st, i).addrs =~= spec_addr_list(s, i).addrs);
    } else {
        assert(spec_addr_list(s, i).end == i);
        assert(i == s.len());
        if t.len() == 0 {
            assert(st =~= s);
        } else {
            assert(st[i] == t[0]);
            assert(!eot_at(st, i));
            assert(!v4_tagged_at(st, i));
            assert(!v6_tagged_at(st, i));
        }
    }
}

proof fn lemma_getservers_ext_response_append(s: Seq<u8>, t: Seq<u8>)
    requires
        complete_ext_response(s),
        !spec_getservers_ext_response(s)->Some_0.eot,
        t.len() == 0 || (t[0] != 92u8 && t[0] != 47u8),
    ensures
        spec_getservers_ext_response(s + t) is Some,
        spec_getservers_ext_response(s + t)->Some_0.addrs == spec_getservers_ext_response(
            s,
        )->Some_0.addrs,
        !spec_getservers_ext_response(s + t)->Some_0.eot,
        spec_getservers_ext_response(s + t)->Some_0.end == s.len(),
{
    let st = s + t;
    let lit = crate::parse::getservers_ext_response_lit();
    assert forall|k: int| 0 <= k < oob_lit_len() implies st[0 + k] == crate::parse::oob_lit()[k] by {
        assert(st[0 + k] == s[0 + k]);
    }
    assert(oob_at(st, 0));
    assert forall|k: int| 0 <= k < lit.len() implies st[4 + k] == lit[k] by {
        assert(st[4 + k] == s[4 + k]);
    }
    assert(crate::parse::lit_at(st, 4, lit));
    lemma_addr_list_append(s, 25, t);
}

proof fn lemma_accumulate_ext_step(d: Seq<u8>, t: Seq<u8>, addrs: Seq<SocketAddr>)
    requires
        complete_ext_response(d),
        !spec_getservers_ext_response(d)->Some_0.eot,
        t.len() == 0 || (t[0] != 92u8 && t[0] != 47u8),
    ensures
        spec_accumulate_ext(d + t, addrs, false) == spec_accumulate_ext(
            t,
            addrs + spec_getservers_ext_response(d)->Some_0.addrs,
            false,
        ),
{
    lemma_getservers_ext_response_append(d, t);
    assert((d + t).skip(d.len() as int) =~= t);
}

/// What feeding the datagrams to the mixed-kind accumulator one by one
/// leaves in it.
pub open spec fn accumulate_datagrams_ext(
    ds: Seq<Seq<u8>>,
    addrs: Seq<SocketAddr>,
    eot: bool,
) -> (Seq<SocketAddr>, bool)
    decreases ds.len(),
{
    if ds.len() == 0 {
        (addrs, eot)
    } else {
        let r = spec_accumulate_ext(ds.first(), addrs, eot);
        accumulate_datagrams_ext(ds.drop_first(), r.0, r.1)
    }
}

/// Law: as `lemma_split_transmission`, for the mixed-kind discovery reply.
pub proof fn lemma_split_transmission_ext(ds: Seq<Seq<u8>>, addrs: Seq<SocketAddr>)
    requires
        forall|k: int| 0 <= k < ds.len() ==> complete_ext_response(#[trigger] ds[k]),
        forall|k: int|
            0 <= k < ds.len() - 1 ==> !spec_getservers_ext_response(#[trigger] ds[k])->Some_0.eot,
    ensures
        accumulate_datagrams_ext(ds, addrs, false) == spec_accumulate_ext(
            concat_datagrams(ds),
            addrs,
            false,
        ),
    decreases ds.len(),
{
    if ds.len() == 0 {
        assert(spec_getservers_ext_response(Seq::empty()) is None);
    } else if ds.len() == 1 {
        let d = ds.first();
        assert(concat_datagrams(ds.drop_first()).len() == 0);
        assert(concat_datagrams(ds) =~= d);
        assert(accumulate_datagrams_ext(ds.drop_first(), spec_accumulate_ext(d, addrs, false).0,
            spec_accumulate_ext(d, addrs, false).1) == spec_accumulate_ext(d, addrs, false));
    } else {
        let d = ds.first();
        let rest = ds.drop_first();
        assert(complete_ext_response(d));
        assert(!spec_getservers_ext_response(d)->Some_0.eot);
        let a = spec_getservers_ext_response(d)->Some_0.addrs;
        let t = concat_datagrams(rest);
        assert(complete_ext_response(rest.first())) by {
            assert(rest.first() == ds[1]);
        }
        assert(oob_at(rest.first(), 0));
        assert(rest.first().len() >= 4);
        assert(t[0] == rest.first()[0]);
        assert(rest.first()[0int + 0int] == crate::parse::oob_lit()[0int]);
        assert(t[0] != 92u8 && t[0] != 47u8);
        lemma_accumulate_ext_step(d, t, addrs);
        let e = d.skip(d.len() as int);
        assert(e =~= Seq::<u8>::empty());
        assert(spec_getservers_ext_response(e) is None);
        assert(spec_accumulate_ext(e, addrs + a, false) == (addrs + a, false));
        assert(spec_accumulate_ext(d, addrs, false) == (addrs + a, false));
        assert forall|k: int| 0 <= k < rest.len() implies complete_ext_response(
            #[trigger] rest[k],
        ) by {
            assert(rest[k] == ds[k + 1]);
        }
        assert forall|k: int| 0 <= k < rest.len() - 1 implies !spec_getservers_ext_response(
            #[trigger] rest[k],
        )->Some_0.eot by {
            assert(rest[k] == ds[k + 1]);
        }
        lemma_split_transmission_ext(rest, addrs + a);
        assert(concat_datagrams(ds) == d + t);
    }
}

} // verus!
