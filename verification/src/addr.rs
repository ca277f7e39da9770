//! Socket addresses of discovered game servers, and their wire form.
//!
//! The wire form is a one-byte tag (`\` for IPv4, `/` for IPv6), the address
//! bytes in big-endian order, then two big-endian port bytes. Flow and scope
//! fields are not part of the wire format.

use vstd::prelude::*;

verus! {

/// An IPv4 socket address: 4 address bytes packed big-endian, and a port.
#[derive(Debug, Clone, Copy, PartialEq, Eq, Hash, Structural)]
pub struct SocketAddrV4 {
    pub ip: u32,
    pub port: u16,
}

/// An IPv6 socket address: 16 address bytes packed big-endian, and a port.
#[derive(Debug, Clone, Copy, PartialEq, Eq, Hash, Structural)]
pub struct SocketAddrV6 {
    pub ip: u128,
    pub port: u16,
}

/// Either kind of socket address; the wire tag byte picks the variant.
#[derive(Debug, Clone, Copy, PartialEq, Eq, Hash, Structural)]
pub enum SocketAddr {
    V4(SocketAddrV4),
    V6(SocketAddrV6),
}

/// A port from its two big-endian wire bytes.
pub open spec fn spec_port(b0: u8, b1: u8) -> u16 {
    (b0 as u16) << 8 | (b1 as u16)
}

/// An IPv4 address from its four big-endian wire bytes.
pub open spec fn spec_ip_v4(b0: u8, b1: u8, b2: u8, b3: u8) -> u32 {
    (b0 as u32) << 24 | (b1 as u32) << 16 | (b2 as u32) << 8 | (b3 as u32)
}

/// An IPv6 address from its sixteen big-endian wire bytes, taken from
/// `s` starting at `i`.
pub open spec fn spec_ip_v6(s: Seq<u8>, i: int) -> u128 {
    (s[i] as u128) << 120 | (s[i + 1] as u128) << 112 | (s[i + 2] as u128) << 104 | (s[i + 3]
        as u128) << 96 | (s[i + 4] as u128) << 88 | (s[i + 5] as u128) << 80 | (s[i + 6]
        as u128) << 72 | (s[i + 7] as u128) << 64 | (s[i + 8] as u128) << 56 | (s[i + 9]
        as u128) << 48 | (s[i + 10] as u128) << 40 | (s[i + 11] as u128) << 32 | (s[i + 12]
        as u128) << 24 | (s[i + 13] as u128) << 16 | (s[i + 14] as u128) << 8 | (s[i + 15]
        as u128)
}

/// The 7-byte wire form of an IPv4 socket address: tag `\`, 4 address
/// bytes, 2 port bytes, big-endian.
pub open spec fn spec_encode_v4(a: SocketAddrV4) -> Seq<u8> {
    seq![
        92u8,
        ((a.ip >> 24) & 0xFF) as u8,
        ((a.ip >> 16) & 0xFF) as u8,
        ((a.ip >> 8) & 0xFF) as u8,
        (a.ip & 0xFF) as u8,
        ((a.port >> 8) & 0xFF) as u8,
        (a.port & 0xFF) as u8,
    ]
}

/// The 19-byte wire form of an IPv6 socket address: tag `/`, 16 address
/// bytes, 2 port bytes, big-endian.
pub open spec fn spec_encode_v6(a: SocketAddrV6) -> Seq<u8> {
    seq![
        47u8,
        ((a.ip >> 120) & 0xFF) as u8,
        ((a.ip >> 112) & 0xFF) as u8,
        ((a.ip >> 104) & 0xFF) as u8,
        ((a.ip >> 96) & 0xFF) as u8,
        ((a.ip >> 88) & 0xFF) as u8,
        ((a.ip >> 80) & 0xFF) as u8,
        ((a.ip >> 72) & 0xFF) as u8,
        ((a.ip >> 64) & 0xFF) as u8,
        ((a.ip >> 56) & 0xFF) as u8,
        ((a.ip >> 48) & 0xFF) as u8,
        ((a.ip >> 40) & 0xFF) as u8,
        ((a.ip >> 32) & 0xFF) as u8,
        ((a.ip >> 24) & 0xFF) as u8,
        ((a.ip >> 16) & 0xFF) as u8,
        ((a.ip >> 8) & 0xFF) as u8,
        (a.ip & 0xFF) as u8,
        ((a.port >> 8) & 0xFF) as u8,
        (a.port & 0xFF) as u8,
    ]
}

/// The wire form of a socket address of either kind.
pub open spec fn spec_encode_addr(a: SocketAddr) -> Seq<u8> {
    match a {
        SocketAddr::V4(v4) => spec_encode_v4(v4),
        SocketAddr::V6(v6) => spec_encode_v6(v6),
    }
}

impl SocketAddrV4 {
    /// Appends the 7-byte wire form to `w`.
    pub fn write_all_to(&self, w: &mut Vec<u8>)
        ensures
            final(w)@ == old(w)@ + spec_encode_v4(*self),
    {
        w.push(92u8);
        w.push(((self.ip >> 24) & 0xFF) as u8);
        w.push(((self.ip >> 16) & 0xFF) as u8);
        w.push(((self.ip >> 8) & 0xFF) as u8);
        w.push((self.ip & 0xFF) as u8);
        w.push(((self.port >> 8) & 0xFF) as u8);
        w.push((self.port & 0xFF) as u8);
        proof {
            assert(w@ =~= old(w)@ + spec_encode_v4(*self));
        }
    }
}

impl SocketAddrV6 {
    /// Appends the 19-byte wire form to `w`.
    pub fn write_all_to(&self, w: &mut Vec<u8>)
        ensures
            final(w)@ == old(w)@ + spec_encode_v6(*self),
    {
        w.push(47u8);
        w.push(((self.ip >> 120) & 0xFF) as u8);
        w.push(((self.ip >> 112) & 0xFF) as u8);
        w.push(((self.ip >> 104) & 0xFF) as u8);
        w.push(((self.ip >> 96) & 0xFF) as u8);
        w.push(((self.ip >> 88) & 0xFF) as u8);
        w.push(((self.ip >> 80) & 0xFF) as u8);
        w.push(((self.ip >> 72) & 0xFF) as u8);
        w.push(((self.ip >> 64) & 0xFF) as u8);
        w.push(((self.ip >> 56) & 0xFF) as u8);
        w.push(((self.ip >> 48) & 0xFF) as u8);
        w.push(((self.ip >> 40) & 0xFF) as u8);
        w.push(((self.ip >> 32) & 0xFF) as u8);
        w.push(((self.ip >> 24) & 0xFF) as u8);
        w.push(((self.ip >> 16) & 0xFF) as u8);
        w.push(((self.ip >> 8) & 0xFF) as u8);
        w.push((self.ip & 0xFF) as u8);
        w.push(((self.port >> 8) & 0xFF) as u8);
        w.push((self.port & 0xFF) as u8);
        proof {
            assert(w@ =~= old(w)@ + spec_encode_v6(*self));
        }
    }
}

impl SocketAddr {
    /// Appends the wire form of either kind to `w`.
    pub fn write_all_to(&self, w: &mut Vec<u8>)
        ensures
            final(w)@ == old(w)@ + spec_encode_addr(*self),
    {
        match self {
            SocketAddr::V4(v4) => v4.write_all_to(w),
            SocketAddr::V6(v6) => v6.write_all_to(w),
        }
    }
}

/// Law: the wire form of an IPv4 socket address decodes to the address it
/// was made from — the address bytes of `spec_encode_v4(a)` pack back to
/// `a.ip` and the port bytes to `a.port`.
pub proof fn lemma_encode_v4_round_trip(a: SocketAddrV4)
    ensures
        spec_encode_v4(a).len() == 7,
        spec_encode_v4(a)[0] == 92u8,
        spec_ip_v4(
            spec_encode_v4(a)[1],
            spec_encode_v4(a)[2],
            spec_encode_v4(a)[3],
            spec_encode_v4(a)[4],
        ) == a.ip,
        spec_port(spec_encode_v4(a)[5], spec_encode_v4(a)[6]) == a.port,
{
    let ip = a.ip;
    let port = a.port;
    assert((((ip >> 24) & 0xFF) as u8 as u32) << 24 | (((ip >> 16) & 0xFF) as u8 as u32) << 16 | ((
    (ip >> 8) & 0xFF) as u8 as u32) << 8 | ((ip & 0xFF) as u8 as u32) == ip) by (bit_vector);
    assert((((port >> 8) & 0xFF) as u8 as u16) << 8 | ((port & 0xFF) as u8 as u16) == port)
        by (bit_vector);
}

/// Law: the wire form of an IPv6 socket address decodes to the address it
/// was made from.
pub proof fn lemma_encode_v6_round_trip(a: SocketAddrV6)
    ensures
        spec_encode_v6(a).len() == 19,
        spec_encode_v6(a)[0] == 47u8,
        spec_ip_v6(spec_encode_v6(a), 1) == a.ip,
        spec_port(spec_encode_v6(a)[17], spec_encode_v6(a)[18]) == a.port,
{
    let ip = a.ip;
    let port = a.port;
    assert((((ip >> 120) & 0xFF) as u8 as u128) << 120 | (((ip >> 112) & 0xFF) as u8 as u128)
        << 112 | (((ip >> 104) & 0xFF) as u8 as u128) << 104 | (((ip >> 96) & 0xFF) as u8 as u128)
        << 96 | (((ip >> 88) & 0xFF) as u8 as u128) << 88 | (((ip >> 80) & 0xFF) as u8 as u128)
        << 80 | (((ip >> 72) & 0xFF) as u8 as u128) << 72 | (((ip >> 64) & 0xFF) as u8 as u128)
        << 64 | (((ip >> 56) & 0xFF) as u8 as u128) << 56 | (((ip >> 48) & 0xFF) as u8 as u128)
        << 48 | (((ip >> 40) & 0xFF) as u8 as u128) << 40 | (((ip >> 32) & 0xFF) as u8 as u128)
        << 32 | (((ip >> 24) & 0xFF) as u8 as u128) << 24 | (((ip >> 16) & 0xFF) as u8 as u128)
        << 16 | (((ip >> 8) & 0xFF) as u8 as u128) << 8 | ((ip & 0xFF) as u8 as u128) == ip)
        by (bit_vector);
    assert((((port >> 8) & 0xFF) as u8 as u16) << 8 | ((port & 0xFF) as u8 as u16) == port)
        by (bit_vector);
}

} // verus!
