//! The protocol messages: outbound requests with verified encoders, and
//! inbound responses with verified decoders.
//!
//! Every outbound message is the out-of-band marker, an ASCII command name,
//! and space-separated fields in a fixed order. Encoders append to a caller
//! buffer; what they append is stated byte for byte by spec functions.

use vstd::prelude::*;

use crate::addr::SocketAddr;
use crate::addr::SocketAddrV4;
use crate::keyvalues::KeyValues;
use crate::parse;
use crate::parse::ContainsEot;
use crate::parse::PlayerInfo;
use crate::parse::oob_lit;
use crate::parse::players_view;
use crate::parse::spec_getservers_ext_response;
use crate::parse::spec_getservers_response;
use crate::parse::spec_info_response;
use crate::parse::spec_status_response;
use crate::tokens::Challenge;
use crate::tokens::GameName;
use crate::tokens::ProtocolString;
use crate::tokens::ProtocolVersion;
use crate::ParseResponseError;

verus! {

/// The command name `getinfo`.
pub open spec fn getinfo_lit() -> Seq<u8> {
    seq![103u8, 101u8, 116u8, 105u8, 110u8, 102u8, 111u8]
}

/// The command name `getstatus`.
pub open spec fn getstatus_lit() -> Seq<u8> {
    seq![103u8, 101u8, 116u8, 115u8, 116u8, 97u8, 116u8, 117u8, 115u8]
}

/// The command name `heartbeat`.
pub open spec fn heartbeat_lit() -> Seq<u8> {
    seq![104u8, 101u8, 97u8, 114u8, 116u8, 98u8, 101u8, 97u8, 116u8]
}

/// The command name `getservers`.
pub open spec fn getservers_lit() -> Seq<u8> {
    seq![103u8, 101u8, 116u8, 115u8, 101u8, 114u8, 118u8, 101u8, 114u8, 115u8]
}

/// The command name `getserversExt`.
pub open spec fn getservers_ext_lit() -> Seq<u8> {
    seq![103u8, 101u8, 116u8, 115u8, 101u8, 114u8, 118u8, 101u8, 114u8, 115u8, 69u8, 120u8, 116u8]
}

/// The filter word ` empty`, space included.
pub open spec fn empty_word() -> Seq<u8> {
    seq![32u8, 101u8, 109u8, 112u8, 116u8, 121u8]
}

/// The filter word ` full`, space included.
pub open spec fn full_word() -> Seq<u8> {
    seq![32u8, 102u8, 117u8, 108u8, 108u8]
}

/// The filter word ` ipv4`, space included.
pub open spec fn ipv4_word() -> Seq<u8> {
    seq![32u8, 105u8, 112u8, 118u8, 52u8]
}

/// The filter word ` ipv6`, space included.
pub open spec fn ipv6_word() -> Seq<u8> {
    seq![32u8, 105u8, 112u8, 118u8, 54u8]
}

/// The view of an optional byte vector.
pub open spec fn opt_bytes_view(o: Option<Vec<u8>>) -> Option<Seq<u8>> {
    match o {
        Some(v) => Some(v@),
        None => None,
    }
}

/// The view of an optional game name.
pub open spec fn opt_name_view(o: Option<GameName>) -> Option<Seq<u8>> {
    match o {
        Some(n) => Some(n@),
        None => None,
    }
}

/// Appends `bytes` to `w`.
pub(crate) fn push_bytes(w: &mut Vec<u8>, bytes: &[u8])
    ensures
        final(w)@ == old(w)@ + bytes@,
{
    let blen = bytes.len();
    let mut k: usize = 0;
    while k < blen
        invariant
            blen == bytes@.len(),
            0 <= k <= blen,
            w@ == old(w)@ + bytes@.take(k as int),
        decreases blen - k,
    {
        w.push(bytes[k]);
        proof {
            assert(old(w)@ + bytes@.take(k as int) + seq![bytes@[k as int]] =~= old(w)@
                + bytes@.take(k as int + 1));
        }
        k += 1;
    }
    proof {
        assert(bytes@.take(blen as int) =~= bytes@);
    }
}

/// Appends the out-of-band marker to `w`.
pub(crate) fn push_oob(w: &mut Vec<u8>)
    ensures
        final(w)@ == old(w)@ + oob_lit(),
{
    let lit: [u8; 4] = [255u8, 255u8, 255u8, 255u8];
    proof {
        assert(lit@ =~= oob_lit());
    }
    push_bytes(w, &lit);
}

/// Appends the command name `getservers` to `w`.
pub(crate) fn push_getservers_lit(w: &mut Vec<u8>)
    ensures
        final(w)@ == old(w)@ + getservers_lit(),
{
    let lit: [u8; 10] = [103u8, 101u8, 116u8, 115u8, 101u8, 114u8, 118u8, 101u8, 114u8, 115u8];
    proof {
        assert(lit@ =~= getservers_lit());
    }
    push_bytes(w, &lit);
}

/// Appends the command name `getserversExt` to `w`.
pub(crate) fn push_getservers_ext_lit(w: &mut Vec<u8>)
    ensures
        final(w)@ == old(w)@ + getservers_ext_lit(),
{
    let lit: [u8; 13] = [
        103u8,
        101u8,
        116u8,
        115u8,
        101u8,
        114u8,
        118u8,
        101u8,
        114u8,
        115u8,
        69u8,
        120u8,
        116u8,
    ];
    proof {
        assert(lit@ =~= getservers_ext_lit());
    }
    push_bytes(w, &lit);
}

/// Appends the filter word ` full` to `w`.
pub(crate) fn push_full_word(w: &mut Vec<u8>)
    ensures
        final(w)@ == old(w)@ + full_word(),
{
    let lit: [u8; 5] = [32u8, 102u8, 117u8, 108u8, 108u8];
    proof {
        assert(lit@ =~= full_word());
    }
    push_bytes(w, &lit);
}

/// Appends the filter word ` empty` to `w`.
pub(crate) fn push_empty_word(w: &mut Vec<u8>)
    ensures
        final(w)@ == old(w)@ + empty_word(),
{
    let lit: [u8; 6] = [32u8, 101u8, 109u8, 112u8, 116u8, 121u8];
    proof {
        assert(lit@ =~= empty_word());
    }
    push_bytes(w, &lit);
}

/// A `getinfo` message: sent to one game server to ask for its info
/// string; the challenge correlates the reply.
pub struct GetInfo {
    pub challenge: Challenge,
}

/// The wire form of a `getinfo` message: marker, `getinfo`, a space, the
/// challenge bytes.
pub open spec fn spec_getinfo(challenge: Seq<u8>) -> Seq<u8> {
    oob_lit() + getinfo_lit() + seq![32u8] + challenge
}

impl GetInfo {
    pub fn new(challenge: Challenge) -> (r: GetInfo)
        ensures
            r.challenge == challenge,
    {
        GetInfo { challenge }
    }

    /// Appends the wire form to `w`.
    pub fn write_all_to(&self, w: &mut Vec<u8>)
        ensures
            final(w)@ == old(w)@ + spec_getinfo(self.challenge@),
    {
        let lit: [u8; 7] = [103u8, 101u8, 116u8, 105u8, 110u8, 102u8, 111u8];
        proof {
            assert(lit@ =~= getinfo_lit());
        }
        push_oob(w);
        push_bytes(w, &lit);
        w.push(32u8);
        push_bytes(w, self.challenge.get().as_slice());
        proof {
            assert(w@ =~= old(w)@ + spec_getinfo(self.challenge@));
        }
    }
}

/// A `getstatus` message: sent to one game server to ask for its status,
/// rules and player list; the challenge correlates the reply.
pub struct GetStatus {
    pub challenge: Challenge,
}

/// The wire form of a `getstatus` message: marker, `getstatus`, a space,
/// the challenge bytes.
pub open spec fn spec_getstatus(challenge: Seq<u8>) -> Seq<u8> {
    oob_lit() + getstatus_lit() + seq![32u8] + challenge
}

impl GetStatus {
    pub fn new(challenge: Challenge) -> (r: GetStatus)
        ensures
            r.challenge == challenge,
    {
        GetStatus { challenge }
    }

    /// Appends the wire form to `w`.
    pub fn write_all_to(&self, w: &mut Vec<u8>)
        ensures
            final(w)@ == old(w)@ + spec_getstatus(self.challenge@),
    {
        let lit: [u8; 9] = [103u8, 101u8, 116u8, 115u8, 116u8, 97u8, 116u8, 117u8, 115u8];
        proof {
            assert(lit@ =~= getstatus_lit());
        }
        push_oob(w);
        push_bytes(w, &lit);
        w.push(32u8);
        push_bytes(w, self.challenge.get().as_slice());
        proof {
            assert(w@ =~= old(w)@ + spec_getstatus(self.challenge@));
        }
    }
}

/// A `heartbeat` message: sent by a game server that wants to be listed
/// by a master.
pub struct HeartBeat {
    pub protocol_string: ProtocolString,
}

/// The wire form of a `heartbeat` message: marker, `heartbeat`, a space,
/// the protocol string, a line feed.
pub open spec fn spec_heartbeat(protocol_string: Seq<u8>) -> Seq<u8> {
    oob_lit() + heartbeat_lit() + seq![32u8] + protocol_string + seq![10u8]
}

impl HeartBeat {
    /// Appends the wire form to `w`.
    pub fn write_all_to(&self, w: &mut Vec<u8>)
        ensures
            final(w)@ == old(w)@ + spec_heartbeat(self.protocol_string@),
    {
        let lit: [u8; 9] = [104u8, 101u8, 97u8, 114u8, 116u8, 98u8, 101u8, 97u8, 116u8];
        proof {
            assert(lit@ =~= heartbeat_lit());
        }
        push_oob(w);
        push_bytes(w, &lit);
        w.push(32u8);
        push_bytes(w, self.protocol_string.get().as_slice());
        w.push(10u8);
        proof {
            assert(w@ =~= old(w)@ + spec_heartbeat(self.protocol_string@));
        }
    }
}

/// The optional filters of a `getservers` message, written in a fixed
/// order: ` empty`, ` full`, then a free-form game type preceded by a
/// space.
#[derive(Debug, Default)]
pub struct GetServersFilter {
    pub empty: bool,
    pub full: bool,
    pub gametype: Option<Vec<u8>>,
}

/// The filter suffix of a `getservers` message.
pub open spec fn spec_filter_suffix(empty: bool, full: bool, gametype: Option<Seq<u8>>) -> Seq<
    u8,
> {
    (if empty {
        empty_word()
    } else {
        Seq::empty()
    }) + (if full {
        full_word()
    } else {
        Seq::empty()
    }) + (match gametype {
        Some(g) => seq![32u8] + g,
        None => Seq::empty(),
    })
}

impl GetServersFilter {
    /// Appends the filter suffix to `w`.
    #[verifier::rlimit(60)]
    fn write_all_to(&self, w: &mut Vec<u8>)
        ensures
            final(w)@ == old(w)@ + spec_filter_suffix(
                self.empty,
                self.full,
                opt_bytes_view(self.gametype),
            ),
    {
        if self.empty {
            let lit: [u8; 6] = [32u8, 101u8, 109u8, 112u8, 116u8, 121u8];
            proof {
                assert(lit@ =~= empty_word());
            }
            push_bytes(w, &lit);
        }
        if self.full {
            let lit: [u8; 5] = [32u8, 102u8, 117u8, 108u8, 108u8];
            proof {
                assert(lit@ =~= full_word());
            }
            push_bytes(w, &lit);
        }
        if let Some(ref game_type) = self.gametype {
            w.push(32u8);
            push_bytes(w, game_type.as_slice());
        }
        proof {
            assert(w@ =~= old(w)@ + spec_filter_suffix(
                self.empty,
                self.full,
                opt_bytes_view(self.gametype),
            ));
        }
    }
}

/// A `getservers` message: sent to a master to ask for its list of IPv4
/// game servers.
#[derive(Debug)]
pub struct GetServers {
    pub game_name: Option<GameName>,
    pub protocol_version: ProtocolVersion,
    pub filter: GetServersFilter,
}

/// The wire form of a `getservers` message: marker, `getservers`, the
/// optional game name preceded by a space, a space, the protocol version,
/// then the filter suffix.
pub open spec fn spec_get_servers(
    game_name: Option<Seq<u8>>,
    protocol_version: Seq<u8>,
    empty: bool,
    full: bool,
    gametype: Option<Seq<u8>>,
) -> Seq<u8> {
    oob_lit() + getservers_lit() + (match game_name {
        Some(n) => seq![32u8] + n,
        None => Seq::empty(),
    }) + seq![32u8] + protocol_version + spec_filter_suffix(empty, full, gametype)
}

impl GetServers {
    /// Appends the wire form to `w`.
    #[verifier::rlimit(60)]
    pub fn write_all_to(&self, w: &mut Vec<u8>)
        ensures
            final(w)@ == old(w)@ + spec_get_servers(
                opt_name_view(self.game_name),
                self.protocol_version@,
                self.filter.empty,
                self.filter.full,
                opt_bytes_view(self.filter.gametype),
            ),
    {
        let lit: [u8; 10] = [
            103u8,
            101u8,
            116u8,
            115u8,
            101u8,
            114u8,
            118u8,
            101u8,
            114u8,
            115u8,
        ];
        proof {
            assert(lit@ =~= getservers_lit());
        }
        push_oob(w);
        push_bytes(w, &lit);
        if let Some(ref game_name) = self.game_name {
            w.push(32u8);
            push_bytes(w, game_name.get().as_slice());
        }
        w.push(32u8);
        push_bytes(w, self.protocol_version.get().as_slice());
        self.filter.write_all_to(w);
        proof {
            assert(w@ =~= old(w)@ + spec_get_servers(
                opt_name_view(self.game_name),
                self.protocol_version@,
                self.filter.empty,
                self.filter.full,
                opt_bytes_view(self.filter.gametype),
            ));
        }
    }
}

/// How one decoded discovery datagram relates to the whole transmission:
/// one datagram without the sentinel, one with it, or the merge of
/// several datagrams.
#[derive(Debug, Clone, Copy, PartialEq, Eq, Structural)]
pub enum DatagramInfo {
    Single,
    Eot,
    Collected,
}

/// A decoded `getserversResponse` datagram: the IPv4 addresses it listed
/// and whether it carried the end-of-transmission sentinel.
#[derive(Debug)]
pub struct GetServersResponse {
    pub addresses: Vec<SocketAddrV4>,
    pub eot: bool,
}

impl GetServersResponse {
    /// Decodes one `getserversResponse` datagram, returning also the
    /// offset where the unconsumed leftover begins.
    pub fn parse(bytes: &[u8]) -> (r: Result<(GetServersResponse, usize), ParseResponseError>)
        ensures
            match r {
                Ok(out) => {
                    &&& spec_getservers_response(bytes@) is Some
                    &&& out.0.addresses@ == spec_getservers_response(bytes@)->Some_0.addrs
                    &&& out.0.eot == spec_getservers_response(bytes@)->Some_0.eot
                    &&& out.1 as int == spec_getservers_response(bytes@)->Some_0.end
                    &&& out.1 <= bytes@.len()
                },
                Err(_) => spec_getservers_response(bytes@) is None,
            },
    {
        match parse::getserversResponse(bytes) {
            Ok((addresses, ContainsEot(eot), end)) => Ok((
                GetServersResponse { addresses, eot },
                end,
            )),
            Err(e) => Err(e),
        }
    }
}

/// The optional filters of a `getserversExt` message, written in a fixed
/// order: ` empty`, ` full`, a free-form game type preceded by a space,
/// ` ipv4`, ` ipv6`.
#[derive(Debug, Default)]
pub struct GetServersExtFilter {
    pub empty: bool,
    pub full: bool,
    pub gametype: Option<Vec<u8>>,
    pub ipv4: bool,
    pub ipv6: bool,
}

/// The filter suffix of a `getserversExt` message.
pub open spec fn spec_ext_filter_suffix(
    empty: bool,
    full: bool,
    gametype: Option<Seq<u8>>,
    ipv4: bool,
    ipv6: bool,
) -> Seq<u8> {
    spec_filter_suffix(empty, full, gametype) + (if ipv4 {
        ipv4_word()
    } else {
        Seq::empty()
    }) + (if ipv6 {
        ipv6_word()
    } else {
        Seq::empty()
    })
}

impl GetServersExtFilter {
    /// Appends the filter suffix to `w`.
    #[verifier::rlimit(60)]
    fn write_all_to(&self, w: &mut Vec<u8>)
        ensures
            final(w)@ == old(w)@ + spec_ext_filter_suffix(
                self.empty,
                self.full,
                opt_bytes_view(self.gametype),
                self.ipv4,
                self.ipv6,
            ),
    {
        if self.empty {
            let lit: [u8; 6] = [32u8, 101u8, 109u8, 112u8, 116u8, 121u8];
            proof {
                assert(lit@ =~= empty_word());
            }
            push_bytes(w, &lit);
        }
        if self.full {
            let lit: [u8; 5] = [32u8, 102u8, 117u8, 108u8, 108u8];
            proof {
                assert(lit@ =~= full_word());
            }
            push_bytes(w, &lit);
        }
        if let Some(ref game_type) = self.gametype {
            w.push(32u8);
            push_bytes(w, game_type.as_slice());
        }
        if self.ipv4 {
            let lit: [u8; 5] = [32u8, 105u8, 112u8, 118u8, 52u8];
            proof {
                assert(lit@ =~= ipv4_word());
            }
            push_bytes(w, &lit);
        }
        if self.ipv6 {
            let lit: [u8; 5] = [32u8, 105u8, 112u8, 118u8, 54u8];
            proof {
                assert(lit@ =~= ipv6_word());
            }
            push_bytes(w, &lit);
        }
        proof {
            assert(w@ =~= old(w)@ + spec_ext_filter_suffix(
                self.empty,
                self.full,
                opt_bytes_view(self.gametype),
                self.ipv4,
                self.ipv6,
            ));
        }
    }
}

/// A `getserversExt` message: sent to a master to ask for its list of
/// IPv4 and IPv6 game servers.
#[derive(Debug)]
pub struct GetServersExt {
    pub game_name: GameName,
    pub protocol_version: ProtocolVersion,
    pub filter: GetServersExtFilter,
}

/// The wire form of a `getserversExt` message: marker, `getserversExt`, a
/// space, the game name, a space, the protocol version, then the filter
/// suffix.
pub open spec fn spec_get_servers_ext(
    game_name: Seq<u8>,
    protocol_version: Seq<u8>,
    empty: bool,
    full: bool,
    gametype: Option<Seq<u8>>,
    ipv4: bool,
    ipv6: bool,
) -> Seq<u8> {
    oob_lit() + getservers_ext_lit() + seq![32u8] + game_name + seq![32u8] + protocol_version
        + spec_ext_filter_suffix(empty, full, gametype, ipv4, ipv6)
}

impl GetServersExt {
    /// Appends the wire form to `w`.
    #[verifier::rlimit(60)]
    pub fn write_all_to(&self, w: &mut Vec<u8>)
        ensures
            final(w)@ == old(w)@ + spec_get_servers_ext(
                self.game_name@,
                self.protocol_version@,
                self.filter.empty,
                self.filter.full,
                opt_bytes_view(self.filter.gametype),
                self.filter.ipv4,
                self.filter.ipv6,
            ),
    {
        let lit: [u8; 13] = [
            103u8,
            101u8,
            116u8,
            115u8,
            101u8,
            114u8,
            118u8,
            101u8,
            114u8,
            115u8,
            69u8,
            120u8,
            116u8,
        ];
        proof {
            assert(lit@ =~= getservers_ext_lit());
        }
        push_oob(w);
        push_bytes(w, &lit);
        w.push(32u8);
        push_bytes(w, self.game_name.get().as_slice());
        w.push(32u8);
        push_bytes(w, self.protocol_version.get().as_slice());
        self.filter.write_all_to(w);
        proof {
            assert(w@ =~= old(w)@ + spec_get_servers_ext(
                self.game_name@,
                self.protocol_version@,
                self.filter.empty,
                self.filter.full,
                opt_bytes_view(self.filter.gametype),
                self.filter.ipv4,
                self.filter.ipv6,
            ));
        }
    }
}

/// A decoded `getserversExtResponse` datagram: the addresses it listed
/// and whether it carried the end-of-transmission sentinel.
#[derive(Debug)]
pub struct GetServersExtResponse {
    pub addresses: Vec<SocketAddr>,
    pub datagram_info: DatagramInfo,
}

impl GetServersExtResponse {
    /// Decodes one `getserversExtResponse` datagram, returning also the
    /// offset where the unconsumed leftover begins.
    pub fn parse(bytes: &[u8]) -> (r: Result<(GetServersExtResponse, usize), ParseResponseError>)
        ensures
            match r {
                Ok(out) => {
                    &&& spec_getservers_ext_response(bytes@) is Some
                    &&& out.0.addresses@ == spec_getservers_ext_response(bytes@)->Some_0.addrs
                    &&& out.0.datagram_info == (if spec_getservers_ext_response(
                        bytes@,
                    )->Some_0.eot {
                        DatagramInfo::Eot
                    } else {
                        DatagramInfo::Single
                    })
                    &&& out.1 as int == spec_getservers_ext_response(bytes@)->Some_0.end
                    &&& out.1 <= bytes@.len()
                },
                Err(_) => spec_getservers_ext_response(bytes@) is None,
            },
    {
        match parse::getserversExtResponse(bytes) {
            Ok((addresses, ContainsEot(eot), end)) => Ok((
                GetServersExtResponse {
                    addresses,
                    datagram_info: if eot {
                        DatagramInfo::Eot
                    } else {
                        DatagramInfo::Single
                    },
                },
                end,
            )),
            Err(e) => Err(e),
        }
    }
}

/// `s` ends with `suffix`.
pub open spec fn ends_with(s: Seq<u8>, suffix: Seq<u8>) -> bool {
    &&& s.len() >= suffix.len()
    &&& s.skip(s.len() - suffix.len()) == suffix
}

/// The start of the longest run of decimal digits that ends at `i`.
pub open spec fn scan_digits_left(s: Seq<u8>, i: int) -> int
    decreases i,
{
    if 0 < i <= s.len() && crate::tokens::protocol_version_byte_ok(s[i - 1]) {
        scan_digits_left(s, i - 1)
    } else {
        i
    }
}

/// Decodes a `getservers` request without a game-type filter back into its
/// fields: the marker and command name, then, from the right, the optional
/// ` full` and ` empty` filter words, the protocol-version digits, and the
/// optional game name.
pub open spec fn spec_decode_get_servers(s: Seq<u8>) -> Option<
    (Option<Seq<u8>>, Seq<u8>, bool, bool),
> {
    if s.len() >= 14 && s.take(14) == oob_lit() + getservers_lit() {
        let m0 = s.skip(14);
        let full = ends_with(m0, full_word());
        let m1 = if full {
            m0.take(m0.len() - 5)
        } else {
            m0
        };
        let empty = ends_with(m1, empty_word());
        let m2 = if empty {
            m1.take(m1.len() - 6)
        } else {
            m1
        };
        let d = scan_digits_left(m2, m2.len() as int);
        let pv = m2.skip(d);
        if 0 < d && m2[d - 1] == 32 {
            let r = m2.take(d - 1);
            if r.len() == 0 {
                Some((None, pv, empty, full))
            } else if r[0] == 32 {
                Some((Some(r.skip(1)), pv, empty, full))
            } else {
                None
            }
        } else {
            None
        }
    } else {
        None
    }
}

proof fn lemma_scan_digits_left_stops(s: Seq<u8>, stop: int, i: int)
    requires
        0 <= stop <= i <= s.len(),
        forall|j: int| stop <= j < s.len() ==> crate::tokens::protocol_version_byte_ok(
            #[trigger] s[j],
        ),
        stop == 0 || !crate::tokens::protocol_version_byte_ok(s[stop - 1]),
    ensures
        scan_digits_left(s, i) == stop,
    decreases i,
{
    if i > stop {
        lemma_scan_digits_left_stops(s, stop, i - 1);
    }
}

/// Law: a `getservers` request without a game-type filter decodes back to
/// the fields it was encoded from, for every well-formed game name and
/// protocol version. With a free-form game-type filter the command grammar
/// is ambiguous — the filter word `full` and a game type spelled `full`
/// encode alike — so that filter stays out of the statement.
#[verifier::rlimit(60)]
pub proof fn lemma_get_servers_round_trip(
    name: Option<Seq<u8>>,
    pv: Seq<u8>,
    empty: bool,
    full: bool,
)
    requires
        name matches Some(n) ==> forall|k: int|
            0 <= k < n.len() ==> crate::tokens::game_name_byte_ok(#[trigger] n[k]),
        forall|k: int| 0 <= k < pv.len() ==> crate::tokens::protocol_version_byte_ok(
            #[trigger] pv[k],
        ),
    ensures
        spec_decode_get_servers(spec_get_servers(name, pv, empty, full, None)) == Some(
            (name, pv, empty, full),
        ),
{
    let enc = spec_get_servers(name, pv, empty, full, None);
    let np = match name {
        Some(n) => seq![32u8] + n,
        None => Seq::<u8>::empty(),
    };
    let e_word: Seq<u8> = if empty {
        empty_word()
    } else {
        Seq::empty()
    };
    let f_word: Seq<u8> = if full {
        full_word()
    } else {
        Seq::empty()
    };
    let core = np + seq![32u8] + pv;
    assert(enc =~= (oob_lit() + getservers_lit()) + (core + e_word + f_word));
    let m0 = enc.skip(14);
    assert(enc.take(14) =~= oob_lit() + getservers_lit());
    assert(m0 =~= core + e_word + f_word);

    // the trailing ` full` word is present exactly when the flag is set
    if full {
        assert(m0.skip(m0.len() - 5) =~= full_word());
    } else {
        if ends_with(m0, full_word()) {
            assert(m0[m0.len() - 1] == full_word()[4]) by {
                assert(m0.skip(m0.len() - 5)[4] == m0[m0.len() - 1]);
            }
            assert(m0 =~= core + e_word);
            if empty {
                assert(m0[m0.len() - 1] == 121u8);
            } else {
                assert(m0 =~= core);
                if pv.len() > 0 {
                    assert(m0[m0.len() - 1] == pv[pv.len() - 1]);
                } else {
                    assert(m0[m0.len() - 1] == 32u8);
                }
            }
            assert(false);
        }
    }
    assert(ends_with(m0, full_word()) == full);
    let m1 = if full {
        m0.take(m0.len() - 5)
    } else {
        m0
    };
    assert(m1 =~= core + e_word);

    // the trailing ` empty` word is present exactly when the flag is set
    if empty {
        assert(m1.skip(m1.len() - 6) =~= empty_word());
    } else {
        if ends_with(m1, empty_word()) {
            assert(m1[m1.len() - 1] == empty_word()[5]) by {
                assert(m1.skip(m1.len() - 6)[5] == m1[m1.len() - 1]);
            }
            assert(m1 =~= core);
            if pv.len() > 0 {
                assert(m1[m1.len() - 1] == pv[pv.len() - 1]);
            } else {
                assert(m1[m1.len() - 1] == 32u8);
            }
            assert(false);
        }
    }
    assert(ends_with(m1, empty_word()) == empty);
    let m2 = if empty {
        m1.take(m1.len() - 6)
    } else {
        m1
    };
    assert(m2 =~= core);

    // the protocol version is the digit run that ends the remainder
    let stop = np.len() + 1;
    assert forall|j: int| stop <= j < m2.len() implies crate::tokens::protocol_version_byte_ok(
        #[trigger] m2[j],
    ) by {
        assert(m2[j] == pv[j - stop]);
    }
    assert(m2[stop - 1] == 32u8);
    lemma_scan_digits_left_stops(m2, stop as int, m2.len() as int);
    assert(m2.skip(stop as int) =~= pv);

    // what stands before the version's space is the optional game name
    let r = m2.take(stop as int - 1);
    assert(r =~= np);
    match name {
        Some(n) => {
            assert(r[0] == 32u8);
            assert(r.skip(1) =~= n);
        },
        None => {
            assert(r.len() == 0);
        },
    }
}

/// A decoded `infoResponse` datagram: the key-value metadata of one game
/// server.
#[derive(Debug)]
pub struct InfoResponse {
    pub key_values: KeyValues,
}

impl InfoResponse {
    /// Decodes one `infoResponse` datagram, returning also the offset
    /// where the unconsumed leftover begins.
    pub fn parse(bytes: &[u8]) -> (r: Result<(InfoResponse, usize), ParseResponseError>)
        ensures
            match r {
                Ok(out) => {
                    &&& spec_info_response(bytes@) is Some
                    &&& out.0.key_values.spec_pairs() == spec_info_response(bytes@)->Some_0.pairs
                    &&& out.1 as int == spec_info_response(bytes@)->Some_0.end
                    &&& out.1 <= bytes@.len()
                },
                Err(_) => spec_info_response(bytes@) is None,
            },
    {
        match parse::infoResponse(bytes) {
            Ok((pairs, end)) => Ok((InfoResponse { key_values: KeyValues::from_pairs(pairs) }, end)),
            Err(e) => Err(e),
        }
    }
}

/// A decoded `statusResponse` datagram: the key-value metadata and the
/// ordered player records of one game server.
#[derive(Debug)]
pub struct StatusResponse {
    pub key_values: KeyValues,
    pub player_infos: Vec<PlayerInfo>,
}

impl StatusResponse {
    /// Decodes one `statusResponse` datagram, returning also the offset
    /// where the unconsumed leftover begins.
    pub fn parse(bytes: &[u8]) -> (r: Result<(StatusResponse, usize), ParseResponseError>)
        ensures
            match r {
                Ok(out) => {
                    &&& spec_status_response(bytes@) is Some
                    &&& out.0.key_values.spec_pairs() == spec_status_response(bytes@)->Some_0.pairs
                    &&& players_view(out.0.player_infos@) == spec_status_response(
                        bytes@,
                    )->Some_0.players
                    &&& out.1 as int == spec_status_response(bytes@)->Some_0.end
                    &&& out.1 <= bytes@.len()
                },
                Err(_) => spec_status_response(bytes@) is None,
            },
    {
        match parse::statusResponse(bytes) {
            Ok((pairs, player_infos, end)) => Ok((
                StatusResponse { key_values: KeyValues::from_pairs(pairs), player_infos },
                end,
            )),
            Err(e) => Err(e),
        }
    }
}

} // verus!
