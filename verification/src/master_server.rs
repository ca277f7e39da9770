//! Free-function forms of the master-server exchange: request writers
//! that take plain byte strings, and a decoder that accepts either kind
//! of discovery response.

use vstd::prelude::*;

use crate::addr::SocketAddr;
use crate::addr::SocketAddrV4;
use crate::messages::full_word;
use crate::messages::empty_word;
use crate::messages::getservers_ext_lit;
use crate::messages::getservers_lit;
use crate::parse;
use crate::parse::ContainsEot;
use crate::parse::oob_lit;
use crate::parse::spec_getservers_ext_response;
use crate::parse::spec_getservers_response;

verus! {

/// The wire form written by `get_servers`: marker, `getservers`, a space,
/// the game name, a space, the protocol version, then the filter words in
/// the protocol's fixed order: ` empty`, then ` full`.
pub open spec fn spec_get_servers_plain(
    name: Seq<u8>,
    protocol_version: Seq<u8>,
    full: bool,
    empty: bool,
) -> Seq<u8> {
    oob_lit() + getservers_lit() + seq![32u8] + name + seq![32u8] + protocol_version + (if empty {
        empty_word()
    } else {
        Seq::empty()
    }) + (if full {
        full_word()
    } else {
        Seq::empty()
    })
}

/// The wire form written by `get_servers_ext`: as
/// `spec_get_servers_plain`, under the `getserversExt` command name.
pub open spec fn spec_get_servers_ext_plain(
    name: Seq<u8>,
    protocol_version: Seq<u8>,
    full: bool,
    empty: bool,
) -> Seq<u8> {
    oob_lit() + getservers_ext_lit() + seq![32u8] + name + seq![32u8] + protocol_version + (
    if empty {
        empty_word()
    } else {
        Seq::empty()
    }) + (if full {
        full_word()
    } else {
        Seq::empty()
    })
}

/// Appends a `getservers` request to `w`: the game name and protocol
/// version are written as given, then the ` empty` and ` full` filter
/// words as asked, in that order.
pub fn get_servers(w: &mut Vec<u8>, name: &[u8], protocol_version: &[u8], full: bool, empty: bool)
    ensures
        final(w)@ == old(w)@ + spec_get_servers_plain(name@, protocol_version@, full, empty),
{
    crate::messages::push_oob(w);
    crate::messages::push_getservers_lit(w);
    w.push(32u8);
    crate::messages::push_bytes(w, name);
    w.push(32u8);
    crate::messages::push_bytes(w, protocol_version);
    if empty {
        crate::messages::push_empty_word(w);
    }
    if full {
        crate::messages::push_full_word(w);
    }
    proof {
        assert(w@ =~= old(w)@ + spec_get_servers_plain(name@, protocol_version@, full, empty));
    }
}

/// Appends a `getserversExt` request to `w`, as `get_servers` does.
pub fn get_servers_ext(
    w: &mut Vec<u8>,
    name: &[u8],
    protocol_version: &[u8],
    full: bool,
    empty: bool,
)
    ensures
        final(w)@ == old(w)@ + spec_get_servers_ext_plain(name@, protocol_version@, full, empty),
{
    crate::messages::push_oob(w);
    crate::messages::push_getservers_ext_lit(w);
    w.push(32u8);
    crate::messages::push_bytes(w, name);
    w.push(32u8);
    crate::messages::push_bytes(w, protocol_version);
    if empty {
        crate::messages::push_empty_word(w);
    }
    if full {
        crate::messages::push_full_word(w);
    }
    proof {
        assert(w@ =~= old(w)@ + spec_get_servers_ext_plain(
            name@,
            protocol_version@,
            full,
            empty,
        ));
    }
}

/// Error returned when a buffer matches neither kind of discovery
/// response.
#[derive(Debug, Clone, PartialEq, Eq, Structural)]
pub enum ParseMasterServerResponseError {
    InvalidResponse,
}

/// A decoded discovery response of either kind.
#[derive(Debug)]
pub enum MasterServerResponse {
    Servers(Vec<SocketAddrV4>),
    ServersExt(Vec<SocketAddr>),
}

/// Decodes a master-server reply: first as a `getserversResponse`, then as
/// a `getserversExtResponse`. Returns the offset where the unconsumed
/// leftover begins.
pub fn parse_response(response: &[u8]) -> (r: Result<
    (MasterServerResponse, usize),
    ParseMasterServerResponseError,
>)
    ensures
        match r {
            Ok(out) => match out.0 {
                MasterServerResponse::Servers(addrs) => {
                    &&& spec_getservers_response(response@) is Some
                    &&& addrs@ == spec_getservers_response(response@)->Some_0.addrs
                    &&& out.1 as int == spec_getservers_response(response@)->Some_0.end
                },
                MasterServerResponse::ServersExt(addrs) => {
                    &&& spec_getservers_response(response@) is None
                    &&& spec_getservers_ext_response(response@) is Some
                    &&& addrs@ == spec_getservers_ext_response(response@)->Some_0.addrs
                    &&& out.1 as int == spec_getservers_ext_response(response@)->Some_0.end
                },
            },
            Err(_) => spec_getservers_response(response@) is None
                && spec_getservers_ext_response(response@) is None,
        },
{
    match parse::getserversResponse(response) {
        Ok((addrs, ContainsEot(_), end)) => {
            return Ok((MasterServerResponse::Servers(addrs), end));
        },
        Err(_) => {},
    }
    match parse::getserversExtResponse(response) {
        Ok((addrs, ContainsEot(_), end)) => Ok((MasterServerResponse::ServersExt(addrs), end)),
        Err(_) => Err(ParseMasterServerResponseError::InvalidResponse),
    }
}

} // verus!
