//! Free-function forms of the game-server exchange: a request writer that
//! takes a plain challenge, and a decoder for the info reply.

use vstd::prelude::*;

use crate::keyvalues::KeyValues;
use crate::messages::spec_getinfo;
use crate::parse;
use crate::parse::spec_info_response;

verus! {

/// Error returned when a challenge holds a byte outside the charset the
/// protocol fixes for challenge tokens.
#[derive(Debug, Clone, PartialEq, Eq, Structural)]
pub enum WriteGetInfoError {
    InvalidChallengeCharacter,
}

/// Appends a `getinfo` request carrying `challenge` to `w`, after
/// rejecting a challenge that breaks the token charset — printable ASCII
/// without `\`, `/`, `;`, `"` and `%`, the rule `Challenge::new` checks;
/// a rejected call leaves `w` unchanged.
pub fn get_info(w: &mut Vec<u8>, challenge: &[u8]) -> (r: Result<(), WriteGetInfoError>)
    ensures
        match r {
            Ok(()) => {
                &&& forall|k: int|
                    0 <= k < challenge@.len() ==> crate::tokens::challenge_byte_ok(
                        #[trigger] challenge@[k],
                    )
                &&& final(w)@ == old(w)@ + spec_getinfo(challenge@)
            },
            Err(_) => {
                &&& exists|k: int|
                    0 <= k < challenge@.len() && !crate::tokens::challenge_byte_ok(
                        #[trigger] challenge@[k],
                    )
                &&& final(w)@ == old(w)@
            },
        },
{
    let clen = challenge.len();
    let mut k: usize = 0;
    while k < clen
        invariant
            clen == challenge@.len(),
            0 <= k <= clen,
            forall|j: int|
                0 <= j < k ==> crate::tokens::challenge_byte_ok(#[trigger] challenge@[j]),
        decreases clen - k,
    {
        let b = challenge[k];
        if !(33 <= b && b <= 126) || b == 92 || b == 47 || b == 59 || b == 34 || b == 37 {
            return Err(WriteGetInfoError::InvalidChallengeCharacter);
        }
        k += 1;
    }
    let lit: [u8; 7] = [103u8, 101u8, 116u8, 105u8, 110u8, 102u8, 111u8];
    proof {
        assert(lit@ =~= crate::messages::getinfo_lit());
    }
    crate::messages::push_oob(w);
    crate::messages::push_bytes(w, &lit);
    w.push(32u8);
    crate::messages::push_bytes(w, challenge);
    proof {
        assert(w@ =~= old(w)@ + spec_getinfo(challenge@));
    }
    Ok(())
}

/// Error returned when a buffer is not an info response.
#[derive(Debug, Clone, PartialEq, Eq, Structural)]
pub enum ParseGameServerResponseError {
    InvalidResponse,
}

/// A decoded game-server reply.
#[derive(Debug)]
pub enum GameServerResponse {
    Info(KeyValues),
}

/// Decodes a game-server reply as an `infoResponse`, returning also the
/// offset where the unconsumed leftover begins.
pub fn parse_response(response: &[u8]) -> (r: Result<
    (GameServerResponse, usize),
    ParseGameServerResponseError,
>)
    ensures
        match r {
            Ok(out) => match out.0 {
                GameServerResponse::Info(kv) => {
                    &&& spec_info_response(response@) is Some
                    &&& kv.spec_pairs() == spec_info_response(response@)->Some_0.pairs
                    &&& out.1 as int == spec_info_response(response@)->Some_0.end
                },
            },
            Err(_) => spec_info_response(response@) is None,
        },
{
    match parse::infoResponse(response) {
        Ok((pairs, end)) => Ok((GameServerResponse::Info(KeyValues::from_pairs(pairs)), end)),
        Err(_) => Err(ParseGameServerResponseError::InvalidResponse),
    }
}

} // verus!
