//! Validated byte-string tokens.
//!
//! Each token type wraps a byte sequence and enforces a charset rule once, at
//! construction. After construction the bytes are immutable, so the rule holds
//! for the token's whole lifetime.

use vstd::prelude::*;

verus! {

/// A challenge byte: printable ASCII, excluding `\`, `/`, `;`, `"` and `%`.
pub open spec fn challenge_byte_ok(b: u8) -> bool {
    &&& 33 <= b <= 126
    &&& b != 92
    &&& b != 47
    &&& b != 59
    &&& b != 34
    &&& b != 37
}

/// A protocol-string byte: anything but a new-line.
pub open spec fn protocol_string_byte_ok(b: u8) -> bool {
    b != 10
}

/// A game-name byte: anything but ASCII whitespace.
pub open spec fn game_name_byte_ok(b: u8) -> bool {
    &&& b != 32
    &&& b != 9
    &&& b != 10
    &&& b != 12
    &&& b != 13
}

/// A protocol-version byte: an ASCII digit.
pub open spec fn protocol_version_byte_ok(b: u8) -> bool {
    48 <= b <= 57
}

/// Error returned when a challenge holds a byte outside its charset.
#[derive(Debug, Clone, PartialEq, Eq, Structural)]
pub struct NewChallengeError;

/// Error returned when a protocol string holds a new-line.
#[derive(Debug, Clone, PartialEq, Eq, Structural)]
pub struct NewProtocolStringError;

/// Error returned when a game name holds whitespace.
#[derive(Debug, Clone, PartialEq, Eq, Structural)]
pub struct NewGameNameError;

/// Error returned when a protocol version holds a non-digit.
#[derive(Debug, Clone, PartialEq, Eq, Structural)]
pub struct NewProtocolVersionError;

/// An opaque token echoed by a game server to correlate a reply with a
/// request. Its bytes satisfy `challenge_byte_ok`.
#[derive(Debug, Clone)]
pub struct Challenge {
    bytes: Vec<u8>,
}

impl View for Challenge {
    type V = Seq<u8>;

    closed spec fn view(&self) -> Seq<u8> {
        self.bytes@
    }
}

impl Challenge {
    /// The charset rule, as a predicate on the whole token.
    pub open spec fn wf(self) -> bool {
        forall|k: int| 0 <= k < self@.len() ==> challenge_byte_ok(#[trigger] self@[k])
    }

    /// Checks the charset rule once; the only fallible path.
    pub fn new(challenge: Vec<u8>) -> (r: Result<Challenge, NewChallengeError>)
        ensures
            match r {
                Ok(c) => c@ == challenge@ && c.wf(),
                Err(_) => exists|k: int|
                    0 <= k < challenge@.len() && !challenge_byte_ok(#[trigger] challenge@[k]),
            },
    {
        let mut k: usize = 0;
        while k < challenge.len()
            invariant
                0 <= k <= challenge@.len(),
                forall|j: int| 0 <= j < k ==> challenge_byte_ok(#[trigger] challenge@[j]),
            decreases challenge@.len() - k,
        {
            let b = challenge[k];
            if !(33 <= b && b <= 126) || b == 92 || b == 47 || b == 59 || b == 34 || b == 37 {
                return Err(NewChallengeError);
            }
            k += 1;
        }
        Ok(Challenge { bytes: challenge })
    }

    /// Wraps bytes the caller has already validated.
    pub fn new_unchecked(challenge: Vec<u8>) -> (r: Challenge)
        requires
            forall|k: int|
                0 <= k < challenge@.len() ==> challenge_byte_ok(#[trigger] challenge@[k]),
        ensures
            r@ == challenge@,
            r.wf(),
    {
        Challenge { bytes: challenge }
    }

    /// The token's bytes.
    pub fn get(&self) -> (r: &Vec<u8>)
        ensures
            r@ == self@,
    {
        &self.bytes
    }
}

/// A protocol string sent in a heartbeat. Its bytes satisfy
/// `protocol_string_byte_ok`.
#[derive(Debug, Clone)]
pub struct ProtocolString {
    bytes: Vec<u8>,
}

impl View for ProtocolString {
    type V = Seq<u8>;

    closed spec fn view(&self) -> Seq<u8> {
        self.bytes@
    }
}

impl ProtocolString {
    /// The charset rule, as a predicate on the whole token.
    pub open spec fn wf(self) -> bool {
        forall|k: int| 0 <= k < self@.len() ==> protocol_string_byte_ok(#[trigger] self@[k])
    }

    /// Checks the charset rule once; the only fallible path.
    pub fn new(protocol_string: Vec<u8>) -> (r: Result<ProtocolString, NewProtocolStringError>)
        ensures
            match r {
                Ok(c) => c@ == protocol_string@ && c.wf(),
                Err(_) => exists|k: int|
                    0 <= k < protocol_string@.len() && !protocol_string_byte_ok(
                        #[trigger] protocol_string@[k],
                    ),
            },
    {
        let mut k: usize = 0;
        while k < protocol_string.len()
            invariant
                0 <= k <= protocol_string@.len(),
                forall|j: int| 0 <= j < k ==> protocol_string_byte_ok(#[trigger] protocol_string@[j]),
            decreases protocol_string@.len() - k,
        {
            if protocol_string[k] == 10 {
                return Err(NewProtocolStringError);
            }
            k += 1;
        }
        Ok(ProtocolString { bytes: protocol_string })
    }

    /// Wraps bytes the caller has already validated.
    pub fn new_unchecked(protocol_string: Vec<u8>) -> (r: ProtocolString)
        requires
            forall|k: int|
                0 <= k < protocol_string@.len() ==> protocol_string_byte_ok(
                    #[trigger] protocol_string@[k],
                ),
        ensures
            r@ == protocol_string@,
            r.wf(),
    {
        ProtocolString { bytes: protocol_string }
    }

    /// The token's bytes.
    pub fn get(&self) -> (r: &Vec<u8>)
        ensures
            r@ == self@,
    {
        &self.bytes
    }
}

/// A game name named in a discovery request. Its bytes satisfy
/// `game_name_byte_ok`.
#[derive(Debug, Clone)]
pub struct GameName {
    bytes: Vec<u8>,
}

impl View for GameName {
    type V = Seq<u8>;

    closed spec fn view(&self) -> Seq<u8> {
        self.bytes@
    }
}

impl GameName {
    /// The charset rule, as a predicate on the whole token.
    pub open spec fn wf(self) -> bool {
        forall|k: int| 0 <= k < self@.len() ==> game_name_byte_ok(#[trigger] self@[k])
    }

    /// Checks the charset rule once; the only fallible path.
    pub fn new(game_name: Vec<u8>) -> (r: Result<GameName, NewGameNameError>)
        ensures
            match r {
                Ok(c) => c@ == game_name@ && c.wf(),
                Err(_) => exists|k: int|
                    0 <= k < game_name@.len() && !game_name_byte_ok(#[trigger] game_name@[k]),
            },
    {
        let mut k: usize = 0;
        while k < game_name.len()
            invariant
                0 <= k <= game_name@.len(),
                forall|j: int| 0 <= j < k ==> game_name_byte_ok(#[trigger] game_name@[j]),
            decreases game_name@.len() - k,
        {
            let b = game_name[k];
            if b == 32 || b == 9 || b == 10 || b == 12 || b == 13 {
                return Err(NewGameNameError);
            }
            k += 1;
        }
        Ok(GameName { bytes: game_name })
    }

    /// Wraps bytes the caller has already validated.
    pub fn new_unchecked(game_name: Vec<u8>) -> (r: GameName)
        requires
            forall|k: int|
                0 <= k < game_name@.len() ==> game_name_byte_ok(#[trigger] game_name@[k]),
        ensures
            r@ == game_name@,
            r.wf(),
    {
        GameName { bytes: game_name }
    }

    /// The token's bytes.
    pub fn get(&self) -> (r: &Vec<u8>)
        ensures
            r@ == self@,
    {
        &self.bytes
    }
}

/// A protocol version named in a discovery request. Its bytes satisfy
/// `protocol_version_byte_ok`.
#[derive(Debug, Clone)]
pub struct ProtocolVersion {
    bytes: Vec<u8>,
}

impl View for ProtocolVersion {
    type V = Seq<u8>;

    closed spec fn view(&self) -> Seq<u8> {
        self.bytes@
    }
}

impl ProtocolVersion {
    /// The charset rule, as a predicate on the whole token.
    pub open spec fn wf(self) -> bool {
        forall|k: int| 0 <= k < self@.len() ==> protocol_version_byte_ok(#[trigger] self@[k])
    }

    /// Checks the charset rule once; the only fallible path.
    pub fn new(protocol_version: Vec<u8>) -> (r: Result<ProtocolVersion, NewProtocolVersionError>)
        ensures
            match r {
                Ok(c) => c@ == protocol_version@ && c.wf(),
                Err(_) => exists|k: int|
                    0 <= k < protocol_version@.len() && !protocol_version_byte_ok(
                        #[trigger] protocol_version@[k],
                    ),
            },
    {
        let mut k: usize = 0;
        while k < protocol_version.len()
            invariant
                0 <= k <= protocol_version@.len(),
                forall|j: int|
                    0 <= j < k ==> protocol_version_byte_ok(#[trigger] protocol_version@[j]),
            decreases protocol_version@.len() - k,
        {
            let b = protocol_version[k];
            if !(48 <= b && b <= 57) {
                return Err(NewProtocolVersionError);
            }
            k += 1;
        }
        Ok(ProtocolVersion { bytes: protocol_version })
    }

    /// Wraps bytes the caller has already validated.
    pub fn new_unchecked(protocol_version: Vec<u8>) -> (r: ProtocolVersion)
        requires
            forall|k: int|
                0 <= k < protocol_version@.len() ==> protocol_version_byte_ok(
                    #[trigger] protocol_version@[k],
                ),
        ensures
            r@ == protocol_version@,
            r.wf(),
    {
        ProtocolVersion { bytes: protocol_version }
    }

    /// The token's bytes.
    pub fn get(&self) -> (r: &Vec<u8>)
        ensures
            r@ == self@,
    {
        &self.bytes
    }
}

} // verus!
