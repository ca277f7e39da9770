//! Client-side codec and query engine for a UDP game-server discovery
//! protocol: requests to a master server for lists of active game servers,
//! direct info/status queries to single game servers, and the pure decision
//! logic of the query loops that drive them.

use vstd::prelude::*;

mod addr;
mod discovery;
pub mod game_server;
mod keyvalues;
pub mod master_server;
mod messages;
pub mod parse;
mod query;
mod tokens;

pub use discovery::DiscoveryAccumulator;
pub use discovery::DiscoveryExtAccumulator;
pub use keyvalues::KeyValues;
pub use query::collect_successes;
pub use query::step_info_query;
pub use query::step_status_query;
pub use query::ClientError;
pub use query::InfoQueryStep;
pub use query::StatusQueryStep;
pub use messages::DatagramInfo;
pub use messages::GetInfo;
pub use messages::GetServers;
pub use messages::GetServersExt;
pub use messages::GetServersExtFilter;
pub use messages::GetServersExtResponse;
pub use messages::GetServersFilter;
pub use messages::GetServersResponse;
pub use messages::GetStatus;
pub use messages::HeartBeat;
pub use messages::InfoResponse;
pub use messages::StatusResponse;
pub use parse::PlayerInfo;

pub use addr::SocketAddr;
pub use addr::SocketAddrV4;
pub use addr::SocketAddrV6;
pub use parse::ContainsEot;

pub use tokens::Challenge;
pub use tokens::GameName;
pub use tokens::NewChallengeError;
pub use tokens::NewGameNameError;
pub use tokens::NewProtocolStringError;
pub use tokens::NewProtocolVersionError;
pub use tokens::ProtocolString;
pub use tokens::ProtocolVersion;

verus! {

/// Error returned when an inbound datagram does not match the grammar of
/// the expected response.
#[derive(Debug, Clone, PartialEq, Eq, Structural)]
pub enum ParseResponseError {
    InvalidResponse,
}

} // verus!
