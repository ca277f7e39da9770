//! The decisions of one per-server query and of the fan-out over many
//! servers, as pure functions.
//!
//! The transport loop around them sends one request, then races each
//! inbound datagram against a timer. These functions decide what each
//! event means: a datagram from the wrong source is discarded and the
//! wait goes on, the first datagram from the target settles the query,
//! and the fan-out keeps only the successful exchanges.

use vstd::prelude::*;

use crate::addr::SocketAddr;
use crate::messages::InfoResponse;
use crate::messages::StatusResponse;
use crate::parse::players_view;
use crate::parse::spec_info_response;
use crate::parse::spec_status_response;
use crate::ParseResponseError;

verus! {

/// Why one per-server query ended without a response: the timer expired
/// first, or the reply did not match the grammar. Transport failures stay
/// with the transport code.
#[derive(Debug, Clone, PartialEq, Eq, Structural)]
pub enum ClientError {
    Timeout,
    ParseResponseError(ParseResponseError),
}

/// What one inbound datagram means to a waiting info query.
pub enum InfoQueryStep {
    /// The datagram came from an address other than the queried one:
    /// dropped, the wait goes on.
    Ignore,
    /// The first datagram from the target, decoded.
    Done(InfoResponse),
    /// The first datagram from the target did not match the grammar; the
    /// query fails without retrying.
    Failed(ClientError),
}

/// What one inbound datagram means to a waiting status query.
pub enum StatusQueryStep {
    /// The datagram came from an address other than the queried one:
    /// dropped, the wait goes on.
    Ignore,
    /// The first datagram from the target, decoded.
    Done(StatusResponse),
    /// The first datagram from the target did not match the grammar; the
    /// query fails without retrying.
    Failed(ClientError),
}

/// Decides one receive event of an info query: a datagram from `source`
/// while `target` is queried. Only a datagram whose source equals the
/// target can settle the query, well-formed or not; any other source is
/// ignored.
pub fn step_info_query(target: &SocketAddr, source: &SocketAddr, datagram: &[u8]) -> (r:
    InfoQueryStep)
    ensures
        source != target ==> r is Ignore,
        source == target && spec_info_response(datagram@) is Some ==> match r {
            InfoQueryStep::Done(resp) => resp.key_values.spec_pairs() == spec_info_response(
                datagram@,
            )->Some_0.pairs,
            _ => false,
        },
        source == target && spec_info_response(datagram@) is None ==> r == (
        InfoQueryStep::Failed(ClientError::ParseResponseError(ParseResponseError::InvalidResponse))),
{
    if source != target {
        return InfoQueryStep::Ignore;
    }
    match InfoResponse::parse(datagram) {
        Ok((resp, _)) => InfoQueryStep::Done(resp),
        Err(e) => InfoQueryStep::Failed(ClientError::ParseResponseError(e)),
    }
}

/// Decides one receive event of a status query, as `step_info_query`
/// does.
pub fn step_status_query(target: &SocketAddr, source: &SocketAddr, datagram: &[u8]) -> (r:
    StatusQueryStep)
    ensures
        source != target ==> r is Ignore,
        source == target && spec_status_response(datagram@) is Some ==> match r {
            StatusQueryStep::Done(resp) => resp.key_values.spec_pairs() == spec_status_response(
                datagram@,
            )->Some_0.pairs && players_view(resp.player_infos@) == spec_status_response(
                datagram@,
            )->Some_0.players,
            _ => false,
        },
        source == target && spec_status_response(datagram@) is None ==> r == (
        StatusQueryStep::Failed(ClientError::ParseResponseError(
            ParseResponseError::InvalidResponse,
        ))),
{
    if source != target {
        return StatusQueryStep::Ignore;
    }
    match StatusResponse::parse(datagram) {
        Ok((resp, _)) => StatusQueryStep::Done(resp),
        Err(e) => StatusQueryStep::Failed(ClientError::ParseResponseError(e)),
    }
}

/// The successful exchanges of a fan-out, in completion order: each
/// address paired with the response it gave; addresses that gave none are
/// absent.
pub open spec fn spec_successes(rs: Seq<(SocketAddr, Option<StatusResponse>)>) -> Seq<
    (SocketAddr, StatusResponse),
>
    decreases rs.len(),
{
    if rs.len() == 0 {
        Seq::empty()
    } else {
        let rest = spec_successes(rs.drop_first());
        match rs.first().1 {
            Some(resp) => seq![(rs.first().0, resp)] + rest,
            None => rest,
        }
    }
}

/// Keeps the successful exchanges of a fan-out and drops the failures:
/// per-server failures never surface as errors, only as absence from the
/// result.
pub fn collect_successes(results: Vec<(SocketAddr, Option<StatusResponse>)>) -> (r: Vec<
    (SocketAddr, StatusResponse),
>)
    ensures
        r@ == spec_successes(results@),
{
    let ghost whole = results@;
    let total = results.len();
    let mut out: Vec<(SocketAddr, StatusResponse)> = Vec::new();
    let mut rest = results;
    let mut taken: usize = 0;
    proof {
        assert(whole.skip(0int) =~= whole);
        assert(out@ + spec_successes(whole) =~= spec_successes(whole));
    }
    while rest.len() > 0
        invariant
            whole.len() == total,
            taken + rest@.len() == whole.len(),
            rest@ == whole.skip(taken as int),
            spec_successes(whole) == out@ + spec_successes(whole.skip(taken as int)),
        decreases rest@.len(),
    {
        let ghost suffix = whole.skip(taken as int);
        let p = rest.remove(0);
        proof {
            assert(suffix.first() == whole[taken as int]);
            assert(suffix.drop_first() =~= whole.skip(taken as int + 1));
            assert(rest@ =~= whole.skip(taken as int + 1));
        }
        match p.1 {
            Some(resp) => {
                out.push((p.0, resp));
                proof {
                    assert(spec_successes(whole) =~= out@ + spec_successes(
                        whole.skip(taken as int + 1),
                    ));
                }
            },
            None => {
                proof {
                    assert(spec_successes(whole) =~= out@ + spec_successes(
                        whole.skip(taken as int + 1),
                    ));
                }
            },
        }
        taken += 1;
    }
    proof {
        assert(whole.skip(taken as int) =~= Seq::<(SocketAddr, Option<StatusResponse>)>::empty());
        assert(out@ =~= spec_successes(whole));
    }
    out
}

} // verus!
