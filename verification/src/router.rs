//! Where a connection goes when it has just authenticated.

use vstd::prelude::*;

use crate::host::{ConnectionId, ShardId};
use crate::text::optional;

verus! {

/// What is known of a connection when it must be routed: claims of the client,
/// but for the certificate, whose key it was proved to hold.
#[derive(Debug, PartialEq, Eq)]
pub struct ConnectionIdentity {
    /// The name that the client proposed.
    pub name: String,
    /// The lowercase hash of the client's certificate.
    pub certificate_hash: Option<String>,
    /// The password, an opaque credential.
    pub credential: Option<String>,
}

/// A routing verdict.
#[derive(Debug, PartialEq, Eq)]
pub enum RouteDecision {
    /// Attach to this shard, which must still exist.
    Attach(ShardId),
    /// Refuse, with a reason that the client is shown.
    Reject(String),
}

pub enum RouteDecisionModel {
    Attach(ShardId),
    Reject(Seq<char>),
}

impl View for RouteDecision {
    type V = RouteDecisionModel;

    open spec fn view(&self) -> RouteDecisionModel {
        match *self {
            RouteDecision::Attach(shard) => RouteDecisionModel::Attach(shard),
            RouteDecision::Reject(reason) => RouteDecisionModel::Reject(reason@),
        }
    }
}

/// The policy that answers "which shard?".
pub trait ConnectionRouter {
    fn route(&self, connection: ConnectionId, identity: &ConnectionIdentity) -> RouteDecision;
}

/// A router that sends everyone to the same shard.
#[derive(Debug, Clone, Copy, PartialEq, Eq, Structural)]
pub struct AlwaysAttach(pub ShardId);

impl ConnectionRouter for AlwaysAttach {
    fn route(&self, connection: ConnectionId, identity: &ConnectionIdentity) -> (decision:
        RouteDecision)
        ensures
            decision@ == RouteDecisionModel::Attach(self.0),
    {
        RouteDecision::Attach(self.0)
    }
}

/// What is asked of the server for an arriving connection.
#[derive(Debug, PartialEq, Eq)]
pub struct RouteRequest {
    pub connection: ConnectionId,
    pub credential: Option<String>,
}

/// The question that an arrival puts to the server: its connection, and its credential.
pub fn route_request(connection: ConnectionId, identity: &ConnectionIdentity) -> (request:
    RouteRequest)
    ensures
        request.connection == connection,
        optional(request.credential) == optional(identity.credential),
{
    let credential = match &identity.credential {
        Some(credential) => Some(credential.clone()),
        None => None,
    };
    RouteRequest { connection, credential }
}

/// How the server answered an arrival.
#[derive(Debug, PartialEq, Eq)]
pub enum RouteAnswer {
    /// The server stopped before it was asked, or before it answered.
    Stopped,
    Answered(Result<ShardId, String>),
}

/// The verdict on an answer. A server that does not answer lets nobody in.
pub open spec fn verdict(answer: RouteAnswer) -> RouteDecisionModel {
    match answer {
        RouteAnswer::Answered(Ok(shard)) => RouteDecisionModel::Attach(shard),
        RouteAnswer::Answered(Err(reason)) => RouteDecisionModel::Reject(reason@),
        RouteAnswer::Stopped => RouteDecisionModel::Reject(
            "the Controller service is unavailable"@,
        ),
    }
}

/// The verdict on what the server answered.
pub fn route_verdict(answer: RouteAnswer) -> (decision: RouteDecision)
    ensures
        decision@ == verdict(answer),
{
    match answer {
        RouteAnswer::Answered(Ok(shard)) => RouteDecision::Attach(shard),
        RouteAnswer::Answered(Err(reason)) => RouteDecision::Reject(reason),
        RouteAnswer::Stopped => RouteDecision::Reject(
            "the Controller service is unavailable".to_owned(),
        ),
    }
}

/// A connection gets in only where the server named a shard for it.
pub proof fn nobody_enters_unasked(answer: RouteAnswer)
    ensures
        verdict(answer) is Attach <==> answer matches RouteAnswer::Answered(Ok(_)),
{
}

/// A connection goes to the shard that the server named for it. Where the server refused,
/// the client is shown the reason that it gave.
pub proof fn a_verdict_says_what_the_server_said(shard: ShardId, reason: String)
    ensures
        verdict(RouteAnswer::Answered(Ok(shard))) == RouteDecisionModel::Attach(shard),
        verdict(RouteAnswer::Answered(Err(reason))) == RouteDecisionModel::Reject(reason@),
        verdict(RouteAnswer::Stopped) is Reject,
{
}

} // verus!
