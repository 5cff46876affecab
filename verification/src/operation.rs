//! The operations services offer and use, each under a structured key.

use crate::duplicate::Duplicate;
use crate::text::{concat, concat3, same};
use vstd::prelude::*;

verus! {

/// Which side of a socket sends an event.
#[derive(Debug, Clone, Copy, PartialEq, Eq, Structural)]
pub enum SocketDirection {
    ServerToClient,
    ClientToServer,
}

/// The root type a GraphQL field belongs to.
#[derive(Debug, Clone, Copy, PartialEq, Eq, Structural)]
pub enum GraphqlKind {
    Query,
    Mutation,
    Subscription,
}

/// The identity of an operation within its protocol.
#[derive(Debug, Clone, PartialEq, Eq)]
pub enum OperationKey {
    Http { method: String, path: String },
    Socket { event: String, direction: SocketDirection },
    Graphql { kind: GraphqlKind, field: String },
    Pubsub { topic: String },
}

/// What an [`OperationKey`] holds.
pub enum OperationKeyModel {
    Http { method: Seq<char>, path: Seq<char> },
    Socket { event: Seq<char>, direction: SocketDirection },
    Graphql { kind: GraphqlKind, field: Seq<char> },
    Pubsub { topic: Seq<char> },
}

impl DeepView for OperationKey {
    type V = OperationKeyModel;

    open spec fn deep_view(&self) -> OperationKeyModel {
        match self {
            OperationKey::Http { method, path } => OperationKeyModel::Http {
                method: method@,
                path: path@,
            },
            OperationKey::Socket { event, direction } => OperationKeyModel::Socket {
                event: event@,
                direction: *direction,
            },
            OperationKey::Graphql { kind, field } => OperationKeyModel::Graphql {
                kind: *kind,
                field: field@,
            },
            OperationKey::Pubsub { topic } => OperationKeyModel::Pubsub {
                topic: topic@,
            },
        }
    }
}

impl Duplicate for OperationKey {
    fn duplicate(&self) -> (r: Self) {
        match self {
            OperationKey::Http { method, path } => OperationKey::Http {
                method: method.clone(),
                path: path.clone(),
            },
            OperationKey::Socket { event, direction } => OperationKey::Socket {
                event: event.clone(),
                direction: *direction,
            },
            OperationKey::Graphql { kind, field } => OperationKey::Graphql {
                kind: *kind,
                field: field.clone(),
            },
            OperationKey::Pubsub { topic } => OperationKey::Pubsub {
                topic: topic.clone(),
            },
        }
    }
}


impl SocketDirection {
    pub open spec fn label_text(self) -> Seq<char> {
        match self {
            SocketDirection::ServerToClient => "SERVER->CLIENT"@,
            SocketDirection::ClientToServer => "CLIENT->SERVER"@,
        }
    }

    pub fn label(self) -> (r: &'static str)
        ensures
            r@ == self.label_text(),
    {
        match self {
            SocketDirection::ServerToClient => "SERVER->CLIENT",
            SocketDirection::ClientToServer => "CLIENT->SERVER",
        }
    }
}

impl GraphqlKind {
    pub open spec fn kind_text(self) -> Seq<char> {
        match self {
            GraphqlKind::Query => "query"@,
            GraphqlKind::Mutation => "mutation"@,
            GraphqlKind::Subscription => "subscription"@,
        }
    }

    pub fn as_str(self) -> (r: &'static str)
        ensures
            r@ == self.kind_text(),
    {
        match self {
            GraphqlKind::Query => "query",
            GraphqlKind::Mutation => "mutation",
            GraphqlKind::Subscription => "subscription",
        }
    }
}

/// A key as one text: the protocol and what identifies the operation in it.
pub open spec fn canonical_key(key: OperationKeyModel) -> Seq<char> {
    match key {
        OperationKeyModel::Http { method, path } => "http|"@ + method + "|"@ + path,
        OperationKeyModel::Socket { event, direction } => "socket|"@ + direction.label_text() + "|"@ + event,
        OperationKeyModel::Graphql { kind, field } => "graphql|"@ + kind.kind_text() + "|"@ + field,
        OperationKeyModel::Pubsub { topic } => "pubsub|"@ + topic,
    }
}

impl OperationKey {
    pub fn http(method: &str, path: &str) -> (r: OperationKey)
        ensures
            r.deep_view() == (OperationKeyModel::Http { method: method@, path: path@ }),
    {
        OperationKey::Http { method: method.to_owned(), path: path.to_owned() }
    }

    pub fn pubsub(topic: &str) -> (r: OperationKey)
        ensures
            r.deep_view() == (OperationKeyModel::Pubsub { topic: topic@ }),
    {
        OperationKey::Pubsub { topic: topic.to_owned() }
    }

    pub fn canonical(&self) -> (r: String)
        ensures
            r@ == canonical_key(self.deep_view()),
    {
        match self {
            OperationKey::Http { method, path } => {
                let mut r = concat3("http|", method.as_str(), "|");
                r.append(path.as_str());
                r
            },
            OperationKey::Socket { event, direction } => {
                let mut r = concat3("socket|", direction.label(), "|");
                r.append(event.as_str());
                r
            },
            OperationKey::Graphql { kind, field } => {
                let mut r = concat3("graphql|", kind.as_str(), "|");
                r.append(field.as_str());
                r
            },
            OperationKey::Pubsub { topic } => concat("pubsub|", topic.as_str()),
        }
    }

    /// Whether two keys name the same operation.
    pub fn same_key(&self, other: &OperationKey) -> (r: bool)
        ensures
            r == (self.deep_view() == other.deep_view()),
    {
        match (self, other) {
            (OperationKey::Http { method: m, path: p }, OperationKey::Http { method: n, path: q }) => same(
                m.as_str(),
                n.as_str(),
            ) && same(p.as_str(), q.as_str()),
            (
                OperationKey::Socket { event: e, direction: d },
                OperationKey::Socket { event: f, direction: g },
            ) => same(e.as_str(), f.as_str()) && *d == *g,
            (OperationKey::Graphql { kind: k, field: f }, OperationKey::Graphql { kind: l, field: g }) => *k == *l && same(
                f.as_str(),
                g.as_str(),
            ),
            (OperationKey::Pubsub { topic: t }, OperationKey::Pubsub { topic: u }) => same(t.as_str(), u.as_str()),
            _ => false,
        }
    }
}

/// Whether an endpoint is a real route or a handler of a mock or a test.
#[derive(Debug, Clone, Copy, PartialEq, Eq, Structural)]
pub enum EndpointProvenance {
    Route,
    Mock,
}

impl Default for EndpointProvenance {
    fn default() -> (r: Self)
        ensures
            r == EndpointProvenance::Route,
    {
        EndpointProvenance::Route
    }
}

impl EndpointProvenance {
    /// The provenance as the wire spells it.
    pub open spec fn wire_text(self) -> Seq<char> {
        match self {
            EndpointProvenance::Route => "route"@,
            EndpointProvenance::Mock => "mock"@,
        }
    }

    pub fn wire(self) -> (r: &'static str)
        ensures
            r@ == self.wire_text(),
    {
        match self {
            EndpointProvenance::Route => "route",
            EndpointProvenance::Mock => "mock",
        }
    }
}

/// The verdict on the types of an endpoint.
#[derive(Debug, Clone, Copy, PartialEq, Eq, Structural)]
pub enum TypeVerdict {
    Compatible,
    Incompatible,
    Unverifiable,
}

impl TypeVerdict {
    /// The verdict as the wire spells it.
    pub open spec fn wire_text(self) -> Seq<char> {
        match self {
            TypeVerdict::Compatible => "compatible"@,
            TypeVerdict::Incompatible => "incompatible"@,
            TypeVerdict::Unverifiable => "unverifiable"@,
        }
    }

    pub fn wire(self) -> (r: &'static str)
        ensures
            r@ == self.wire_text(),
    {
        match self {
            TypeVerdict::Compatible => "compatible",
            TypeVerdict::Incompatible => "incompatible",
            TypeVerdict::Unverifiable => "unverifiable",
        }
    }
}

} // verus!
