//! The routes that a service serves, as a scan resolved them.

use crate::dispatch::{Dispatch, DispatchModel};
use crate::duplicate::{duplicate_option, Duplicate};
use crate::findings::ResolutionSource;
use crate::operation::EndpointProvenance;
use crate::text::{copy_list, copy_option};
use vstd::prelude::*;

verus! {

/// What a row is evidence of.
#[derive(Debug, Clone, Copy, PartialEq, Eq, Structural)]
pub enum MatchEvidence {
    /// A route that the service serves.
    RouteDefinition,
    /// A request that the service makes.
    CallSite,
}

/// One operation that a service serves.
#[derive(Debug, Clone, PartialEq, Eq)]
pub struct ResolvedEndpoint {
    pub method: String,
    pub path: String,
    pub full_path: String,
    pub handler: Option<String>,
    pub owner: String,
    pub file_location: String,
    pub middleware_chain: Vec<String>,
    pub repo_name: Option<String>,
    pub service_name: Option<String>,
    pub provenance: EndpointProvenance,
    pub evidence: MatchEvidence,
    pub resolution_source: Option<ResolutionSource>,
    pub view_module: bool,
    pub dispatch: Option<Dispatch>,
}

/// What a [`ResolvedEndpoint`] holds.
pub struct ResolvedEndpointModel {
    pub method: Seq<char>,
    pub path: Seq<char>,
    pub full_path: Seq<char>,
    pub handler: Option<Seq<char>>,
    pub owner: Seq<char>,
    pub file_location: Seq<char>,
    pub middleware_chain: Seq<Seq<char>>,
    pub repo_name: Option<Seq<char>>,
    pub service_name: Option<Seq<char>>,
    pub provenance: EndpointProvenance,
    pub evidence: MatchEvidence,
    pub resolution_source: Option<ResolutionSource>,
    pub view_module: bool,
    pub dispatch: Option<DispatchModel>,
}

impl DeepView for ResolvedEndpoint {
    type V = ResolvedEndpointModel;

    open spec fn deep_view(&self) -> ResolvedEndpointModel {
        ResolvedEndpointModel {
            method: self.method@,
            path: self.path@,
            full_path: self.full_path@,
            handler: self.handler.deep_view(),
            owner: self.owner@,
            file_location: self.file_location@,
            middleware_chain: self.middleware_chain.deep_view(),
            repo_name: self.repo_name.deep_view(),
            service_name: self.service_name.deep_view(),
            provenance: self.provenance,
            evidence: self.evidence,
            resolution_source: self.resolution_source,
            view_module: self.view_module,
            dispatch: self.dispatch.deep_view(),
        }
    }
}

impl Duplicate for ResolvedEndpoint {
    fn duplicate(&self) -> (r: Self) {
        ResolvedEndpoint {
            method: self.method.clone(),
            path: self.path.clone(),
            full_path: self.full_path.clone(),
            handler: copy_option(&self.handler),
            owner: self.owner.clone(),
            file_location: self.file_location.clone(),
            middleware_chain: copy_list(&self.middleware_chain),
            repo_name: copy_option(&self.repo_name),
            service_name: copy_option(&self.service_name),
            provenance: self.provenance,
            evidence: self.evidence,
            resolution_source: self.resolution_source,
            view_module: self.view_module,
            dispatch: duplicate_option(&self.dispatch),
        }
    }
}

/// A request that a service makes.
#[derive(Debug, Clone, PartialEq, Eq)]
pub struct DataFetchingCall {
    pub method: String,
    /// The address as it is written.
    pub target_url: String,
    /// The key by which requests and routes are matched.
    pub canonical_path: String,
    pub client: String,
    /// The file and the line, with a colon between them.
    pub file_location: String,
    pub call_kind: Option<String>,
    pub repo_name: Option<String>,
    pub service_name: Option<String>,
    /// The host of an address that spells one out.
    pub host: Option<String>,
    pub line: Option<u32>,
}

/// What a [`DataFetchingCall`] holds.
pub struct DataFetchingCallModel {
    pub method: Seq<char>,
    pub target_url: Seq<char>,
    pub canonical_path: Seq<char>,
    pub client: Seq<char>,
    pub file_location: Seq<char>,
    pub call_kind: Option<Seq<char>>,
    pub repo_name: Option<Seq<char>>,
    pub service_name: Option<Seq<char>>,
    pub host: Option<Seq<char>>,
    pub line: Option<u32>,
}

impl DeepView for DataFetchingCall {
    type V = DataFetchingCallModel;

    open spec fn deep_view(&self) -> DataFetchingCallModel {
        DataFetchingCallModel {
            method: self.method@,
            target_url: self.target_url@,
            canonical_path: self.canonical_path@,
            client: self.client@,
            file_location: self.file_location@,
            call_kind: self.call_kind.deep_view(),
            repo_name: self.repo_name.deep_view(),
            service_name: self.service_name.deep_view(),
            host: self.host.deep_view(),
            line: self.line,
        }
    }
}

impl Duplicate for DataFetchingCall {
    fn duplicate(&self) -> (r: Self) {
        DataFetchingCall {
            method: self.method.clone(),
            target_url: self.target_url.clone(),
            canonical_path: self.canonical_path.clone(),
            client: self.client.clone(),
            file_location: self.file_location.clone(),
            call_kind: copy_option(&self.call_kind),
            repo_name: copy_option(&self.repo_name),
            service_name: copy_option(&self.service_name),
            host: copy_option(&self.host),
            line: self.line,
        }
    }
}

/// The operations of one scan.
pub struct MountGraph {
    pub endpoints: Vec<ResolvedEndpoint>,
}

impl MountGraph {
    pub fn new() -> (r: Self)
        ensures
            r.endpoints@.len() == 0,
    {
        MountGraph { endpoints: Vec::new() }
    }
}

} // verus!
