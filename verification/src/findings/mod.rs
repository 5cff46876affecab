//! Typed findings: the one model for everything a scan surfaces, and its wire form.

use crate::duplicate::{duplicate_all, duplicate_option, Duplicate};
use crate::findings::tier::MAJOR;
use crate::json::{
    fields_model, items_model, json_model, push_field, push_item, push_optional, push_text, text_list, text_or_null, texts,
    Json, JsonModel,
};
use crate::operation::{EndpointProvenance, TypeVerdict};
use crate::text::{chars_of, copy_list, copy_option, same, text_of};
use vstd::prelude::*;

pub mod tier;

verus! {

/// The most call sites a finding carries on the wire. The finding itself keeps
/// them all.
pub const MAX_CALL_SITES: usize = 5;

/// The most characters a detail has.
pub const MAX_DETAIL_CHARS: usize = 400;

/// A text cut to at most `max` characters, with an ellipsis where there is room
/// for one.
pub open spec fn truncated(s: Seq<char>, max: nat) -> Seq<char> {
    if s.len() <= max {
        s
    } else if max <= 3 {
        s.take(max as int)
    } else {
        s.take(max - 3) + "..."@
    }
}

/// Cuts a text to at most `max` characters, at character boundaries, and marks
/// the cut with an ellipsis where `max` leaves room for one.
pub fn truncate_chars(s: &str, max: usize) -> (r: String)
    ensures
        r@ == truncated(s@, max as nat),
        r@.len() <= max,
{
    let v = chars_of(s);
    proof {
        reveal_strlit("...");
    }
    if v.len() <= max {
        return s.to_owned();
    }
    if max <= 3 {
        let cut = text_of(&v, 0, max);
        assert(v@.subrange(0, max as int) == v@.take(max as int));
        return cut;
    }
    let mut out = text_of(&v, 0, max - 3);
    assert(v@.subrange(0, max - 3) == v@.take(max - 3));
    out.append("...");
    out
}

/// Fixed per kind of finding, and stated on the wire.
#[derive(Debug, Clone, Copy, PartialEq, Eq, Structural)]
pub enum Severity {
    Risk,
    Gap,
    Advisory,
}

/// What stated a row.
#[derive(Debug, Clone, Copy, PartialEq, Eq, Structural)]
pub enum ResolutionSource {
    /// The location of a route file.
    FileBasedRoute,
    /// A member imported from another module.
    ImportedMember,
    /// A literal at the call.
    InlineLiteral,
    /// The service's own configuration.
    DeclaredOperation,
    /// The model alone.
    Model,
}

/// Which layer the rows behind a finding come from.
#[derive(Debug, Clone, Copy, PartialEq, Eq, Structural)]
pub enum EdgeSource {
    /// The source states every row.
    Fact,
    /// Some row is the model's alone.
    Candidate,
}

/// How far the type layer got on a finding's pair.
#[derive(Debug, Clone, Copy, PartialEq, Eq, Structural)]
pub enum VerdictState {
    Resolved,
    /// A verdict was attempted and not reached.
    Unresolved,
    /// No verdict applies to this kind of finding.
    NotChecked,
}

/// One repository's version of a conflicting package.
#[derive(Debug, Clone, PartialEq, Eq)]
pub struct PackageVersionRef {
    pub repo: String,
    pub version: String,
    pub source: String,
}

/// What a [`PackageVersionRef`] holds.
pub struct PackageVersionRefModel {
    pub repo: Seq<char>,
    pub version: Seq<char>,
    pub source: Seq<char>,
}

impl DeepView for PackageVersionRef {
    type V = PackageVersionRefModel;

    open spec fn deep_view(&self) -> PackageVersionRefModel {
        PackageVersionRefModel {
            repo: self.repo@,
            version: self.version@,
            source: self.source@,
        }
    }
}

impl Duplicate for PackageVersionRef {
    fn duplicate(&self) -> (r: Self) {
        PackageVersionRef {
            repo: self.repo.clone(),
            version: self.version.clone(),
            source: self.source.clone(),
        }
    }
}

/// A single finding of a scan. `method` and `path` are display labels of any
/// protocol; call sites read `file:line`.
#[derive(Debug, Clone, PartialEq, Eq)]
pub enum Finding {
    TypeMismatch { method: String, path: String, service: Option<String>, call_sites: Vec<String>, producer_type: String, consumer_type: String, detail: String, producer_provenance: EndpointProvenance, edge_source: Option<EdgeSource>, verdict_state: Option<VerdictState> },
    MethodMismatch { method: String, path: String, service: Option<String>, call_sites: Vec<String>, expected_method: String, edge_source: Option<EdgeSource>, verdict_state: Option<VerdictState> },
    MissingEndpoint { method: String, path: String, service: Option<String>, call_sites: Vec<String> },
    OrphanedEndpoint { method: String, path: String, service: Option<String>, provenance: EndpointProvenance, view_module: bool },
    EnvVarCall { method: String, path: String, env_var: String, call_sites: Vec<String> },
    DependencyConflict { package_name: String, tier: String, versions: Vec<PackageVersionRef> },
    SharedExternalContract { method: String, path: String, repos: Vec<String>, call_sites: Vec<String> },
    DegradedTypes { service: String, stage: String, detail: String },
}

/// What a [`Finding`] holds.
pub enum FindingModel {
    TypeMismatch { method: Seq<char>, path: Seq<char>, service: Option<Seq<char>>, call_sites: Seq<Seq<char>>, producer_type: Seq<char>, consumer_type: Seq<char>, detail: Seq<char>, producer_provenance: EndpointProvenance, edge_source: Option<EdgeSource>, verdict_state: Option<VerdictState> },
    MethodMismatch { method: Seq<char>, path: Seq<char>, service: Option<Seq<char>>, call_sites: Seq<Seq<char>>, expected_method: Seq<char>, edge_source: Option<EdgeSource>, verdict_state: Option<VerdictState> },
    MissingEndpoint { method: Seq<char>, path: Seq<char>, service: Option<Seq<char>>, call_sites: Seq<Seq<char>> },
    OrphanedEndpoint { method: Seq<char>, path: Seq<char>, service: Option<Seq<char>>, provenance: EndpointProvenance, view_module: bool },
    EnvVarCall { method: Seq<char>, path: Seq<char>, env_var: Seq<char>, call_sites: Seq<Seq<char>> },
    DependencyConflict { package_name: Seq<char>, tier: Seq<char>, versions: Seq<PackageVersionRefModel> },
    SharedExternalContract { method: Seq<char>, path: Seq<char>, repos: Seq<Seq<char>>, call_sites: Seq<Seq<char>> },
    DegradedTypes { service: Seq<char>, stage: Seq<char>, detail: Seq<char> },
}

impl DeepView for Finding {
    type V = FindingModel;

    open spec fn deep_view(&self) -> FindingModel {
        match self {
            Finding::TypeMismatch { method, path, service, call_sites, producer_type, consumer_type, detail, producer_provenance, edge_source, verdict_state } => FindingModel::TypeMismatch {
                method: method@,
                path: path@,
                service: service.deep_view(),
                call_sites: call_sites.deep_view(),
                producer_type: producer_type@,
                consumer_type: consumer_type@,
                detail: detail@,
                producer_provenance: *producer_provenance,
                edge_source: *edge_source,
                verdict_state: *verdict_state,
            },
            Finding::MethodMismatch { method, path, service, call_sites, expected_method, edge_source, verdict_state } => FindingModel::MethodMismatch {
                method: method@,
                path: path@,
                service: service.deep_view(),
                call_sites: call_sites.deep_view(),
                expected_method: expected_method@,
                edge_source: *edge_source,
                verdict_state: *verdict_state,
            },
            Finding::MissingEndpoint { method, path, service, call_sites } => FindingModel::MissingEndpoint {
                method: method@,
                path: path@,
                service: service.deep_view(),
                call_sites: call_sites.deep_view(),
            },
            Finding::OrphanedEndpoint { method, path, service, provenance, view_module } => FindingModel::OrphanedEndpoint {
                method: method@,
                path: path@,
                service: service.deep_view(),
                provenance: *provenance,
                view_module: *view_module,
            },
            Finding::EnvVarCall { method, path, env_var, call_sites } => FindingModel::EnvVarCall {
                method: method@,
                path: path@,
                env_var: env_var@,
                call_sites: call_sites.deep_view(),
            },
            Finding::DependencyConflict { package_name, tier, versions } => FindingModel::DependencyConflict {
                package_name: package_name@,
                tier: tier@,
                versions: versions.deep_view(),
            },
            Finding::SharedExternalContract { method, path, repos, call_sites } => FindingModel::SharedExternalContract {
                method: method@,
                path: path@,
                repos: repos.deep_view(),
                call_sites: call_sites.deep_view(),
            },
            Finding::DegradedTypes { service, stage, detail } => FindingModel::DegradedTypes {
                service: service@,
                stage: stage@,
                detail: detail@,
            },
        }
    }
}

impl Duplicate for Finding {
    fn duplicate(&self) -> (r: Self) {
        match self {
            Finding::TypeMismatch { method, path, service, call_sites, producer_type, consumer_type, detail, producer_provenance, edge_source, verdict_state } => Finding::TypeMismatch {
                method: method.clone(),
                path: path.clone(),
                service: copy_option(service),
                call_sites: copy_list(call_sites),
                producer_type: producer_type.clone(),
                consumer_type: consumer_type.clone(),
                detail: detail.clone(),
                producer_provenance: *producer_provenance,
                edge_source: *edge_source,
                verdict_state: *verdict_state,
            },
            Finding::MethodMismatch { method, path, service, call_sites, expected_method, edge_source, verdict_state } => Finding::MethodMismatch {
                method: method.clone(),
                path: path.clone(),
                service: copy_option(service),
                call_sites: copy_list(call_sites),
                expected_method: expected_method.clone(),
                edge_source: *edge_source,
                verdict_state: *verdict_state,
            },
            Finding::MissingEndpoint { method, path, service, call_sites } => Finding::MissingEndpoint {
                method: method.clone(),
                path: path.clone(),
                service: copy_option(service),
                call_sites: copy_list(call_sites),
            },
            Finding::OrphanedEndpoint { method, path, service, provenance, view_module } => Finding::OrphanedEndpoint {
                method: method.clone(),
                path: path.clone(),
                service: copy_option(service),
                provenance: *provenance,
                view_module: *view_module,
            },
            Finding::EnvVarCall { method, path, env_var, call_sites } => Finding::EnvVarCall {
                method: method.clone(),
                path: path.clone(),
                env_var: env_var.clone(),
                call_sites: copy_list(call_sites),
            },
            Finding::DependencyConflict { package_name, tier, versions } => Finding::DependencyConflict {
                package_name: package_name.clone(),
                tier: tier.clone(),
                versions: duplicate_all(versions),
            },
            Finding::SharedExternalContract { method, path, repos, call_sites } => Finding::SharedExternalContract {
                method: method.clone(),
                path: path.clone(),
                repos: copy_list(repos),
                call_sites: copy_list(call_sites),
            },
            Finding::DegradedTypes { service, stage, detail } => Finding::DegradedTypes {
                service: service.clone(),
                stage: stage.clone(),
                detail: detail.clone(),
            },
        }
    }
}

impl EdgeSource {
    /// The layer of a list of rows: a candidate as soon as one row is the
    /// model's alone, a fact when every one of at least one row is stated, and
    /// else nothing.
    pub open spec fn of_rows(sources: Seq<Option<ResolutionSource>>) -> Option<EdgeSource> {
        if exists|i: int| 0 <= i < sources.len() && #[trigger] sources[i] == Some(ResolutionSource::Model) {
            Some(EdgeSource::Candidate)
        } else if sources.len() > 0 && forall|i: int| 0 <= i < sources.len() ==> (#[trigger] sources[i]) is Some {
            Some(EdgeSource::Fact)
        } else {
            None
        }
    }

    /// What the sources of the contributing rows come to: a pairing
    /// is no better than its weakest row.
    pub fn fold(sources: &Vec<Option<ResolutionSource>>) -> (r: Option<Self>)
        ensures
            r == EdgeSource::of_rows(sources@),
    {
        let mut all_stated: bool = true;
        let mut i: usize = 0;
        while i < sources.len()
            invariant
                i <= sources.len(),
                forall|j: int| 0 <= j < i ==> #[trigger] sources@[j] != Some(ResolutionSource::Model),
                all_stated == forall|j: int| 0 <= j < i ==> (#[trigger] sources@[j]) is Some,
            decreases sources.len() - i,
        {
            match sources[i] {
                Some(ResolutionSource::Model) => {
                    assert(sources@[i as int] == Some(ResolutionSource::Model));
                    return Some(EdgeSource::Candidate);
                },
                Some(_) => {},
                None => {
                    assert(sources@[i as int] is None);
                    all_stated = false;
                },
            }
            i += 1;
        }
        if sources.len() > 0 && all_stated {
            Some(EdgeSource::Fact)
        } else {
            None
        }
    }
}

impl Finding {
    /// Producer and consumer types of one endpoint are incompatible.
    pub fn type_mismatch(method: &str, path: &str, service: Option<String>, call_sites: Vec<String>, producer_type: &str, consumer_type: &str, detail: &str) -> (r: Self)
        ensures
            r.deep_view() == (FindingModel::TypeMismatch {
                method: method@,
                path: path@,
                service: service.deep_view(),
                call_sites: call_sites.deep_view(),
                producer_type: producer_type@,
                consumer_type: consumer_type@,
                detail: truncated(detail@, MAX_DETAIL_CHARS as nat),
                producer_provenance: EndpointProvenance::Route,
                edge_source: None,
                verdict_state: None,
            }),
    {
        Finding::TypeMismatch {
            method: method.to_owned(),
            path: path.to_owned(),
            service,
            call_sites,
            producer_type: producer_type.to_owned(),
            consumer_type: consumer_type.to_owned(),
            detail: truncate_chars(detail, MAX_DETAIL_CHARS),
            producer_provenance: EndpointProvenance::Route,
            edge_source: None,
            verdict_state: None,
        }
    }

    /// A call matched a producer's path but not its method.
    pub fn method_mismatch(method: &str, path: &str, service: Option<String>, call_sites: Vec<String>, expected_method: &str) -> (r: Self)
        ensures
            r.deep_view() == (FindingModel::MethodMismatch {
                method: method@,
                path: path@,
                service: service.deep_view(),
                call_sites: call_sites.deep_view(),
                expected_method: expected_method@,
                edge_source: None,
                verdict_state: None,
            }),
    {
        Finding::MethodMismatch {
            method: method.to_owned(),
            path: path.to_owned(),
            service,
            call_sites,
            expected_method: expected_method.to_owned(),
            edge_source: None,
            verdict_state: None,
        }
    }

    /// A call without a producer in the index.
    pub fn missing_endpoint(method: &str, path: &str, service: Option<String>, call_sites: Vec<String>) -> (r: Self)
        ensures
            r.deep_view() == (FindingModel::MissingEndpoint {
                method: method@,
                path: path@,
                service: service.deep_view(),
                call_sites: call_sites.deep_view(),
            }),
    {
        Finding::MissingEndpoint {
            method: method.to_owned(),
            path: path.to_owned(),
            service,
            call_sites,
        }
    }

    /// A producer without a consumer in the index.
    pub fn orphaned_endpoint(method: &str, path: &str, service: Option<String>) -> (r: Self)
        ensures
            r.deep_view() == (FindingModel::OrphanedEndpoint {
                method: method@,
                path: path@,
                service: service.deep_view(),
                provenance: EndpointProvenance::Route,
                view_module: false,
            }),
    {
        Finding::OrphanedEndpoint {
            method: method.to_owned(),
            path: path.to_owned(),
            service,
            provenance: EndpointProvenance::Route,
            view_module: false,
        }
    }

    /// A call whose URL is built from an unclassified environment variable.
    pub fn env_var_call(method: &str, path: &str, env_var: &str, call_sites: Vec<String>) -> (r: Self)
        ensures
            r.deep_view() == (FindingModel::EnvVarCall {
                method: method@,
                path: path@,
                env_var: env_var@,
                call_sites: call_sites.deep_view(),
            }),
    {
        Finding::EnvVarCall {
            method: method.to_owned(),
            path: path.to_owned(),
            env_var: env_var.to_owned(),
            call_sites,
        }
    }

    /// One package at conflicting versions across repositories.
    pub fn dependency_conflict(package_name: &str, tier: &str, versions: Vec<PackageVersionRef>) -> (r: Self)
        ensures
            r.deep_view() == (FindingModel::DependencyConflict {
                package_name: package_name@,
                tier: tier@,
                versions: versions.deep_view(),
            }),
    {
        Finding::DependencyConflict {
            package_name: package_name.to_owned(),
            tier: tier.to_owned(),
            versions,
        }
    }

    /// Several repositories encode the same external contract.
    pub fn shared_external_contract(method: &str, path: &str, repos: Vec<String>, call_sites: Vec<String>) -> (r: Self)
        ensures
            r.deep_view() == (FindingModel::SharedExternalContract {
                method: method@,
                path: path@,
                repos: repos.deep_view(),
                call_sites: call_sites.deep_view(),
            }),
    {
        Finding::SharedExternalContract {
            method: method.to_owned(),
            path: path.to_owned(),
            repos,
            call_sites,
        }
    }

    /// Type extraction failed for a service at a stage.
    pub fn degraded_types(service: &str, stage: &str, detail: &str) -> (r: Self)
        ensures
            r.deep_view() == (FindingModel::DegradedTypes {
                service: service@,
                stage: stage@,
                detail: truncated(detail@, MAX_DETAIL_CHARS as nat),
            }),
    {
        Finding::DegradedTypes {
            service: service.to_owned(),
            stage: stage.to_owned(),
            detail: truncate_chars(detail, MAX_DETAIL_CHARS),
        }
    }

    /// The finding with the provenance of its producer; kinds without a
    /// producer side stay as they are.
    pub fn with_producer_provenance(self, producer: EndpointProvenance) -> (r: Self)
        ensures
            r.deep_view() == with_provenance(self.deep_view(), producer),
    {
        match self {
            Finding::TypeMismatch {
                method,
                path,
                service,
                call_sites,
                producer_type,
                consumer_type,
                detail,
                producer_provenance: _,
                edge_source,
                verdict_state,
            } => Finding::TypeMismatch {
                method,
                path,
                service,
                call_sites,
                producer_type,
                consumer_type,
                detail,
                producer_provenance: producer,
                edge_source,
                verdict_state,
            },
            Finding::OrphanedEndpoint { method, path, service, provenance: _, view_module } => Finding::OrphanedEndpoint {
                method,
                path,
                service,
                provenance: producer,
                view_module,
            },
            other => other,
        }
    }

    /// The finding with the layer of its rows; kinds without an edge stay as
    /// they are.
    pub fn with_edge_source(self, source: Option<EdgeSource>) -> (r: Self)
        ensures
            r.deep_view() == with_source(self.deep_view(), source),
    {
        match self {
            Finding::TypeMismatch {
                method,
                path,
                service,
                call_sites,
                producer_type,
                consumer_type,
                detail,
                producer_provenance,
                edge_source: _,
                verdict_state,
            } => Finding::TypeMismatch {
                method,
                path,
                service,
                call_sites,
                producer_type,
                consumer_type,
                detail,
                producer_provenance,
                edge_source: source,
                verdict_state,
            },
            Finding::MethodMismatch { method, path, service, call_sites, expected_method, edge_source: _, verdict_state } => {
                Finding::MethodMismatch {
                    method,
                    path,
                    service,
                    call_sites,
                    expected_method,
                    edge_source: source,
                    verdict_state,
                }
            },
            other => other,
        }
    }

    /// The finding with the state of its type verdict; kinds without a pair
    /// stay as they are.
    pub fn with_verdict_state(self, state: Option<VerdictState>) -> (r: Self)
        ensures
            r.deep_view() == with_state(self.deep_view(), state),
    {
        match self {
            Finding::TypeMismatch {
                method,
                path,
                service,
                call_sites,
                producer_type,
                consumer_type,
                detail,
                producer_provenance,
                edge_source,
                verdict_state: _,
            } => Finding::TypeMismatch {
                method,
                path,
                service,
                call_sites,
                producer_type,
                consumer_type,
                detail,
                producer_provenance,
                edge_source,
                verdict_state: state,
            },
            Finding::MethodMismatch { method, path, service, call_sites, expected_method, edge_source, verdict_state: _ } => {
                Finding::MethodMismatch {
                    method,
                    path,
                    service,
                    call_sites,
                    expected_method,
                    edge_source,
                    verdict_state: state,
                }
            },
            other => other,
        }
    }

    /// An orphaned endpoint marked as served by a module that renders a view;
    /// other kinds stay as they are.
    pub fn with_view_module(self, is_view_module: bool) -> (r: Self)
        ensures
            r.deep_view() == with_view(self.deep_view(), is_view_module),
    {
        match self {
            Finding::OrphanedEndpoint { method, path, service, provenance, view_module: _ } => Finding::OrphanedEndpoint {
                method,
                path,
                service,
                provenance,
                view_module: is_view_module,
            },
            other => other,
        }
    }

    /// The `kind` tag of the wire.
    pub fn kind(&self) -> (r: &'static str)
        ensures
            r@ == kind_of(self.deep_view()),
    {
        match self {
            Finding::TypeMismatch { .. } => "type_mismatch",
            Finding::MethodMismatch { .. } => "method_mismatch",
            Finding::MissingEndpoint { .. } => "missing_endpoint",
            Finding::OrphanedEndpoint { .. } => "orphaned_endpoint",
            Finding::EnvVarCall { .. } => "env_var_call",
            Finding::DependencyConflict { .. } => "dependency_conflict",
            Finding::SharedExternalContract { .. } => "shared_external_contract",
            Finding::DegradedTypes { .. } => "degraded_types",
        }
    }

    /// The severity, a function of the kind, and of the tier for dependency
    /// conflicts.
    pub fn severity(&self) -> (r: Severity)
        ensures
            r == severity_of(self.deep_view()),
    {
        match self {
            Finding::TypeMismatch { .. } => Severity::Risk,
            Finding::MethodMismatch { .. } => Severity::Risk,
            Finding::DegradedTypes { .. } => Severity::Risk,
            Finding::MissingEndpoint { .. } => Severity::Gap,
            Finding::OrphanedEndpoint { .. } => Severity::Gap,
            Finding::EnvVarCall { .. } => Severity::Advisory,
            Finding::SharedExternalContract { .. } => Severity::Advisory,
            Finding::DependencyConflict { tier, .. } => if same(tier.as_str(), MAJOR) {
                Severity::Gap
            } else {
                Severity::Advisory
            },
        }
    }
}

pub open spec fn with_provenance(f: FindingModel, producer: EndpointProvenance) -> FindingModel {
    match f {
        FindingModel::TypeMismatch {
            method,
            path,
            service,
            call_sites,
            producer_type,
            consumer_type,
            detail,
            producer_provenance: _,
            edge_source,
            verdict_state,
        } => FindingModel::TypeMismatch {
            method,
            path,
            service,
            call_sites,
            producer_type,
            consumer_type,
            detail,
            producer_provenance: producer,
            edge_source,
            verdict_state,
        },
        FindingModel::OrphanedEndpoint { method, path, service, provenance: _, view_module } => {
            FindingModel::OrphanedEndpoint { method, path, service, provenance: producer, view_module }
        },
        other => other,
    }
}

pub open spec fn with_source(f: FindingModel, source: Option<EdgeSource>) -> FindingModel {
    match f {
        FindingModel::TypeMismatch {
            method,
            path,
            service,
            call_sites,
            producer_type,
            consumer_type,
            detail,
            producer_provenance,
            edge_source: _,
            verdict_state,
        } => FindingModel::TypeMismatch {
            method,
            path,
            service,
            call_sites,
            producer_type,
            consumer_type,
            detail,
            producer_provenance,
            edge_source: source,
            verdict_state,
        },
        FindingModel::MethodMismatch { method, path, service, call_sites, expected_method, edge_source: _, verdict_state } => {
            FindingModel::MethodMismatch { method, path, service, call_sites, expected_method, edge_source: source, verdict_state }
        },
        other => other,
    }
}

pub open spec fn with_state(f: FindingModel, state: Option<VerdictState>) -> FindingModel {
    match f {
        FindingModel::TypeMismatch {
            method,
            path,
            service,
            call_sites,
            producer_type,
            consumer_type,
            detail,
            producer_provenance,
            edge_source,
            verdict_state: _,
        } => FindingModel::TypeMismatch {
            method,
            path,
            service,
            call_sites,
            producer_type,
            consumer_type,
            detail,
            producer_provenance,
            edge_source,
            verdict_state: state,
        },
        FindingModel::MethodMismatch { method, path, service, call_sites, expected_method, edge_source, verdict_state: _ } => {
            FindingModel::MethodMismatch { method, path, service, call_sites, expected_method, edge_source, verdict_state: state }
        },
        other => other,
    }
}

pub open spec fn with_view(f: FindingModel, is_view: bool) -> FindingModel {
    match f {
        FindingModel::OrphanedEndpoint { method, path, service, provenance, view_module: _ } => {
            FindingModel::OrphanedEndpoint { method, path, service, provenance, view_module: is_view }
        },
        other => other,
    }
}

pub open spec fn kind_of(f: FindingModel) -> Seq<char> {
    match f {
        FindingModel::TypeMismatch { .. } => "type_mismatch"@,
        FindingModel::MethodMismatch { .. } => "method_mismatch"@,
        FindingModel::MissingEndpoint { .. } => "missing_endpoint"@,
        FindingModel::OrphanedEndpoint { .. } => "orphaned_endpoint"@,
        FindingModel::EnvVarCall { .. } => "env_var_call"@,
        FindingModel::DependencyConflict { .. } => "dependency_conflict"@,
        FindingModel::SharedExternalContract { .. } => "shared_external_contract"@,
        FindingModel::DegradedTypes { .. } => "degraded_types"@,
    }
}

pub open spec fn severity_of(f: FindingModel) -> Severity {
    match f {
        FindingModel::TypeMismatch { .. } => Severity::Risk,
        FindingModel::MethodMismatch { .. } => Severity::Risk,
        FindingModel::DegradedTypes { .. } => Severity::Risk,
        FindingModel::MissingEndpoint { .. } => Severity::Gap,
        FindingModel::OrphanedEndpoint { .. } => Severity::Gap,
        FindingModel::EnvVarCall { .. } => Severity::Advisory,
        FindingModel::SharedExternalContract { .. } => Severity::Advisory,
        FindingModel::DependencyConflict { tier, .. } => if tier == MAJOR@ {
            Severity::Gap
        } else {
            Severity::Advisory
        },
    }
}

// ---------------------------------------------------------------------------
// The wire
// ---------------------------------------------------------------------------

impl Severity {
    /// The severity as the wire spells it.
    pub open spec fn wire_text(self) -> Seq<char> {
        match self {
            Severity::Risk => "risk"@,
            Severity::Gap => "gap"@,
            Severity::Advisory => "advisory"@,
        }
    }

    pub fn wire(self) -> (r: &'static str)
        ensures
            r@ == self.wire_text(),
    {
        match self {
            Severity::Risk => "risk",
            Severity::Gap => "gap",
            Severity::Advisory => "advisory",
        }
    }
}

impl EdgeSource {
    /// The source as the wire spells it.
    pub open spec fn wire_text(self) -> Seq<char> {
        match self {
            EdgeSource::Fact => "fact"@,
            EdgeSource::Candidate => "candidate"@,
        }
    }

    pub fn wire(self) -> (r: &'static str)
        ensures
            r@ == self.wire_text(),
    {
        match self {
            EdgeSource::Fact => "fact",
            EdgeSource::Candidate => "candidate",
        }
    }
}

impl VerdictState {
    /// The state as the wire spells it.
    pub open spec fn wire_text(self) -> Seq<char> {
        match self {
            VerdictState::Resolved => "resolved"@,
            VerdictState::Unresolved => "unresolved"@,
            VerdictState::NotChecked => "not_checked"@,
        }
    }

    pub fn wire(self) -> (r: &'static str)
        ensures
            r@ == self.wire_text(),
    {
        match self {
            VerdictState::Resolved => "resolved",
            VerdictState::Unresolved => "unresolved",
            VerdictState::NotChecked => "not_checked",
        }
    }
}

/// The call sites that go onto the wire: the first few.
pub open spec fn sites_on_wire(call_sites: Seq<Seq<char>>) -> JsonModel {
    texts(call_sites.take(if call_sites.len() < MAX_CALL_SITES { call_sites.len() as int } else { MAX_CALL_SITES as int }))
}

pub open spec fn version_on_wire(v: PackageVersionRefModel) -> JsonModel {
    JsonModel::Object(
        seq![
            ("repo"@, JsonModel::Text(v.repo)),
            ("version"@, JsonModel::Text(v.version)),
            ("source"@, JsonModel::Text(v.source)),
        ],
    )
}

pub open spec fn versions_on_wire(versions: Seq<PackageVersionRefModel>) -> JsonModel {
    JsonModel::List(versions.map_values(|v: PackageVersionRefModel| version_on_wire(v)))
}

/// The fields that say where a pairing comes from; an unstated one is left out.
pub open spec fn source_fields(edge_source: Option<EdgeSource>, verdict_state: Option<VerdictState>) -> Seq<(Seq<char>, JsonModel)> {
    (match edge_source {
        Some(source) => seq![("edge_source"@, JsonModel::Text(source.wire_text()))],
        None => Seq::empty(),
    }) + (match verdict_state {
        Some(state) => seq![("verdict_state"@, JsonModel::Text(state.wire_text()))],
        None => Seq::empty(),
    })
}

/// The fields of a finding behind its kind and its severity.
pub open spec fn own_fields(f: FindingModel) -> Seq<(Seq<char>, JsonModel)> {
    match f {
        FindingModel::TypeMismatch { method, path, service, call_sites, producer_type, consumer_type, detail, producer_provenance, edge_source, verdict_state } => seq![
            ("method"@, JsonModel::Text(method)),
            ("path"@, JsonModel::Text(path)),
            ("service"@, text_or_null(service)),
            ("call_sites"@, sites_on_wire(call_sites)),
            ("producer_type"@, JsonModel::Text(producer_type)),
            ("consumer_type"@, JsonModel::Text(consumer_type)),
            ("detail"@, JsonModel::Text(detail)),
            ("producer_provenance"@, JsonModel::Text(producer_provenance.wire_text())),
        ] + source_fields(edge_source, verdict_state),
        FindingModel::MethodMismatch { method, path, service, call_sites, expected_method, edge_source, verdict_state } => seq![
            ("method"@, JsonModel::Text(method)),
            ("path"@, JsonModel::Text(path)),
            ("service"@, text_or_null(service)),
            ("call_sites"@, sites_on_wire(call_sites)),
            ("expected_method"@, JsonModel::Text(expected_method)),
        ] + source_fields(edge_source, verdict_state),
        FindingModel::MissingEndpoint { method, path, service, call_sites } => seq![
            ("method"@, JsonModel::Text(method)),
            ("path"@, JsonModel::Text(path)),
            ("service"@, text_or_null(service)),
            ("call_sites"@, sites_on_wire(call_sites)),
        ],
        FindingModel::OrphanedEndpoint { method, path, service, provenance, view_module } => seq![
            ("method"@, JsonModel::Text(method)),
            ("path"@, JsonModel::Text(path)),
            ("service"@, text_or_null(service)),
            ("provenance"@, JsonModel::Text(provenance.wire_text())),
        ] + (if view_module {
            seq![("view_module"@, JsonModel::Bool(true))]
        } else {
            Seq::empty()
        }),
        FindingModel::EnvVarCall { method, path, env_var, call_sites } => seq![
            ("method"@, JsonModel::Text(method)),
            ("path"@, JsonModel::Text(path)),
            ("env_var"@, JsonModel::Text(env_var)),
            ("call_sites"@, sites_on_wire(call_sites)),
        ],
        FindingModel::DependencyConflict { package_name, tier, versions } => seq![
            ("package_name"@, JsonModel::Text(package_name)),
            ("tier"@, JsonModel::Text(tier)),
            ("versions"@, versions_on_wire(versions)),
        ],
        FindingModel::SharedExternalContract { method, path, repos, call_sites } => seq![
            ("method"@, JsonModel::Text(method)),
            ("path"@, JsonModel::Text(path)),
            ("repos"@, texts(repos)),
            ("call_sites"@, sites_on_wire(call_sites)),
        ],
        FindingModel::DegradedTypes { service, stage, detail } => seq![
            ("service"@, JsonModel::Text(service)),
            ("stage"@, JsonModel::Text(stage)),
            ("detail"@, JsonModel::Text(detail)),
        ],
    }
}

/// The fields of a finding on the wire, in order: its kind, its severity, and
/// its own.
pub open spec fn wire_fields(f: FindingModel) -> Seq<(Seq<char>, JsonModel)> {
    seq![("kind"@, JsonModel::Text(kind_of(f))), ("severity"@, JsonModel::Text(severity_of(f).wire_text()))] + own_fields(f)
}

fn push_sources(fields: &mut Vec<(String, Json)>, edge_source: Option<EdgeSource>, verdict_state: Option<VerdictState>)
    ensures
        fields_model(final(fields)@) == fields_model(old(fields)@) + source_fields(edge_source, verdict_state),
{
    let ghost before = fields_model(fields@);
    match edge_source {
        Some(source) => push_text(fields, "edge_source", source.wire()),
        None => {},
    }
    match verdict_state {
        Some(state) => push_text(fields, "verdict_state", state.wire()),
        None => {},
    }
    assert(fields_model(fields@) =~= before + source_fields(edge_source, verdict_state));
}

fn version_list(versions: &Vec<PackageVersionRef>) -> (r: Json)
    ensures
        json_model(r) == versions_on_wire(versions.deep_view()),
{
    let ghost all = versions.deep_view();
    let mut items: Vec<Json> = Vec::new();
    let mut i: usize = 0;
    assert(items_model(items@) =~= all.take(0).map_values(|v: PackageVersionRefModel| version_on_wire(v)));
    while i < versions.len()
        invariant
            i <= versions.len(),
            all == versions.deep_view(),
            items_model(items@) == all.take(i as int).map_values(|v: PackageVersionRefModel| version_on_wire(v)),
        decreases versions.len() - i,
    {
        let mut fields: Vec<(String, Json)> = Vec::new();
        push_text(&mut fields, "repo", versions[i].repo.as_str());
        push_text(&mut fields, "version", versions[i].version.as_str());
        push_text(&mut fields, "source", versions[i].source.as_str());
        assert(all[i as int] == versions@[i as int].deep_view());
        assert(fields_model(fields@) =~= version_on_wire(all[i as int])->Object_0);
        push_item(&mut items, Json::Object(fields));
        assert(all.take(i + 1) =~= all.take(i as int).push(all[i as int]));
        assert(items_model(items@) =~= all.take(i + 1).map_values(|v: PackageVersionRefModel| version_on_wire(v)));
        i += 1;
    }
    assert(all.take(all.len() as int) == all);
    Json::List(items)
}

impl Finding {
    /// The finding as the wire carries it: a JSON object with the kind and the
    /// severity first, at most a few call sites, and no unstated field.
    pub fn serialize(&self) -> (r: Json)
        ensures
            json_model(r) == JsonModel::Object(wire_fields(self.deep_view())),
    {
        let mut fields: Vec<(String, Json)> = Vec::new();
        push_text(&mut fields, "kind", self.kind());
        push_text(&mut fields, "severity", self.severity().wire());
        match self {
            Finding::TypeMismatch { method, path, service, call_sites, producer_type, consumer_type, detail, producer_provenance, edge_source, verdict_state } => {
                push_text(&mut fields, "method", method.as_str());
                push_text(&mut fields, "path", path.as_str());
                push_optional(&mut fields, "service", service);
                push_field(&mut fields, "call_sites", text_list(call_sites, MAX_CALL_SITES));
                push_text(&mut fields, "producer_type", producer_type.as_str());
                push_text(&mut fields, "consumer_type", consumer_type.as_str());
                push_text(&mut fields, "detail", detail.as_str());
                push_text(&mut fields, "producer_provenance", producer_provenance.wire());
                push_sources(&mut fields, *edge_source, *verdict_state);
            },
            Finding::MethodMismatch { method, path, service, call_sites, expected_method, edge_source, verdict_state } => {
                push_text(&mut fields, "method", method.as_str());
                push_text(&mut fields, "path", path.as_str());
                push_optional(&mut fields, "service", service);
                push_field(&mut fields, "call_sites", text_list(call_sites, MAX_CALL_SITES));
                push_text(&mut fields, "expected_method", expected_method.as_str());
                push_sources(&mut fields, *edge_source, *verdict_state);
            },
            Finding::MissingEndpoint { method, path, service, call_sites } => {
                push_text(&mut fields, "method", method.as_str());
                push_text(&mut fields, "path", path.as_str());
                push_optional(&mut fields, "service", service);
                push_field(&mut fields, "call_sites", text_list(call_sites, MAX_CALL_SITES));
            },
            Finding::OrphanedEndpoint { method, path, service, provenance, view_module } => {
                push_text(&mut fields, "method", method.as_str());
                push_text(&mut fields, "path", path.as_str());
                push_optional(&mut fields, "service", service);
                push_text(&mut fields, "provenance", provenance.wire());
                if *view_module {
                    push_field(&mut fields, "view_module", Json::Bool(true));
                }
            },
            Finding::EnvVarCall { method, path, env_var, call_sites } => {
                push_text(&mut fields, "method", method.as_str());
                push_text(&mut fields, "path", path.as_str());
                push_text(&mut fields, "env_var", env_var.as_str());
                push_field(&mut fields, "call_sites", text_list(call_sites, MAX_CALL_SITES));
            },
            Finding::DependencyConflict { package_name, tier, versions } => {
                push_text(&mut fields, "package_name", package_name.as_str());
                push_text(&mut fields, "tier", tier.as_str());
                push_field(&mut fields, "versions", version_list(versions));
            },
            Finding::SharedExternalContract { method, path, repos, call_sites } => {
                push_text(&mut fields, "method", method.as_str());
                push_text(&mut fields, "path", path.as_str());
                push_field(&mut fields, "repos", text_list(repos, repos.len()));
                assert(repos.deep_view().take(repos@.len() as int) =~= repos.deep_view());
                push_field(&mut fields, "call_sites", text_list(call_sites, MAX_CALL_SITES));
            },
            Finding::DegradedTypes { service, stage, detail } => {
                push_text(&mut fields, "service", service.as_str());
                push_text(&mut fields, "stage", stage.as_str());
                push_text(&mut fields, "detail", detail.as_str());
            },
        }
        assert(fields_model(fields@) =~= wire_fields(self.deep_view()));
        Json::Object(fields)
    }
}

// ---------------------------------------------------------------------------
// The payload
// ---------------------------------------------------------------------------

/// An endpoint in the delta of a pull request.
#[derive(Debug, Clone, PartialEq, Eq)]
pub struct EndpointRef {
    pub method: String,
    pub path: String,
    pub service: Option<String>,
}

/// What an [`EndpointRef`] holds.
pub struct EndpointRefModel {
    pub method: Seq<char>,
    pub path: Seq<char>,
    pub service: Option<Seq<char>>,
}

impl DeepView for EndpointRef {
    type V = EndpointRefModel;

    open spec fn deep_view(&self) -> EndpointRefModel {
        EndpointRefModel {
            method: self.method@,
            path: self.path@,
            service: self.service.deep_view(),
        }
    }
}

impl Duplicate for EndpointRef {
    fn duplicate(&self) -> (r: Self) {
        EndpointRef {
            method: self.method.clone(),
            path: self.path.clone(),
            service: copy_option(&self.service),
        }
    }
}

/// What a pull request changed against the last indexed state.
#[derive(Debug, Clone, PartialEq, Eq)]
pub struct PrDelta {
    pub new_endpoints: Vec<EndpointRef>,
    pub removed_endpoints: Vec<EndpointRef>,
}

/// What a [`PrDelta`] holds.
pub struct PrDeltaModel {
    pub new_endpoints: Seq<EndpointRefModel>,
    pub removed_endpoints: Seq<EndpointRefModel>,
}

impl DeepView for PrDelta {
    type V = PrDeltaModel;

    open spec fn deep_view(&self) -> PrDeltaModel {
        PrDeltaModel {
            new_endpoints: self.new_endpoints.deep_view(),
            removed_endpoints: self.removed_endpoints.deep_view(),
        }
    }
}

impl Duplicate for PrDelta {
    fn duplicate(&self) -> (r: Self) {
        PrDelta {
            new_endpoints: duplicate_all(&self.new_endpoints),
            removed_endpoints: duplicate_all(&self.removed_endpoints),
        }
    }
}

impl Default for PrDelta {
    fn default() -> (r: Self)
        ensures
            r.deep_view() == (PrDeltaModel { new_endpoints: Seq::empty(), removed_endpoints: Seq::empty() }),
    {
        let r = PrDelta { new_endpoints: Vec::new(), removed_endpoints: Vec::new() };
        assert(r.new_endpoints.deep_view() =~= Seq::<EndpointRefModel>::empty());
        assert(r.removed_endpoints.deep_view() =~= Seq::<EndpointRefModel>::empty());
        r
    }
}

impl PrDelta {
    pub fn is_empty(&self) -> (r: bool)
        ensures
            r == (self.new_endpoints@.len() == 0 && self.removed_endpoints@.len() == 0),
    {
        self.new_endpoints.len() == 0 && self.removed_endpoints.len() == 0
    }
}

/// The shape of the project: a lone repository, a monorepo, or one with peers.
#[derive(Debug, Clone, PartialEq, Eq)]
pub struct Topology {
    pub repo_name: String,
    /// More than one means a monorepo.
    pub local_service_count: usize,
    /// Other repositories indexed for the project.
    pub peer_repo_count: usize,
}

/// What a [`Topology`] holds.
pub struct TopologyModel {
    pub repo_name: Seq<char>,
    pub local_service_count: usize,
    pub peer_repo_count: usize,
}

impl DeepView for Topology {
    type V = TopologyModel;

    open spec fn deep_view(&self) -> TopologyModel {
        TopologyModel {
            repo_name: self.repo_name@,
            local_service_count: self.local_service_count,
            peer_repo_count: self.peer_repo_count,
        }
    }
}

impl Duplicate for Topology {
    fn duplicate(&self) -> (r: Self) {
        Topology {
            repo_name: self.repo_name.clone(),
            local_service_count: self.local_service_count,
            peer_repo_count: self.peer_repo_count,
        }
    }
}

/// The size of the index.
#[derive(Debug, Clone, Copy, PartialEq, Eq, Structural)]
pub struct ScanStats {
    pub endpoints: usize,
    pub calls: usize,
}

/// An endpoint that at least one call matched.
#[derive(Debug, Clone, PartialEq, Eq)]
pub struct VerifiedEndpoint {
    pub method: String,
    pub path: String,
    pub provenance: EndpointProvenance,
    pub type_verdict: Option<TypeVerdict>,
}

/// What a [`VerifiedEndpoint`] holds.
pub struct VerifiedEndpointModel {
    pub method: Seq<char>,
    pub path: Seq<char>,
    pub provenance: EndpointProvenance,
    pub type_verdict: Option<TypeVerdict>,
}

impl DeepView for VerifiedEndpoint {
    type V = VerifiedEndpointModel;

    open spec fn deep_view(&self) -> VerifiedEndpointModel {
        VerifiedEndpointModel {
            method: self.method@,
            path: self.path@,
            provenance: self.provenance,
            type_verdict: self.type_verdict,
        }
    }
}

impl Duplicate for VerifiedEndpoint {
    fn duplicate(&self) -> (r: Self) {
        VerifiedEndpoint {
            method: self.method.clone(),
            path: self.path.clone(),
            provenance: self.provenance,
            type_verdict: self.type_verdict,
        }
    }
}

/// GraphQL libraries detected against operations indexed.
#[derive(Debug, Clone, PartialEq, Eq)]
pub struct GraphqlStatus {
    pub libraries: Vec<String>,
    pub operations_indexed: bool,
}

/// What a [`GraphqlStatus`] holds.
pub struct GraphqlStatusModel {
    pub libraries: Seq<Seq<char>>,
    pub operations_indexed: bool,
}

impl DeepView for GraphqlStatus {
    type V = GraphqlStatusModel;

    open spec fn deep_view(&self) -> GraphqlStatusModel {
        GraphqlStatusModel {
            libraries: self.libraries.deep_view(),
            operations_indexed: self.operations_indexed,
        }
    }
}

impl Duplicate for GraphqlStatus {
    fn duplicate(&self) -> (r: Self) {
        GraphqlStatus {
            libraries: copy_list(&self.libraries),
            operations_indexed: self.operations_indexed,
        }
    }
}

/// The result of a pull request's scan.
#[derive(Debug, Clone, PartialEq, Eq)]
pub struct PrResultPayload {
    pub repo: String,
    pub pr_number: u64,
    pub head_sha: Option<String>,
    /// Left off the wire when absent.
    pub run_id: Option<String>,
    pub topology: Topology,
    pub stats: ScanStats,
    pub findings: Vec<Finding>,
    pub delta: Option<PrDelta>,
    pub verified: Vec<VerifiedEndpoint>,
    pub graphql: GraphqlStatus,
    /// Whether every scanned service resolved its types.
    pub has_types: bool,
}

/// What a [`PrResultPayload`] holds.
pub struct PrResultPayloadModel {
    pub repo: Seq<char>,
    pub pr_number: u64,
    pub head_sha: Option<Seq<char>>,
    pub run_id: Option<Seq<char>>,
    pub topology: TopologyModel,
    pub stats: ScanStats,
    pub findings: Seq<FindingModel>,
    pub delta: Option<PrDeltaModel>,
    pub verified: Seq<VerifiedEndpointModel>,
    pub graphql: GraphqlStatusModel,
    pub has_types: bool,
}

impl DeepView for PrResultPayload {
    type V = PrResultPayloadModel;

    open spec fn deep_view(&self) -> PrResultPayloadModel {
        PrResultPayloadModel {
            repo: self.repo@,
            pr_number: self.pr_number,
            head_sha: self.head_sha.deep_view(),
            run_id: self.run_id.deep_view(),
            topology: self.topology.deep_view(),
            stats: self.stats,
            findings: self.findings.deep_view(),
            delta: self.delta.deep_view(),
            verified: self.verified.deep_view(),
            graphql: self.graphql.deep_view(),
            has_types: self.has_types,
        }
    }
}

impl Duplicate for PrResultPayload {
    fn duplicate(&self) -> (r: Self) {
        PrResultPayload {
            repo: self.repo.clone(),
            pr_number: self.pr_number,
            head_sha: copy_option(&self.head_sha),
            run_id: copy_option(&self.run_id),
            topology: self.topology.duplicate(),
            stats: self.stats,
            findings: duplicate_all(&self.findings),
            delta: duplicate_option(&self.delta),
            verified: duplicate_all(&self.verified),
            graphql: self.graphql.duplicate(),
            has_types: self.has_types,
        }
    }
}

pub open spec fn finding_on_wire(f: FindingModel) -> JsonModel {
    JsonModel::Object(wire_fields(f))
}

/// A list of findings on the wire.
pub open spec fn findings_on_wire(list: Seq<FindingModel>) -> JsonModel {
    JsonModel::List(list.map_values(|x: FindingModel| finding_on_wire(x)))
}

pub open spec fn endpoint_on_wire(e: EndpointRefModel) -> JsonModel {
    JsonModel::Object(
        seq![
            ("method"@, JsonModel::Text(e.method)),
            ("path"@, JsonModel::Text(e.path)),
            ("service"@, text_or_null(e.service)),
        ],
    )
}

/// A list of endpoints on the wire.
pub open spec fn endpoints_on_wire(list: Seq<EndpointRefModel>) -> JsonModel {
    JsonModel::List(list.map_values(|x: EndpointRefModel| endpoint_on_wire(x)))
}

pub open spec fn delta_on_wire(delta: Option<PrDeltaModel>) -> JsonModel {
    match delta {
        Some(d) => JsonModel::Object(
            seq![
                ("new_endpoints"@, endpoints_on_wire(d.new_endpoints)),
                ("removed_endpoints"@, endpoints_on_wire(d.removed_endpoints)),
            ],
        ),
        None => JsonModel::Null,
    }
}

/// A verified endpoint on the wire; an absent verdict is left out.
pub open spec fn verified_on_wire(v: VerifiedEndpointModel) -> JsonModel {
    JsonModel::Object(
        seq![
            ("method"@, JsonModel::Text(v.method)),
            ("path"@, JsonModel::Text(v.path)),
            ("provenance"@, JsonModel::Text(v.provenance.wire_text())),
        ] + (match v.type_verdict {
            Some(verdict) => seq![("type_verdict"@, JsonModel::Text(verdict.wire_text()))],
            None => Seq::empty(),
        }),
    )
}

/// A list of verified endpoints on the wire.
pub open spec fn all_verified_on_wire(list: Seq<VerifiedEndpointModel>) -> JsonModel {
    JsonModel::List(list.map_values(|x: VerifiedEndpointModel| verified_on_wire(x)))
}

pub open spec fn topology_on_wire(t: TopologyModel) -> JsonModel {
    JsonModel::Object(
        seq![
            ("repo_name"@, JsonModel::Text(t.repo_name)),
            ("local_service_count"@, JsonModel::Number(t.local_service_count as u64)),
            ("peer_repo_count"@, JsonModel::Number(t.peer_repo_count as u64)),
        ],
    )
}

pub open spec fn stats_on_wire(s: ScanStats) -> JsonModel {
    JsonModel::Object(
        seq![
            ("endpoints"@, JsonModel::Number(s.endpoints as u64)),
            ("calls"@, JsonModel::Number(s.calls as u64)),
        ],
    )
}

pub open spec fn graphql_on_wire(g: GraphqlStatusModel) -> JsonModel {
    JsonModel::Object(
        seq![
            ("libraries"@, texts(g.libraries)),
            ("operations_indexed"@, JsonModel::Bool(g.operations_indexed)),
        ],
    )
}

/// The payload on the wire, field by field in order. An absent run id is left
/// out; an absent head or delta is null.
pub open spec fn payload_fields(p: PrResultPayloadModel) -> Seq<(Seq<char>, JsonModel)> {
    seq![
        ("repo"@, JsonModel::Text(p.repo)),
        ("pr_number"@, JsonModel::Number(p.pr_number)),
        ("head_sha"@, text_or_null(p.head_sha)),
    ] + (match p.run_id {
        Some(id) => seq![("run_id"@, JsonModel::Text(id))],
        None => Seq::empty(),
    }) + seq![
        ("topology"@, topology_on_wire(p.topology)),
        ("stats"@, stats_on_wire(p.stats)),
        ("findings"@, findings_on_wire(p.findings)),
        ("delta"@, delta_on_wire(p.delta)),
        ("verified"@, all_verified_on_wire(p.verified)),
        ("graphql"@, graphql_on_wire(p.graphql)),
        ("has_types"@, JsonModel::Bool(p.has_types)),
    ]
}

fn finding_list(list: &Vec<Finding>) -> (r: Json)
    ensures
        json_model(r) == findings_on_wire(list.deep_view()),
{
    let ghost all = list.deep_view();
    let mut items: Vec<Json> = Vec::new();
    let mut i: usize = 0;
    assert(items_model(items@) =~= all.take(0).map_values(|x: FindingModel| finding_on_wire(x)));
    while i < list.len()
        invariant
            i <= list.len(),
            all == list.deep_view(),
            items_model(items@) == all.take(i as int).map_values(|x: FindingModel| finding_on_wire(x)),
        decreases list.len() - i,
    {
        push_item(&mut items, list[i].serialize());
        assert(all[i as int] == list@[i as int].deep_view());
        assert(all.take(i + 1) =~= all.take(i as int).push(all[i as int]));
        assert(items_model(items@) =~= all.take(i + 1).map_values(|x: FindingModel| finding_on_wire(x)));
        i += 1;
    }
    assert(all.take(all.len() as int) == all);
    Json::List(items)
}

impl EndpointRef {
    pub fn serialize(&self) -> (r: Json)
        ensures
            json_model(r) == endpoint_on_wire(self.deep_view()),
    {
        let mut fields: Vec<(String, Json)> = Vec::new();
        push_text(&mut fields, "method", self.method.as_str());
        push_text(&mut fields, "path", self.path.as_str());
        push_optional(&mut fields, "service", &self.service);
        assert(fields_model(fields@) =~= endpoint_on_wire(self.deep_view())->Object_0);
        Json::Object(fields)
    }
}

fn endpoint_list(list: &Vec<EndpointRef>) -> (r: Json)
    ensures
        json_model(r) == endpoints_on_wire(list.deep_view()),
{
    let ghost all = list.deep_view();
    let mut items: Vec<Json> = Vec::new();
    let mut i: usize = 0;
    assert(items_model(items@) =~= all.take(0).map_values(|x: EndpointRefModel| endpoint_on_wire(x)));
    while i < list.len()
        invariant
            i <= list.len(),
            all == list.deep_view(),
            items_model(items@) == all.take(i as int).map_values(|x: EndpointRefModel| endpoint_on_wire(x)),
        decreases list.len() - i,
    {
        push_item(&mut items, list[i].serialize());
        assert(all[i as int] == list@[i as int].deep_view());
        assert(all.take(i + 1) =~= all.take(i as int).push(all[i as int]));
        assert(items_model(items@) =~= all.take(i + 1).map_values(|x: EndpointRefModel| endpoint_on_wire(x)));
        i += 1;
    }
    assert(all.take(all.len() as int) == all);
    Json::List(items)
}

impl VerifiedEndpoint {
    pub fn serialize(&self) -> (r: Json)
        ensures
            json_model(r) == verified_on_wire(self.deep_view()),
    {
        let mut fields: Vec<(String, Json)> = Vec::new();
        push_text(&mut fields, "method", self.method.as_str());
        push_text(&mut fields, "path", self.path.as_str());
        push_text(&mut fields, "provenance", self.provenance.wire());
        match self.type_verdict {
            Some(verdict) => push_text(&mut fields, "type_verdict", verdict.wire()),
            None => {},
        }
        assert(fields_model(fields@) =~= verified_on_wire(self.deep_view())->Object_0);
        Json::Object(fields)
    }
}

fn verified_list(list: &Vec<VerifiedEndpoint>) -> (r: Json)
    ensures
        json_model(r) == all_verified_on_wire(list.deep_view()),
{
    let ghost all = list.deep_view();
    let mut items: Vec<Json> = Vec::new();
    let mut i: usize = 0;
    assert(items_model(items@) =~= all.take(0).map_values(|x: VerifiedEndpointModel| verified_on_wire(x)));
    while i < list.len()
        invariant
            i <= list.len(),
            all == list.deep_view(),
            items_model(items@) == all.take(i as int).map_values(|x: VerifiedEndpointModel| verified_on_wire(x)),
        decreases list.len() - i,
    {
        push_item(&mut items, list[i].serialize());
        assert(all[i as int] == list@[i as int].deep_view());
        assert(all.take(i + 1) =~= all.take(i as int).push(all[i as int]));
        assert(items_model(items@) =~= all.take(i + 1).map_values(|x: VerifiedEndpointModel| verified_on_wire(x)));
        i += 1;
    }
    assert(all.take(all.len() as int) == all);
    Json::List(items)
}

impl PrDelta {
    pub fn serialize(&self) -> (r: Json)
        ensures
            json_model(r) == delta_on_wire(Some(self.deep_view())),
    {
        let mut fields: Vec<(String, Json)> = Vec::new();
        push_field(&mut fields, "new_endpoints", endpoint_list(&self.new_endpoints));
        push_field(&mut fields, "removed_endpoints", endpoint_list(&self.removed_endpoints));
        assert(fields_model(fields@) =~= delta_on_wire(Some(self.deep_view()))->Object_0);
        Json::Object(fields)
    }
}

impl Topology {
    pub fn serialize(&self) -> (r: Json)
        ensures
            json_model(r) == topology_on_wire(self.deep_view()),
    {
        let mut fields: Vec<(String, Json)> = Vec::new();
        push_text(&mut fields, "repo_name", self.repo_name.as_str());
        push_field(&mut fields, "local_service_count", Json::Number(self.local_service_count as u64));
        push_field(&mut fields, "peer_repo_count", Json::Number(self.peer_repo_count as u64));
        assert(fields_model(fields@) =~= topology_on_wire(self.deep_view())->Object_0);
        Json::Object(fields)
    }
}

impl ScanStats {
    pub fn serialize(&self) -> (r: Json)
        ensures
            json_model(r) == stats_on_wire(*self),
    {
        let mut fields: Vec<(String, Json)> = Vec::new();
        push_field(&mut fields, "endpoints", Json::Number(self.endpoints as u64));
        push_field(&mut fields, "calls", Json::Number(self.calls as u64));
        assert(fields_model(fields@) =~= stats_on_wire(*self)->Object_0);
        Json::Object(fields)
    }
}

impl GraphqlStatus {
    pub fn serialize(&self) -> (r: Json)
        ensures
            json_model(r) == graphql_on_wire(self.deep_view()),
    {
        let mut fields: Vec<(String, Json)> = Vec::new();
        push_field(&mut fields, "libraries", text_list(&self.libraries, self.libraries.len()));
        assert(self.libraries.deep_view().take(self.libraries@.len() as int) =~= self.libraries.deep_view());
        push_field(&mut fields, "operations_indexed", Json::Bool(self.operations_indexed));
        assert(fields_model(fields@) =~= graphql_on_wire(self.deep_view())->Object_0);
        Json::Object(fields)
    }
}

impl PrResultPayload {
    /// The payload as the wire carries it.
    pub fn serialize(&self) -> (r: Json)
        ensures
            json_model(r) == JsonModel::Object(payload_fields(self.deep_view())),
    {
        let mut fields: Vec<(String, Json)> = Vec::new();
        push_text(&mut fields, "repo", self.repo.as_str());
        push_field(&mut fields, "pr_number", Json::Number(self.pr_number));
        push_optional(&mut fields, "head_sha", &self.head_sha);
        match &self.run_id {
            Some(id) => push_text(&mut fields, "run_id", id.as_str()),
            None => {},
        }
        push_field(&mut fields, "topology", self.topology.serialize());
        push_field(&mut fields, "stats", self.stats.serialize());
        push_field(&mut fields, "findings", finding_list(&self.findings));
        let delta = match &self.delta {
            Some(delta) => delta.serialize(),
            None => Json::Null,
        };
        push_field(&mut fields, "delta", delta);
        push_field(&mut fields, "verified", verified_list(&self.verified));
        push_field(&mut fields, "graphql", self.graphql.serialize());
        push_field(&mut fields, "has_types", Json::Bool(self.has_types));
        assert(fields_model(fields@) =~= payload_fields(self.deep_view()));
        Json::Object(fields)
    }
}

// ---------------------------------------------------------------------------
// Laws of findings
// ---------------------------------------------------------------------------

/// A text is never longer than its cap after the cut, a text within the cap is
/// unchanged, and cutting again changes nothing.
pub proof fn cutting_is_bounded_and_stable(s: Seq<char>, max: nat)
    ensures
        truncated(s, max).len() <= max,
        s.len() <= max ==> truncated(s, max) == s,
        truncated(truncated(s, max), max) == truncated(s, max),
{
    reveal_strlit("...");
}

/// A builder states its field and nothing else: kinds without the field are
/// unchanged, and stating the same again changes nothing.
pub proof fn builders_touch_only_their_kinds(
    f: FindingModel,
    source: Option<EdgeSource>,
    state: Option<VerdictState>,
    provenance: EndpointProvenance,
    view: bool,
)
    ensures
        !(f is TypeMismatch || f is MethodMismatch) ==> with_source(f, source) == f && with_state(f, state) == f,
        !(f is TypeMismatch || f is OrphanedEndpoint) ==> with_provenance(f, provenance) == f,
        !(f is OrphanedEndpoint) ==> with_view(f, view) == f,
        with_source(with_source(f, source), source) == with_source(f, source),
        with_source(with_state(f, state), source) == with_state(with_source(f, source), state),
        kind_of(with_source(f, source)) == kind_of(f),
        severity_of(with_source(f, source)) == severity_of(f),
{
}

/// No finding puts more call sites on the wire than the cap.
pub proof fn wire_call_sites_are_capped(call_sites: Seq<Seq<char>>)
    ensures
        sites_on_wire(call_sites)->List_0.len() <= MAX_CALL_SITES,
        forall|i: int|
            0 <= i < sites_on_wire(call_sites)->List_0.len() ==> #[trigger] sites_on_wire(call_sites)->List_0[i] == JsonModel::Text(
                call_sites[i],
            ),
{
}

} // verus!
