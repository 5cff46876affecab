//! What a finding says on the wire.

use crate::findings::{
    all_verified_on_wire, delta_on_wire, endpoint_on_wire, endpoints_on_wire, finding_on_wire, findings_on_wire,
    graphql_on_wire, kind_of, own_fields, payload_fields, severity_of, sites_on_wire, source_fields, stats_on_wire,
    topology_on_wire, truncated, verified_on_wire, versions_on_wire, wire_fields, with_provenance, with_source,
    with_state, with_view, EdgeSource, EndpointRefModel, FindingModel, PackageVersionRefModel,
    PrResultPayloadModel, ResolutionSource, Severity, VerdictState, VerifiedEndpointModel, MAX_CALL_SITES,
};
use crate::json::{texts, JsonModel};
use crate::operation::EndpointProvenance;
use vstd::prelude::*;

verus! {

/// A field of this name holds this.
pub open spec fn has_field(fields: Seq<(Seq<char>, JsonModel)>, name: Seq<char>, value: JsonModel) -> bool {
    exists|i: int| 0 <= i < fields.len() && (#[trigger] fields[i]).0 == name && fields[i].1 == value
}

/// The field holds a list of these texts, in order.
pub open spec fn lists_texts(fields: Seq<(Seq<char>, JsonModel)>, name: Seq<char>, said: Seq<Seq<char>>) -> bool {
    exists|i: int|
        0 <= i < fields.len() && (#[trigger] fields[i]).0 == name && (fields[i].1 matches JsonModel::List(items) && items.len()
            == said.len() && forall|k: int| 0 <= k < said.len() ==> #[trigger] items[k] == JsonModel::Text(said[k]))
}

/// The call sites are listed, as many as may be.
pub open spec fn lists_sites(fields: Seq<(Seq<char>, JsonModel)>, call_sites: Seq<Seq<char>>) -> bool {
    if call_sites.len() <= MAX_CALL_SITES {
        lists_texts(fields, "call_sites"@, call_sites)
    } else {
        lists_texts(fields, "call_sites"@, call_sites.take(MAX_CALL_SITES as int))
    }
}

/// The field holds a version for each, in order.
pub open spec fn lists_versions(fields: Seq<(Seq<char>, JsonModel)>, versions: Seq<PackageVersionRefModel>) -> bool {
    exists|i: int|
        0 <= i < fields.len() && (#[trigger] fields[i]).0 == "versions"@ && (fields[i].1 matches JsonModel::List(items)
            && items.len() == versions.len() && forall|k: int|
            0 <= k < versions.len() ==> (#[trigger] items[k] matches JsonModel::Object(members) && has_field(
                members,
                "repo"@,
                JsonModel::Text(versions[k].repo),
            ) && has_field(members, "version"@, JsonModel::Text(versions[k].version)) && has_field(
                members,
                "source"@,
                JsonModel::Text(versions[k].source),
            )))
}

/// The layer and the state of a pairing are stated where they are known, and left
/// out where they are not.
pub open spec fn states_sources(
    fields: Seq<(Seq<char>, JsonModel)>,
    edge_source: Option<EdgeSource>,
    verdict_state: Option<VerdictState>,
) -> bool {
    &&& edge_source matches Some(source) ==> has_field(fields, "edge_source"@, JsonModel::Text(source.wire_text()))
    &&& verdict_state matches Some(state) ==> has_field(fields, "verdict_state"@, JsonModel::Text(state.wire_text()))
}

proof fn a_field_is_there(fields: Seq<(Seq<char>, JsonModel)>, i: int)
    requires
        0 <= i < fields.len(),
    ensures
        has_field(fields, fields[i].0, fields[i].1),
{
}

proof fn texts_are_listed(fields: Seq<(Seq<char>, JsonModel)>, i: int, said: Seq<Seq<char>>)
    requires
        0 <= i < fields.len(),
        fields[i].1 == texts(said),
    ensures
        lists_texts(fields, fields[i].0, said),
{
    assert(fields[i].1->List_0.len() == said.len());
}

proof fn sites_are_listed(fields: Seq<(Seq<char>, JsonModel)>, i: int, call_sites: Seq<Seq<char>>)
    requires
        0 <= i < fields.len(),
        fields[i].0 == "call_sites"@,
        fields[i].1 == sites_on_wire(call_sites),
    ensures
        lists_sites(fields, call_sites),
{
    if call_sites.len() <= MAX_CALL_SITES {
        assert(call_sites.take(call_sites.len() as int) =~= call_sites);
        texts_are_listed(fields, i, call_sites);
    } else {
        texts_are_listed(fields, i, call_sites.take(MAX_CALL_SITES as int));
    }
}

proof fn versions_are_listed(fields: Seq<(Seq<char>, JsonModel)>, i: int, versions: Seq<PackageVersionRefModel>)
    requires
        0 <= i < fields.len(),
        fields[i].0 == "versions"@,
        fields[i].1 == versions_on_wire(versions),
    ensures
        lists_versions(fields, versions),
{
    let items = fields[i].1->List_0;
    assert forall|k: int| 0 <= k < versions.len() implies (#[trigger] items[k] matches JsonModel::Object(members) && has_field(
        members,
        "repo"@,
        JsonModel::Text(versions[k].repo),
    ) && has_field(members, "version"@, JsonModel::Text(versions[k].version)) && has_field(
        members,
        "source"@,
        JsonModel::Text(versions[k].source),
    )) by {
        let members = items[k]->Object_0;
        a_field_is_there(members, 0);
        a_field_is_there(members, 1);
        a_field_is_there(members, 2);
    }
}

proof fn sources_are_stated(
    head: Seq<(Seq<char>, JsonModel)>,
    edge_source: Option<EdgeSource>,
    verdict_state: Option<VerdictState>,
)
    ensures
        states_sources(head + source_fields(edge_source, verdict_state), edge_source, verdict_state),
{
    let fields = head + source_fields(edge_source, verdict_state);
    let n = head.len() as int;
    if edge_source is Some {
        a_field_is_there(fields, n);
        if verdict_state is Some {
            a_field_is_there(fields, n + 1);
        }
    } else if verdict_state is Some {
        a_field_is_there(fields, n);
    }
}

/// Every finding says on the wire what it is and all that it holds, each under
/// its own name.
pub proof fn a_finding_says_all_it_holds(f: FindingModel)
    ensures
        finding_on_wire(f) matches JsonModel::Object(fields) && {
            &&& has_field(fields, "kind"@, JsonModel::Text(kind_of(f)))
            &&& has_field(fields, "severity"@, JsonModel::Text(severity_of(f).wire_text()))
            &&& match f {
                FindingModel::TypeMismatch { method, path, service, call_sites, producer_type, consumer_type, detail, producer_provenance, edge_source, verdict_state } => {
                    &&& has_field(fields, "method"@, JsonModel::Text(method))
                    &&& has_field(fields, "path"@, JsonModel::Text(path))
                    &&& (service matches Some(said) ==> has_field(fields, "service"@, JsonModel::Text(said))) && (service is None ==> has_field(fields, "service"@, JsonModel::Null))
                    &&& lists_sites(fields, call_sites)
                    &&& has_field(fields, "producer_type"@, JsonModel::Text(producer_type))
                    &&& has_field(fields, "consumer_type"@, JsonModel::Text(consumer_type))
                    &&& has_field(fields, "detail"@, JsonModel::Text(detail))
                    &&& has_field(fields, "producer_provenance"@, JsonModel::Text(producer_provenance.wire_text()))
                    &&& states_sources(fields, edge_source, verdict_state)
                },
                FindingModel::MethodMismatch { method, path, service, call_sites, expected_method, edge_source, verdict_state } => {
                    &&& has_field(fields, "method"@, JsonModel::Text(method))
                    &&& has_field(fields, "path"@, JsonModel::Text(path))
                    &&& (service matches Some(said) ==> has_field(fields, "service"@, JsonModel::Text(said))) && (service is None ==> has_field(fields, "service"@, JsonModel::Null))
                    &&& lists_sites(fields, call_sites)
                    &&& has_field(fields, "expected_method"@, JsonModel::Text(expected_method))
                    &&& states_sources(fields, edge_source, verdict_state)
                },
                FindingModel::MissingEndpoint { method, path, service, call_sites } => {
                    &&& has_field(fields, "method"@, JsonModel::Text(method))
                    &&& has_field(fields, "path"@, JsonModel::Text(path))
                    &&& (service matches Some(said) ==> has_field(fields, "service"@, JsonModel::Text(said))) && (service is None ==> has_field(fields, "service"@, JsonModel::Null))
                    &&& lists_sites(fields, call_sites)
                },
                FindingModel::OrphanedEndpoint { method, path, service, provenance, view_module } => {
                    &&& has_field(fields, "method"@, JsonModel::Text(method))
                    &&& has_field(fields, "path"@, JsonModel::Text(path))
                    &&& (service matches Some(said) ==> has_field(fields, "service"@, JsonModel::Text(said))) && (service is None ==> has_field(fields, "service"@, JsonModel::Null))
                    &&& has_field(fields, "provenance"@, JsonModel::Text(provenance.wire_text()))
                    &&& view_module ==> has_field(fields, "view_module"@, JsonModel::Bool(true))
                },
                FindingModel::EnvVarCall { method, path, env_var, call_sites } => {
                    &&& has_field(fields, "method"@, JsonModel::Text(method))
                    &&& has_field(fields, "path"@, JsonModel::Text(path))
                    &&& has_field(fields, "env_var"@, JsonModel::Text(env_var))
                    &&& lists_sites(fields, call_sites)
                },
                FindingModel::SharedExternalContract { method, path, repos, call_sites } => {
                    &&& has_field(fields, "method"@, JsonModel::Text(method))
                    &&& has_field(fields, "path"@, JsonModel::Text(path))
                    &&& lists_texts(fields, "repos"@, repos)
                    &&& lists_sites(fields, call_sites)
                },
                FindingModel::DegradedTypes { service, stage, detail } => {
                    &&& has_field(fields, "service"@, JsonModel::Text(service))
                    &&& has_field(fields, "stage"@, JsonModel::Text(stage))
                    &&& has_field(fields, "detail"@, JsonModel::Text(detail))
                },
                FindingModel::DependencyConflict { package_name, tier, versions } => {
                    &&& has_field(fields, "package_name"@, JsonModel::Text(package_name))
                    &&& has_field(fields, "tier"@, JsonModel::Text(tier))
                    &&& lists_versions(fields, versions)
                },
            }
        },
{
    let fields = wire_fields(f);
    let own = own_fields(f);
    let head = seq![("kind"@, JsonModel::Text(kind_of(f))), ("severity"@, JsonModel::Text(severity_of(f).wire_text()))];
    assert(fields == head + own);
    a_field_is_there(fields, 0);
    a_field_is_there(fields, 1);
    match f {
        FindingModel::TypeMismatch { method, path, service, call_sites, producer_type, consumer_type, detail, producer_provenance, edge_source, verdict_state } => {
            a_field_is_there(fields, 2);
            a_field_is_there(fields, 3);
            a_field_is_there(fields, 4);
            sites_are_listed(fields, 5, call_sites);
            a_field_is_there(fields, 6);
            a_field_is_there(fields, 7);
            a_field_is_there(fields, 8);
            a_field_is_there(fields, 9);
            let first = fields.take(10);
            assert(fields =~= first + source_fields(edge_source, verdict_state));
            sources_are_stated(first, edge_source, verdict_state);
        },
        FindingModel::MethodMismatch { method, path, service, call_sites, expected_method, edge_source, verdict_state } => {
            a_field_is_there(fields, 2);
            a_field_is_there(fields, 3);
            a_field_is_there(fields, 4);
            sites_are_listed(fields, 5, call_sites);
            a_field_is_there(fields, 6);
            let first = fields.take(7);
            assert(fields =~= first + source_fields(edge_source, verdict_state));
            sources_are_stated(first, edge_source, verdict_state);
        },
        FindingModel::MissingEndpoint { method, path, service, call_sites } => {
            a_field_is_there(fields, 2);
            a_field_is_there(fields, 3);
            a_field_is_there(fields, 4);
            sites_are_listed(fields, 5, call_sites);
        },
        FindingModel::OrphanedEndpoint { method, path, service, provenance, view_module } => {
            a_field_is_there(fields, 2);
            a_field_is_there(fields, 3);
            a_field_is_there(fields, 4);
            a_field_is_there(fields, 5);
            if view_module {
                a_field_is_there(fields, 6);
            }
        },
        FindingModel::EnvVarCall { method, path, env_var, call_sites } => {
            a_field_is_there(fields, 2);
            a_field_is_there(fields, 3);
            a_field_is_there(fields, 4);
            sites_are_listed(fields, 5, call_sites);
        },
        FindingModel::SharedExternalContract { method, path, repos, call_sites } => {
            a_field_is_there(fields, 2);
            a_field_is_there(fields, 3);
            texts_are_listed(fields, 4, repos);
            sites_are_listed(fields, 5, call_sites);
        },
        FindingModel::DegradedTypes { service, stage, detail } => {
            a_field_is_there(fields, 2);
            a_field_is_there(fields, 3);
            a_field_is_there(fields, 4);
        },
        FindingModel::DependencyConflict { package_name, tier, versions } => {
            a_field_is_there(fields, 2);
            a_field_is_there(fields, 3);
            versions_are_listed(fields, 4, versions);
        },
    }
}

/// A pairing is a risk, what is missing on one side is a gap, and what is only
/// worth knowing is advice. Versions conflict as a gap where a major version
/// differs.
pub proof fn how_severe_a_finding_is(f: FindingModel)
    ensures
        severity_of(f) == Severity::Risk <==> f is TypeMismatch || f is MethodMismatch || f is DegradedTypes,
        f is MissingEndpoint || f is OrphanedEndpoint ==> severity_of(f) == Severity::Gap,
        f is EnvVarCall || f is SharedExternalContract ==> severity_of(f) == Severity::Advisory,
        f is DependencyConflict ==> (severity_of(f) == Severity::Gap <==> f->tier == "major"@),
{
}

// ---------------------------------------------------------------------------
// Payloads
// ---------------------------------------------------------------------------

/// An endpoint is said with its method, its path and its service.
pub open spec fn says_endpoint(said: JsonModel, endpoint: EndpointRefModel) -> bool {
    said matches JsonModel::Object(fields) && {
        &&& has_field(fields, "method"@, JsonModel::Text(endpoint.method))
        &&& has_field(fields, "path"@, JsonModel::Text(endpoint.path))
        &&& endpoint.service matches Some(service) ==> has_field(fields, "service"@, JsonModel::Text(service))
        &&& endpoint.service is None ==> has_field(fields, "service"@, JsonModel::Null)
    }
}

/// A verified endpoint is said with its method, its path, where it comes from
/// and its verdict, where it has one.
pub open spec fn says_verified(said: JsonModel, endpoint: VerifiedEndpointModel) -> bool {
    said matches JsonModel::Object(fields) && {
        &&& has_field(fields, "method"@, JsonModel::Text(endpoint.method))
        &&& has_field(fields, "path"@, JsonModel::Text(endpoint.path))
        &&& has_field(fields, "provenance"@, JsonModel::Text(endpoint.provenance.wire_text()))
        &&& endpoint.type_verdict matches Some(verdict) ==> has_field(
            fields,
            "type_verdict"@,
            JsonModel::Text(verdict.wire_text()),
        )
    }
}

/// A list says its endpoints, each in its place.
pub open spec fn says_endpoints(said: JsonModel, endpoints: Seq<EndpointRefModel>) -> bool {
    said matches JsonModel::List(items) && items.len() == endpoints.len() && forall|i: int|
        0 <= i < endpoints.len() ==> says_endpoint(#[trigger] items[i], endpoints[i])
}

pub open spec fn is_said(fields: Seq<(Seq<char>, JsonModel)>, name: Seq<char>, said: JsonModel) -> bool {
    has_field(fields, name, said)
}

proof fn an_endpoint_is_said(endpoint: EndpointRefModel)
    ensures
        says_endpoint(endpoint_on_wire(endpoint), endpoint),
{
    let fields = endpoint_on_wire(endpoint)->Object_0;
    assert(fields[0].0 == "method"@);
    assert(fields[1].0 == "path"@);
    assert(fields[2].0 == "service"@);
}

proof fn endpoints_are_said(endpoints: Seq<EndpointRefModel>)
    ensures
        says_endpoints(endpoints_on_wire(endpoints), endpoints),
{
    let items = endpoints_on_wire(endpoints)->List_0;
    assert forall|i: int| 0 <= i < endpoints.len() implies says_endpoint(#[trigger] items[i], endpoints[i]) by {
        an_endpoint_is_said(endpoints[i]);
        assert(items[i] == endpoint_on_wire(endpoints[i]));
    }
}

proof fn a_verified_endpoint_is_said(endpoint: VerifiedEndpointModel)
    ensures
        says_verified(verified_on_wire(endpoint), endpoint),
{
    let fields = verified_on_wire(endpoint)->Object_0;
    assert(fields[0].0 == "method"@);
    assert(fields[1].0 == "path"@);
    assert(fields[2].0 == "provenance"@);
    if endpoint.type_verdict is Some {
        assert(fields[3].0 == "type_verdict"@);
    }
}

/// A payload says all that it holds, each under its own name: the repository and
/// the change, how large the project is, how much was scanned, every finding and
/// every verified endpoint in order, what came and went, and the rest.
pub proof fn a_payload_says_all_it_holds(payload: PrResultPayloadModel)
    ensures
        ({
            let fields = payload_fields(payload);
            &&& has_field(fields, "repo"@, JsonModel::Text(payload.repo))
            &&& has_field(fields, "pr_number"@, JsonModel::Number(payload.pr_number))
            &&& payload.head_sha matches Some(sha) ==> has_field(fields, "head_sha"@, JsonModel::Text(sha))
            &&& payload.head_sha is None ==> has_field(fields, "head_sha"@, JsonModel::Null)
            &&& payload.run_id matches Some(id) ==> has_field(fields, "run_id"@, JsonModel::Text(id))
            &&& has_field(fields, "has_types"@, JsonModel::Bool(payload.has_types))
            &&& exists|said: JsonModel| #[trigger]
                is_said(fields, "topology"@, said) && (said matches JsonModel::Object(members) && has_field(
                    members,
                    "repo_name"@,
                    JsonModel::Text(payload.topology.repo_name),
                ) && has_field(members, "local_service_count"@, JsonModel::Number(payload.topology.local_service_count as u64))
                    && has_field(members, "peer_repo_count"@, JsonModel::Number(payload.topology.peer_repo_count as u64)))
            &&& exists|said: JsonModel| #[trigger]
                is_said(fields, "stats"@, said) && (said matches JsonModel::Object(members) && has_field(
                    members,
                    "endpoints"@,
                    JsonModel::Number(payload.stats.endpoints as u64),
                ) && has_field(members, "calls"@, JsonModel::Number(payload.stats.calls as u64)))
            &&& exists|said: JsonModel| #[trigger]
                is_said(fields, "findings"@, said) && (said matches JsonModel::List(items) && items.len()
                    == payload.findings.len() && forall|i: int|
                    0 <= i < items.len() ==> #[trigger] items[i] == finding_on_wire(payload.findings[i]))
            &&& exists|said: JsonModel| #[trigger]
                is_said(fields, "verified"@, said) && (said matches JsonModel::List(items) && items.len()
                    == payload.verified.len() && forall|i: int|
                    0 <= i < items.len() ==> says_verified(#[trigger] items[i], payload.verified[i]))
            &&& payload.delta is None ==> has_field(fields, "delta"@, JsonModel::Null)
            &&& payload.delta matches Some(delta) ==> exists|said: JsonModel| #[trigger]
                is_said(fields, "delta"@, said) && (said matches JsonModel::Object(members) && (exists|new: JsonModel| #[trigger]
                    is_said(members, "new_endpoints"@, new) && says_endpoints(new, delta.new_endpoints)) && (exists|gone: JsonModel| #[trigger]
                    is_said(members, "removed_endpoints"@, gone) && says_endpoints(gone, delta.removed_endpoints)))
            &&& exists|said: JsonModel| #[trigger]
                is_said(fields, "graphql"@, said) && (said matches JsonModel::Object(members) && lists_texts(
                    members,
                    "libraries"@,
                    payload.graphql.libraries,
                ) && has_field(members, "operations_indexed"@, JsonModel::Bool(payload.graphql.operations_indexed)))
        }),
{
    let fields = payload_fields(payload);
    let at: int = if payload.run_id is Some {
        4
    } else {
        3
    };
    assert(fields[0].0 == "repo"@);
    assert(fields[1].0 == "pr_number"@);
    assert(fields[2].0 == "head_sha"@);
    if payload.run_id is Some {
        assert(fields[3].0 == "run_id"@);
    }
    let topology = topology_on_wire(payload.topology);
    assert(fields[at] == ("topology"@, topology));
    assert(is_said(fields, "topology"@, topology));
    assert(topology->Object_0[0].0 == "repo_name"@);
    assert(topology->Object_0[1].0 == "local_service_count"@);
    assert(topology->Object_0[2].0 == "peer_repo_count"@);
    let stats = stats_on_wire(payload.stats);
    assert(fields[at + 1] == ("stats"@, stats));
    assert(is_said(fields, "stats"@, stats));
    assert(stats->Object_0[0].0 == "endpoints"@);
    assert(stats->Object_0[1].0 == "calls"@);
    let findings = findings_on_wire(payload.findings);
    assert(fields[at + 2] == ("findings"@, findings));
    assert(is_said(fields, "findings"@, findings));
    let delta = delta_on_wire(payload.delta);
    assert(fields[at + 3] == ("delta"@, delta));
    assert(is_said(fields, "delta"@, delta));
    match payload.delta {
        Some(d) => {
            endpoints_are_said(d.new_endpoints);
            endpoints_are_said(d.removed_endpoints);
            let members = delta->Object_0;
            assert(members[0] == ("new_endpoints"@, endpoints_on_wire(d.new_endpoints)));
            assert(members[1] == ("removed_endpoints"@, endpoints_on_wire(d.removed_endpoints)));
            assert(is_said(members, "new_endpoints"@, endpoints_on_wire(d.new_endpoints)));
            assert(is_said(members, "removed_endpoints"@, endpoints_on_wire(d.removed_endpoints)));
        },
        None => {},
    }
    let verified = all_verified_on_wire(payload.verified);
    assert(fields[at + 4] == ("verified"@, verified));
    assert(is_said(fields, "verified"@, verified));
    assert forall|i: int| 0 <= i < verified->List_0.len() implies says_verified(
        #[trigger] verified->List_0[i],
        payload.verified[i],
    ) by {
        a_verified_endpoint_is_said(payload.verified[i]);
    }
    let graphql = graphql_on_wire(payload.graphql);
    assert(fields[at + 5] == ("graphql"@, graphql));
    assert(is_said(fields, "graphql"@, graphql));
    assert(graphql->Object_0[0].0 == "libraries"@);
    assert(graphql->Object_0[1].0 == "operations_indexed"@);
    assert(fields[at + 6].0 == "has_types"@);
}

/// A text that is too long is cut to its beginning, with an ellipsis where one
/// has room; every text that fits is kept.
pub proof fn a_cut_text_is_its_beginning(s: Seq<char>, max: nat)
    ensures
        s.len() <= max ==> truncated(s, max) == s,
        s.len() > max ==> truncated(s, max).len() == max,
        s.len() > max && max <= 3 ==> truncated(s, max) == s.take(max as int),
        s.len() > max > 3 ==> truncated(s, max).take(max - 3) == s.take(max - 3) && truncated(s, max).skip(max - 3) == seq![
            '.',
            '.',
            '.',
        ],
{
    reveal_strlit("...");
    if s.len() > max && max > 3 {
        assert(truncated(s, max).take(max - 3) =~= s.take(max - 3));
        assert(truncated(s, max).skip(max - 3) =~= seq!['.', '.', '.']);
    }
}

/// A pairing is no better than its weakest row: one row of the model makes it a
/// candidate, and only rows that all state another source make it a fact.
pub proof fn a_pairing_is_as_good_as_its_weakest_row(sources: Seq<Option<ResolutionSource>>, i: int)
    requires
        0 <= i < sources.len(),
    ensures
        sources[i] == Some(ResolutionSource::Model) ==> EdgeSource::of_rows(sources) == Some(EdgeSource::Candidate),
        sources[i] is None ==> EdgeSource::of_rows(sources) != Some(EdgeSource::Fact),
        EdgeSource::of_rows(sources) is None ==> exists|k: int| 0 <= k < sources.len() && (#[trigger] sources[k]) is None,
        EdgeSource::of_rows(sources) == Some(EdgeSource::Candidate) ==> exists|k: int|
            0 <= k < sources.len() && #[trigger] sources[k] == Some(ResolutionSource::Model),
        EdgeSource::of_rows(Seq::empty()) is None,
{
}

/// The layer that a finding states.
pub open spec fn source_in(f: FindingModel) -> Option<EdgeSource> {
    match f {
        FindingModel::TypeMismatch { edge_source, .. } => edge_source,
        FindingModel::MethodMismatch { edge_source, .. } => edge_source,
        _ => None,
    }
}

/// The state of the verdict that a finding states.
pub open spec fn state_in(f: FindingModel) -> Option<VerdictState> {
    match f {
        FindingModel::TypeMismatch { verdict_state, .. } => verdict_state,
        FindingModel::MethodMismatch { verdict_state, .. } => verdict_state,
        _ => None,
    }
}

/// A builder states what it is given, and leaves the rest of a finding as it is.
pub proof fn a_builder_states_what_it_is_given(
    f: FindingModel,
    source: Option<EdgeSource>,
    state: Option<VerdictState>,
    provenance: EndpointProvenance,
    view: bool,
)
    ensures
        f is TypeMismatch || f is MethodMismatch ==> source_in(with_source(f, source)) == source && state_in(
            with_state(f, state),
        ) == state && state_in(with_source(f, source)) == state_in(f) && source_in(with_state(f, state)) == source_in(f),
        f is TypeMismatch ==> with_provenance(f, provenance)->producer_provenance == provenance,
        f is OrphanedEndpoint ==> with_provenance(f, provenance)->provenance == provenance && with_view(f, view)->view_module
            == view && with_view(f, view)->provenance == f->provenance && with_provenance(f, provenance)->view_module
            == f->view_module,
        forall|again: Option<EdgeSource>| #[trigger] with_source(with_source(f, source), again) == with_source(f, again),
        forall|again: Option<VerdictState>| #[trigger] with_state(with_state(f, state), again) == with_state(f, again),
        forall|again: EndpointProvenance| #[trigger]
            with_provenance(with_provenance(f, provenance), again) == with_provenance(f, again),
        forall|again: bool| #[trigger] with_view(with_view(f, view), again) == with_view(f, again),
        f is TypeMismatch || f is MethodMismatch ==> with_source(f, source_in(f)) == f && with_state(f, state_in(f)) == f,
        f is TypeMismatch ==> with_provenance(f, f->producer_provenance) == f,
        f is OrphanedEndpoint ==> with_provenance(f, f->provenance) == f && with_view(f, f->view_module) == f,
{
}

} // verus!
