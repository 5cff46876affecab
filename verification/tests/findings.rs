use carrick::findings::{
    tier, truncate_chars, EdgeSource, EndpointRef, Finding, GraphqlStatus, PackageVersionRef, PrDelta, PrResultPayload,
    ResolutionSource, ScanStats, Severity, Topology, VerdictState, VerifiedEndpoint, MAX_CALL_SITES, MAX_DETAIL_CHARS,
};
use carrick::json::Json;
use carrick::operation::{EndpointProvenance, TypeVerdict};
use serde_json::Value;

fn wire(json: Json) -> Value {
    match json {
        Json::Null => Value::Null,
        Json::Bool(b) => Value::from(b),
        Json::Number(n) => Value::from(n),
        Json::Numeral(n) => parsed(&n),
        Json::Text(text) => Value::from(text),
        Json::List(items) => Value::Array(items.into_iter().map(wire).collect()),
        Json::Object(fields) => {
            Value::Object(fields.into_iter().map(|(name, value)| (name, wire(value))).collect())
        }
    }
}

fn parsed(text: &str) -> Value {
    serde_json::from_str(text).unwrap()
}

fn empty_payload() -> PrResultPayload {
    PrResultPayload {
        repo: "r".to_string(),
        pr_number: 1,
        head_sha: None,
        run_id: None,
        topology: Topology { repo_name: "r".to_string(), local_service_count: 1, peer_repo_count: 0 },
        stats: ScanStats { endpoints: 0, calls: 0 },
        findings: vec![],
        delta: None,
        verified: vec![],
        graphql: GraphqlStatus { libraries: vec![], operations_indexed: false },
        has_types: true,
    }
}

#[test]
fn truncate_chars_is_char_boundary_safe() {
    let s = "café☕".repeat(100);
    let out = truncate_chars(&s, 400);
    assert_eq!(out.chars().count(), 400);
    assert!(out.ends_with("..."));
    assert!(s.starts_with(out.trim_end_matches("...")));

    assert_eq!(truncate_chars("café☕", 5), "café☕");
    assert_eq!(truncate_chars("café☕", 400), "café☕");

    assert_eq!(truncate_chars("abcdefgh", 6), "abc...");
}

#[test]
fn truncate_chars_never_exceeds_max_even_for_tiny_max() {
    assert_eq!(truncate_chars("abcdef", 3), "abc");
    assert_eq!(truncate_chars("abcdef", 2), "ab");
    assert_eq!(truncate_chars("abcdef", 0), "");
    assert_eq!(truncate_chars("café☕x", 2), "ca");
    for max in 0..6 {
        assert!(truncate_chars("abcdefgh", max).chars().count() <= max);
    }
    assert_eq!(truncate_chars("ab", 2), "ab");
}

#[test]
fn call_sites_capped_on_the_wire_only() {
    let sites: Vec<String> = (0..9).map(|i| format!("src/a.ts:{i}")).collect();
    let finding = Finding::missing_endpoint("GET", "/x", None, sites);
    let Finding::MissingEndpoint { call_sites, .. } = &finding else {
        panic!("wrong variant");
    };
    assert_eq!(call_sites.len(), 9);

    let v = wire(finding.serialize());
    let wire_sites = v["call_sites"].as_array().unwrap();
    assert_eq!(wire_sites.len(), MAX_CALL_SITES);
    assert_eq!(wire_sites[0], "src/a.ts:0");
    assert_eq!(wire_sites[4], "src/a.ts:4");
}

#[test]
fn producer_provenance_defaults_to_route_and_serializes() {
    let mismatch = Finding::type_mismatch("GET", "/x", None, vec![], "A", "B", "boom");
    let v = wire(mismatch.serialize());
    assert_eq!(v["producer_provenance"], parsed(r#""route""#));

    let mismatch = mismatch.with_producer_provenance(EndpointProvenance::Mock);
    let v = wire(mismatch.serialize());
    assert_eq!(v["producer_provenance"], parsed(r#""mock""#));

    let orphan = Finding::orphaned_endpoint("GET", "/x", None)
        .with_producer_provenance(EndpointProvenance::Mock);
    let v = wire(orphan.serialize());
    assert_eq!(v["provenance"], parsed(r#""mock""#));

    let missing = Finding::missing_endpoint("GET", "/x", None, vec![])
        .with_producer_provenance(EndpointProvenance::Mock);
    assert_eq!(
        missing,
        Finding::missing_endpoint("GET", "/x", None, vec![])
    );
}

#[test]
fn detail_truncated_at_construction() {
    let long = "☕".repeat(500);
    let finding = Finding::type_mismatch("GET", "/x", None, vec![], "A", "B", &long);
    let Finding::TypeMismatch { detail, .. } = &finding else {
        panic!("wrong variant");
    };
    assert_eq!(detail.chars().count(), MAX_DETAIL_CHARS);
    assert!(detail.ends_with("..."));
}

#[test]
fn degraded_types_serializes_as_a_risk_with_detail() {
    let finding =
        Finding::degraded_types("api", "capture", "Sidecar process died unexpectedly");
    let v = wire(finding.serialize());
    assert_eq!(v["kind"], parsed(r#""degraded_types""#));
    assert_eq!(v["severity"], parsed(r#""risk""#));
    assert_eq!(v["service"], parsed(r#""api""#));
    assert_eq!(v["stage"], parsed(r#""capture""#));
    assert_eq!(v["detail"], parsed(r#""Sidecar process died unexpectedly""#));

    let long = "e".repeat(900);
    let Finding::DegradedTypes { detail, .. } =
        Finding::degraded_types("api", "resolve", &long)
    else {
        panic!("wrong variant");
    };
    assert_eq!(detail.chars().count(), MAX_DETAIL_CHARS);
}

#[test]
fn payload_serializes_to_wire_contract_shape() {
    let payload = PrResultPayload {
        repo: "api-server".to_string(),
        pr_number: 123,
        head_sha: None,
        run_id: Some("9876543210".to_string()),
        topology: Topology {
            repo_name: "api-server".to_string(),
            local_service_count: 1,
            peer_repo_count: 2,
        },
        stats: ScanStats {
            endpoints: 42,
            calls: 17,
        },
        findings: vec![
            Finding::type_mismatch(
                "GET",
                "/api/users",
                None,
                vec!["web/src/client.ts:12".to_string()],
                "UserResponse",
                "User[]",
                "Property 'role' is missing",
            ),
            Finding::method_mismatch(
                "GET",
                "/api/orders",
                None,
                vec!["web/src/orders.ts:4".to_string()],
                "POST",
            ),
            Finding::missing_endpoint(
                "DELETE",
                "/api/sessions",
                None,
                vec!["web/src/auth.ts:9".to_string()],
            ),
            Finding::orphaned_endpoint("GET", "/legacy/ping", Some("billing".to_string())),
            Finding::env_var_call(
                "GET",
                "/orders",
                "ORDER_SERVICE_URL",
                vec!["src/orders.ts:3".to_string()],
            ),
            Finding::dependency_conflict(
                "zod",
                tier::MAJOR,
                vec![PackageVersionRef {
                    repo: "billing".to_string(),
                    version: "4.0.0".to_string(),
                    source: "package.json".to_string(),
                }],
            ),
            Finding::dependency_conflict("typescript", tier::UNPARSEABLE, vec![]),
            Finding::shared_external_contract(
                "POST",
                "/v2/widgets",
                vec!["repo-alpha".to_string(), "repo-beta".to_string()],
                vec!["src/widgets-client.ts:33".to_string()],
            ),
        ],
        delta: Some(PrDelta {
            new_endpoints: vec![EndpointRef {
                method: "GET".to_string(),
                path: "/x".to_string(),
                service: None,
            }],
            removed_endpoints: vec![EndpointRef {
                method: "GET".to_string(),
                path: "/y".to_string(),
                service: None,
            }],
        }),
        verified: vec![VerifiedEndpoint {
            method: "GET".to_string(),
            path: "/api/users".to_string(),
            provenance: Default::default(),
            type_verdict: None,
        }],
        graphql: GraphqlStatus {
            libraries: vec![],
            operations_indexed: false,
        },
        has_types: true,
    };

    let v = wire(payload.serialize());

    assert_eq!(v["repo"], "api-server");
    assert_eq!(v["pr_number"], 123);
    assert_eq!(v["head_sha"], Value::Null);
    assert_eq!(v["run_id"], "9876543210");
    assert_eq!(
        v["topology"],
        parsed(r#"{ "repo_name": "api-server", "local_service_count": 1, "peer_repo_count": 2 }"#)
    );
    assert_eq!(v["stats"], parsed(r#"{ "endpoints": 42, "calls": 17 }"#));
    assert_eq!(
        v["delta"],
        parsed(r#"{
            "new_endpoints": [{ "method": "GET", "path": "/x", "service": null }],
            "removed_endpoints": [{ "method": "GET", "path": "/y", "service": null }]
        }"#)
    );
    assert_eq!(
        v["verified"],
        parsed(r#"[{ "method": "GET", "path": "/api/users", "provenance": "route" }]"#)
    );
    assert_eq!(
        v["graphql"],
        parsed(r#"{ "libraries": [], "operations_indexed": false }"#)
    );

    let findings = v["findings"].as_array().unwrap();
    assert_eq!(
        findings[0],
        parsed(r#"{
            "kind": "type_mismatch",
            "severity": "risk",
            "method": "GET",
            "path": "/api/users",
            "service": null,
            "call_sites": ["web/src/client.ts:12"],
            "producer_type": "UserResponse",
            "consumer_type": "User[]",
            "detail": "Property 'role' is missing",
            "producer_provenance": "route"
        }"#)
    );
    assert_eq!(
        findings[1],
        parsed(r#"{
            "kind": "method_mismatch",
            "severity": "risk",
            "method": "GET",
            "path": "/api/orders",
            "service": null,
            "call_sites": ["web/src/orders.ts:4"],
            "expected_method": "POST"
        }"#)
    );
    assert_eq!(
        findings[2],
        parsed(r#"{
            "kind": "missing_endpoint",
            "severity": "gap",
            "method": "DELETE",
            "path": "/api/sessions",
            "service": null,
            "call_sites": ["web/src/auth.ts:9"]
        }"#)
    );
    assert_eq!(
        findings[3],
        parsed(r#"{
            "kind": "orphaned_endpoint",
            "severity": "gap",
            "method": "GET",
            "path": "/legacy/ping",
            "service": "billing",
            "provenance": "route"
        }"#)
    );
    assert_eq!(
        findings[4],
        parsed(r#"{
            "kind": "env_var_call",
            "severity": "advisory",
            "method": "GET",
            "path": "/orders",
            "env_var": "ORDER_SERVICE_URL",
            "call_sites": ["src/orders.ts:3"]
        }"#)
    );
    assert_eq!(
        findings[5],
        parsed(r#"{
            "kind": "dependency_conflict",
            "severity": "gap",
            "package_name": "zod",
            "tier": "major",
            "versions": [{ "repo": "billing", "version": "4.0.0", "source": "package.json" }]
        }"#)
    );
    assert_eq!(findings[6]["severity"], "advisory");
    assert_eq!(findings[6]["tier"], "unparseable");
    assert_eq!(
        findings[7],
        parsed(r#"{
            "kind": "shared_external_contract",
            "severity": "advisory",
            "method": "POST",
            "path": "/v2/widgets",
            "repos": ["repo-alpha", "repo-beta"],
            "call_sites": ["src/widgets-client.ts:33"]
        }"#)
    );
}

#[test]
fn verified_endpoint_type_verdict_wire_strings() {
    let with = |v: Option<TypeVerdict>| {
        let mut payload = empty_payload();
        payload.verified = vec![VerifiedEndpoint {
            method: "GET".to_string(),
            path: "/api/users".to_string(),
            provenance: Default::default(),
            type_verdict: v,
        }];
        wire(payload.serialize())["verified"][0].clone()
    };

    assert_eq!(
        with(Some(TypeVerdict::Compatible))["type_verdict"],
        "compatible"
    );
    assert_eq!(
        with(Some(TypeVerdict::Unverifiable))["type_verdict"],
        "unverifiable"
    );
    assert_eq!(
        with(Some(TypeVerdict::Incompatible))["type_verdict"],
        "incompatible"
    );
    let none = with(None);
    assert!(
        none.get("type_verdict").is_none(),
        "an absent verdict must be omitted from the wire, got: {none}"
    );
}

#[test]
fn run_id_omitted_when_absent() {
    let payload = PrResultPayload {
        repo: "r".to_string(),
        pr_number: 1,
        head_sha: Some("a".repeat(40)),
        run_id: None,
        topology: Topology {
            repo_name: "r".to_string(),
            local_service_count: 1,
            peer_repo_count: 0,
        },
        stats: ScanStats {
            endpoints: 0,
            calls: 0,
        },
        findings: vec![],
        delta: None,
        verified: vec![],
        graphql: GraphqlStatus {
            libraries: vec![],
            operations_indexed: false,
        },
        has_types: true,
    };
    let v = wire(payload.serialize());
    assert!(v.get("run_id").is_none());
    assert_eq!(v["head_sha"], "a".repeat(40));
    assert_eq!(v["delta"], Value::Null);
}

#[test]
fn source_fields_carry_their_wire_spellings() {
    let finding = Finding::type_mismatch(
        "GET",
        "/api/users/:id",
        None,
        vec!["server.ts:50".into()],
        "User",
        "UserV2",
        "incompatible",
    )
    .with_edge_source(EdgeSource::fold(&vec![Some(ResolutionSource::Model)]))
    .with_verdict_state(Some(VerdictState::Resolved));
    let v = wire(finding.serialize());
    assert_eq!(v["edge_source"], "candidate");
    assert_eq!(v["verdict_state"], "resolved");

    let finding = Finding::method_mismatch(
        "GET",
        "/api/orders",
        None,
        vec!["client.ts:12".into()],
        "POST",
    )
    .with_edge_source(EdgeSource::fold(&vec![Some(ResolutionSource::FileBasedRoute)]))
    .with_verdict_state(Some(VerdictState::NotChecked));
    let v = wire(finding.serialize());
    assert_eq!(v["edge_source"], "fact");
    assert_eq!(v["verdict_state"], "not_checked");

    let v = wire(Finding::type_mismatch("GET", "/a", None, vec![], "A", "B", "d")
            .with_verdict_state(Some(VerdictState::Unresolved)).serialize());
    assert_eq!(v["verdict_state"], "unresolved");
}

#[test]
fn unstated_source_fields_are_omitted() {
    let v = wire(Finding::type_mismatch(
        "GET",
        "/a",
        None,
        vec![],
        "A",
        "B",
        "d",
    ).serialize());
    assert!(v.get("edge_source").is_none(), "got: {v}");
    assert!(v.get("verdict_state").is_none(), "got: {v}");

    let v = wire(Finding::method_mismatch("GET", "/a", None, vec![], "POST").serialize());
    assert!(v.get("edge_source").is_none(), "got: {v}");
    assert!(v.get("verdict_state").is_none(), "got: {v}");
}

#[test]
fn edge_source_folds_over_every_contributing_row() {
    assert_eq!(
        EdgeSource::fold(&vec![Some(ResolutionSource::FileBasedRoute), Some(ResolutionSource::ImportedMember)]),
        Some(EdgeSource::Fact)
    );
    assert_eq!(
        EdgeSource::fold(&vec![Some(ResolutionSource::FileBasedRoute), Some(ResolutionSource::InlineLiteral)]),
        Some(EdgeSource::Fact)
    );
    assert_eq!(
        EdgeSource::fold(&vec![Some(ResolutionSource::FileBasedRoute), Some(ResolutionSource::Model)]),
        Some(EdgeSource::Candidate),
        "one model row makes the whole pairing a candidate"
    );
    assert_eq!(
        EdgeSource::fold(&vec![None, Some(ResolutionSource::Model)]),
        Some(EdgeSource::Candidate)
    );
    assert_eq!(
        EdgeSource::fold(&vec![Some(ResolutionSource::FileBasedRoute), None]),
        None,
        "a row that stated no source cannot be claimed as a fact"
    );
    assert_eq!(EdgeSource::fold(&vec![]), None, "no rows, nothing to state");
}

#[test]
fn view_module_rides_the_orphan_row_only_when_true() {
    let v =
        wire(Finding::orphaned_endpoint("GET", "/dashboard", None).serialize());
    assert!(v.get("view_module").is_none(), "got: {v}");

    let v = wire(Finding::orphaned_endpoint("GET", "/dashboard", None).with_view_module(true).serialize());
    assert_eq!(v["view_module"], true);
}

#[test]
fn source_builders_are_no_ops_on_other_kinds() {
    let finding = Finding::missing_endpoint("GET", "/a", None, vec![])
        .with_edge_source(Some(EdgeSource::Candidate))
        .with_verdict_state(Some(VerdictState::Unresolved))
        .with_view_module(true);
    assert_eq!(
        finding,
        Finding::missing_endpoint("GET", "/a", None, vec![])
    );
}

#[test]
fn every_kind_has_its_severity() {
    assert_eq!(Finding::missing_endpoint("GET", "/a", None, vec![]).severity(), Severity::Gap);
    assert_eq!(Finding::env_var_call("GET", "/a", "X", vec![]).severity(), Severity::Advisory);
    assert_eq!(Finding::dependency_conflict("zod", tier::MAJOR, vec![]).severity(), Severity::Gap);
    assert_eq!(Finding::dependency_conflict("zod", tier::UNPARSEABLE, vec![]).severity(), Severity::Advisory);
    assert_eq!(Finding::degraded_types("api", "capture", "x").kind(), "degraded_types");
}

#[test]
fn a_delta_without_endpoints_is_empty() {
    assert!(PrDelta::default().is_empty());
    let delta = PrDelta {
        new_endpoints: vec![EndpointRef { method: "GET".to_string(), path: "/x".to_string(), service: None }],
        removed_endpoints: vec![],
    };
    assert!(!delta.is_empty());
}
