use carrick::cloud_storage::{
    CaptureStubArtifact, CloudRepoData, ManifestRole, ManifestTypeKind, ManifestTypeState, TypeManifestEntry,
    CAPTURE_ARTIFACT_VERSION,
};
use carrick::engine::capture::{
    backfill_accepted, backfill_anchors, derive_backfill_texts, derive_capture_anchors, first_capture_step,
    step_after_first, step_after_second, CaptureStep,
};
use carrick::engine::outcomes::{
    check_without_stubs, consumer_call_locators, consumer_to_blame, outcome_for, probing_specs, CallLocator, CheckReply, LocalConsumer, LocalConsumers,
};
use carrick::engine::pairs::{build_check_pairs, BuiltPair};
use carrick::engine::retype::{
    apply_retype, log_unresolved_pairs, materialize_stubs, retype_items, run_check, unresolved_pair_line, worth_logging, RETYPE_NOTE, RetypeReply,
};
use carrick::engine::type_texts::{
    classify_receiver, contains_disqualifying_top_type, usable_backfill_text, ReceiverRole,
};
use carrick::operation::OperationKey;
use carrick::ordered::{TextMap, TextSet};
use carrick::sidecar::{
    AnchorOrigin, CaptureAliasRecord, CaptureAnchor, CheckStubInput, CheckVerdict, InferKind, InferRequestItem, InferredType,
    ManifestEntry, ProbeProtocol, ProbeTypeKind, RetypeDiagnostic, RetypeOutcome, RetypeVerdict, SymbolRequest,
    TypeProvenance, VerdictBucket, VerdictSide,
};

fn lists() -> (Vec<String>, Vec<String>) {
    (
        vec!["server-fw".to_string(), "Express".to_string()],
        vec!["http-fetcher".to_string(), "@scope/fetcher".to_string()],
    )
}

#[test]
fn receiver_declared_by_a_detected_framework_is_a_server() {
    let (frameworks, fetchers) = lists();
    assert_eq!(
        classify_receiver("Server", Some("server-fw"), &frameworks, &fetchers),
        Some(ReceiverRole::Server)
    );
}

#[test]
fn receiver_declared_by_a_detected_fetcher_is_a_client() {
    let (frameworks, fetchers) = lists();
    assert_eq!(
        classify_receiver("HttpClient", Some("http-fetcher"), &frameworks, &fetchers),
        Some(ReceiverRole::Client)
    );
    assert_eq!(
        classify_receiver("Fetcher", Some("@scope/fetcher"), &frameworks, &fetchers),
        Some(ReceiverRole::Client)
    );
}

#[test]
fn detection_list_matching_ignores_case() {
    let (frameworks, fetchers) = lists();
    assert_eq!(
        classify_receiver("Application", Some("express"), &frameworks, &fetchers),
        Some(ReceiverRole::Server)
    );
}

#[test]
fn a_definitely_typed_package_is_matched_as_the_package_it_types() {
    let (frameworks, fetchers) = lists();
    assert_eq!(
        classify_receiver(
            "Application",
            Some("@types/express"),
            &frameworks,
            &fetchers
        ),
        Some(ReceiverRole::Server)
    );
    let scoped = (vec!["@hapi/hapi".to_string()], Vec::<String>::new());
    assert_eq!(
        classify_receiver("Server", Some("@types/hapi__hapi"), &scoped.0, &scoped.1),
        Some(ReceiverRole::Server)
    );
}

#[test]
fn an_unresolved_receiver_states_no_role() {
    let (frameworks, fetchers) = lists();
    assert_eq!(
        classify_receiver("any", Some("server-fw"), &frameworks, &fetchers),
        None
    );
    assert_eq!(
        classify_receiver("unknown", None, &frameworks, &fetchers),
        None
    );
}

#[test]
fn a_workspace_declared_receiver_stays_the_models() {
    let (frameworks, fetchers) = lists();
    assert_eq!(
        classify_receiver("{ get(path: string): void; }", None, &frameworks, &fetchers),
        None
    );
}

#[test]
fn a_package_in_both_lists_is_ambiguous_and_states_nothing() {
    let both = vec!["full-stack".to_string()];
    assert_eq!(
        classify_receiver("Thing", Some("full-stack"), &both, &both),
        None
    );
}

#[test]
fn a_package_in_neither_list_states_nothing() {
    let (frameworks, fetchers) = lists();
    assert_eq!(
        classify_receiver("Redis", Some("ioredis"), &frameworks, &fetchers),
        None
    );
}

fn entry(
    key: OperationKey,
    role: ManifestRole,
    type_kind: ManifestTypeKind,
    type_alias: &str,
    file_path: &str,
    line_number: u32,
    type_state: ManifestTypeState,
) -> TypeManifestEntry {
    TypeManifestEntry {
        key,
        role,
        type_kind,
        type_alias: type_alias.to_string(),
        file_path: file_path.to_string(),
        line_number,
        type_state,
        expanded_definition: None,
    }
}

fn repo(
    repo_name: &str,
    service_name: Option<&str>,
    manifest: Vec<TypeManifestEntry>,
    capture_stub: Option<CaptureStubArtifact>,
) -> CloudRepoData {
    CloudRepoData {
        repo_name: repo_name.to_string(),
        service_name: service_name.map(str::to_string),
        type_manifest: if manifest.is_empty() { None } else { Some(manifest) },
        capture_stub,
    }
}

#[test]
fn a_peer_artifact_from_an_older_schema_has_no_surface() {
    let key = OperationKey::http("GET", "/orders");
    let stale = CaptureStubArtifact {
        artifact_version: CAPTURE_ARTIFACT_VERSION - 1,
        ..fake_artifact()
    };
    let producer = repo(
        "api",
        None,
        vec![entry(
            key.clone(),
            ManifestRole::Producer,
            ManifestTypeKind::Response,
            "P",
            "src/routes.ts",
            3,
            ManifestTypeState::Explicit,
        )],
        Some(stale),
    );
    let consumer = repo(
        "web",
        None,
        vec![entry(
            key,
            ManifestRole::Consumer,
            ManifestTypeKind::Response,
            "C",
            "src/client.ts",
            8,
            ManifestTypeState::Explicit,
        )],
        Some(fake_artifact()),
    );

    let pairs = build_check_pairs(&vec![producer, consumer]);
    assert_eq!(pairs.len(), 1);
    let (bucket, reason) = pairs[0].pre_verdict.as_ref().expect("pre-verdict");
    assert_eq!(*bucket, VerdictBucket::Unverifiable);
    assert!(reason.contains("no v2 type surface"), "{reason}");
}

fn fake_artifact() -> CaptureStubArtifact {
    CaptureStubArtifact {
        artifact_version: CAPTURE_ARTIFACT_VERSION,
        package_name: "@carrick/test".to_string(),
        ts_version: "5.8.3".to_string(),
        bare_checkout: true,
    }
}

fn retype_pair(kind: ManifestTypeKind, expanded: Option<&str>) -> BuiltPair {
    let key = OperationKey::http("POST", "/p");
    let mut producer = entry(
        key.clone(),
        ManifestRole::Producer,
        kind,
        "P",
        "src/routes.ts",
        3,
        ManifestTypeState::Explicit,
    );
    producer.expanded_definition = expanded.map(str::to_string);
    let consumer = entry(
        key,
        ManifestRole::Consumer,
        kind,
        "C",
        "src/client.ts",
        8,
        ManifestTypeState::Unknown,
    );
    let mut pairs = build_check_pairs(&vec![
        repo("api", None, vec![producer], Some(fake_artifact())),
        repo("web", None, vec![consumer], Some(fake_artifact())),
    ]);
    assert_eq!(pairs.len(), 1);
    pairs.remove(0)
}

fn web_consumer() -> LocalConsumers {
    let mut calls: TextMap<CallLocator> = TextMap::new();
    calls.insert(
        "C".to_string(),
        CallLocator {
            file_path: "/repo/web/src/client.ts".to_string(),
            line_number: 8,
            span_start: None,
            span_end: None,
            expression_text: Some("api.post('/p')".to_string()),
            expression_line: Some(8),
        },
    );
    let mut local = LocalConsumers::new();
    local.record_local_consumer("web", LocalConsumer { root: "/repo/web".to_string(), tsconfig: None, calls });
    local
}

fn text_set(items: Vec<String>) -> TextSet {
    let mut set = TextSet::new();
    for item in items {
        set.insert(item);
    }
    set
}

#[test]
fn retype_items_take_only_what_the_consumer_left_unresolved() {
    let local = web_consumer();
    let pair = retype_pair(ManifestTypeKind::Response, Some("{ id: string; }"));
    let blamed = text_set(vec![pair.spec.pair_key.clone()]);

    let pairs = vec![pair];
    let items = retype_items(&pairs, &blamed, &local);
    let web = &items.iter().find(|(name, _)| name == "web").unwrap().1;
    assert_eq!(web.len(), 1);
    assert_eq!(web[0].item_id, pairs[0].spec.pair_key);
    assert_eq!(web[0].file_path, "/repo/web/src/client.ts");
    assert_eq!(web[0].expression_text.as_deref(), Some("api.post('/p')"));
    assert_eq!(web[0].producer_type, "{ id: string; }");
    assert!(web[0].wire, "an http response is judged in its wire form");

    assert!(retype_items(&pairs, &TextSet::new(), &local).is_empty());
    assert!(retype_items(&pairs, &blamed, &LocalConsumers::new()).is_empty());

    let loose = vec![retype_pair(
        ManifestTypeKind::Response,
        Some("{ id: string; meta: any; }"),
    )];
    let blamed_loose = text_set(vec![loose[0].spec.pair_key.clone()]);
    assert!(retype_items(&loose, &blamed_loose, &local).is_empty());
    let absent = vec![retype_pair(ManifestTypeKind::Response, None)];
    let blamed_absent = text_set(vec![absent[0].spec.pair_key.clone()]);
    assert!(retype_items(&absent, &blamed_absent, &local).is_empty());

    let request = vec![retype_pair(
        ManifestTypeKind::Request,
        Some("{ id: string; }"),
    )];
    let blamed_request = text_set(vec![request[0].spec.pair_key.clone()]);
    assert!(retype_items(&request, &blamed_request, &local).is_empty());
}

#[test]
fn a_consumer_is_to_blame_only_for_a_type_a_retype_can_settle() {
    let verdict = |side: Option<VerdictSide>, gate: Option<&str>| {
        CheckVerdict {
            pair_key: "key".to_string(),
            bucket: VerdictBucket::Unverifiable,
            gate: gate.map(str::to_string),
            diagnostic: None,
            resolved: false,
            unresolved_reason: Some("why".to_string()),
            unresolved_side: side,
            notes: Vec::new(),
        }
    };
    let consumer = Some(VerdictSide::Consumer);
    assert!(consumer_to_blame(&verdict(
        consumer,
        Some("consumer:unknown")
    )));
    assert!(consumer_to_blame(&verdict(
        consumer,
        Some("capture:consumer:any")
    )));
    assert!(consumer_to_blame(&verdict(consumer, None)));
    assert!(!consumer_to_blame(&verdict(
        Some(VerdictSide::Producer),
        Some("producer:any")
    )));
    assert!(!consumer_to_blame(&verdict(None, Some("assignment:other"))));
    assert!(!consumer_to_blame(&verdict(
        consumer,
        Some("consumer:void")
    )));
    assert!(!consumer_to_blame(&verdict(
        consumer,
        Some("consumer:form")
    )));
}

#[test]
fn a_consumer_without_a_surface_is_the_side_to_blame() {
    let key = OperationKey::http("POST", "/p");
    let producer = entry(
        key.clone(),
        ManifestRole::Producer,
        ManifestTypeKind::Response,
        "P",
        "src/routes.ts",
        3,
        ManifestTypeState::Explicit,
    );
    let consumer = entry(
        key,
        ManifestRole::Consumer,
        ManifestTypeKind::Response,
        "C",
        "src/client.ts",
        8,
        ManifestTypeState::Unknown,
    );
    let pairs = build_check_pairs(&vec![
        repo("api", None, vec![producer.clone()], Some(fake_artifact())),
        repo("web", None, vec![consumer.clone()], None),
    ]);
    assert_eq!(pairs[0].pre_verdict_side, Some(VerdictSide::Consumer));
    let pairs = build_check_pairs(&vec![
        repo("api", None, vec![producer], None),
        repo("web", None, vec![consumer], Some(fake_artifact())),
    ]);
    assert_eq!(pairs[0].pre_verdict_side, Some(VerdictSide::Producer));
}

#[test]
fn a_retype_answer_lands_on_the_outcome() {
    let pair = retype_pair(ManifestTypeKind::Response, Some("{ y: number; }"));
    let unresolved = || {
        outcome_for(
            &pair,
            VerdictBucket::Unverifiable,
            Some("consumer:unknown".to_string()),
            Some("the consumer type resolved to 'unknown'".to_string()),
            false,
            Some("the consumer type is 'unknown'".to_string()),
            Vec::new(),
        )
    };
    let answer = |outcome: RetypeVerdict, reason: Option<&str>| RetypeOutcome {
        item_id: pair.spec.pair_key.clone(),
        outcome,
        diagnostics: vec![RetypeDiagnostic {
            line: 9,
            message: "Property 'x' does not exist on type '{ y: number; }'.".to_string(),
        }],
        reason: reason.map(str::to_string),
    };

    let mut mismatch = unresolved();
    apply_retype(&mut mismatch, &answer(RetypeVerdict::Mismatch, None));
    assert_eq!(mismatch.bucket, VerdictBucket::Incompatible);
    assert!(mismatch.resolved);
    assert_eq!(mismatch.unresolved_reason, None);
    assert_eq!(
        mismatch.diagnostic.as_deref(),
        Some(
            "the consumer uses what the producer's response does not provide: \
             src/client.ts:9: Property 'x' does not exist on type '{ y: number; }'."
        )
    );
    assert_eq!(mismatch.notes, vec![RETYPE_NOTE.to_string()]);

    let mut agrees = unresolved();
    apply_retype(&mut agrees, &answer(RetypeVerdict::Agrees, None));
    assert_eq!(agrees.bucket, VerdictBucket::Compatible);
    assert!(agrees.resolved);
    assert_eq!((agrees.gate, agrees.diagnostic), (None, None));

    let mut abstain = unresolved();
    apply_retype(
        &mut abstain,
        &answer(
            RetypeVerdict::Abstain,
            Some("the consumer never reads the response"),
        ),
    );
    assert_eq!(abstain.bucket, VerdictBucket::Unverifiable);
    assert!(!abstain.resolved);
    assert_eq!(
        abstain.unresolved_reason.as_deref(),
        Some(
            "the consumer type is 'unknown'; retyping the consumer's call did not decide \
             it: the consumer never reads the response"
        )
    );
}

#[test]
fn only_pairs_this_run_answers_for_are_logged() {
    let local = web_consumer();
    let response = retype_pair(ManifestTypeKind::Response, Some("{ id: string; }"));
    assert!(worth_logging(&response, &local));
    assert!(!worth_logging(&response, &LocalConsumers::new()));
    let bodiless = retype_pair(ManifestTypeKind::Request, None);
    assert!(!worth_logging(&bodiless, &local));
    let with_body = retype_pair(ManifestTypeKind::Request, Some("{ id: string; }"));
    assert!(worth_logging(&with_body, &local));
}

#[test]
fn a_retype_never_downgrades_a_proven_mismatch() {
    let pair = retype_pair(ManifestTypeKind::Response, Some("{ y: number; }"));
    let verdict = CheckVerdict {
        pair_key: pair.spec.pair_key.clone(),
        bucket: VerdictBucket::Incompatible,
        gate: None,
        diagnostic: Some("Property 'y' is missing".to_string()),
        resolved: false,
        unresolved_reason: Some("the consumer type carries 'any' at 'meta'".to_string()),
        unresolved_side: Some(VerdictSide::Consumer),
        notes: Vec::new(),
    };
    assert!(
        !consumer_to_blame(&verdict),
        "a check_v2 mismatch with a consumer deep-any is not a retype candidate"
    );
    let mut outcome = outcome_for(
        &pair,
        verdict.bucket,
        verdict.gate.clone(),
        verdict.diagnostic.clone(),
        verdict.resolved,
        verdict.unresolved_reason.clone(),
        Vec::new(),
    );
    apply_retype(
        &mut outcome,
        &RetypeOutcome {
            item_id: pair.spec.pair_key.clone(),
            outcome: RetypeVerdict::Agrees,
            diagnostics: Vec::new(),
            reason: None,
        },
    );
    assert_eq!(outcome.bucket, VerdictBucket::Incompatible);
    assert_eq!(
        outcome.diagnostic.as_deref(),
        Some("Property 'y' is missing")
    );
    assert!(!outcome.resolved);
}

#[test]
fn an_unverified_pair_is_logged_with_its_reason() {
    let pair = retype_pair(ManifestTypeKind::Response, None);
    let outcome = outcome_for(
        &pair,
        VerdictBucket::GateCaughtBakedAny,
        Some("capture:consumer:any".to_string()),
        None,
        false,
        Some("the consumer type carries 'any' at '<1>'".to_string()),
        Vec::new(),
    );
    assert_eq!(
        unresolved_pair_line(&outcome).as_deref(),
        Some(
            "Types not verified: POST /p response (src/client.ts:8 in web against api): \
             the consumer type carries 'any' at '<1>'"
        )
    );
    let fact = outcome_for(
        &pair,
        VerdictBucket::Compatible,
        None,
        None,
        true,
        None,
        Vec::new(),
    );
    assert_eq!(unresolved_pair_line(&fact), None);
}

#[test]
fn consumer_call_locators_keep_the_first_call_result_per_alias() {
    let item = |kind: InferKind, alias: &str, line: u32| InferRequestItem {
        file_path: "/repo/web/src/client.ts".to_string(),
        line_number: line,
        span_start: Some(line * 10),
        span_end: Some(line * 10 + 5),
        expression_text: None,
        expression_line: None,
        infer_kind: kind,
        alias: Some(alias.to_string()),
        param_name: None,
    };
    let calls = consumer_call_locators(&vec![
        item(InferKind::RequestBody, "Req", 3),
        item(InferKind::CallResult, "C", 8),
        item(InferKind::CallResult, "C", 12),
    ]);
    assert_eq!(calls.len(), 1, "only call results are retyped");
    assert_eq!(calls.get("C").unwrap().line_number, 8);
    assert_eq!(calls.get("C").unwrap().span_start, Some(80));
}

#[test]
fn derive_anchors_precedence_and_alias_passthrough() {
    let explicit = vec![SymbolRequest {
        symbol_name: "Order".to_string(),
        source_file: "src/types.ts".to_string(),
        alias: Some("Endpoint_a_Response".to_string()),
        array_depth: Some(1),
    }];
    let infer = vec![
        InferRequestItem {
            file_path: "/repo/src/handler.ts".to_string(),
            line_number: 7,
            span_start: Some(10),
            span_end: Some(20),
            expression_text: None,
            expression_line: None,
            infer_kind: InferKind::ResponseBody,
            alias: Some("Endpoint_a_Response".to_string()),
            param_name: None,
        },
        InferRequestItem {
            file_path: "/repo/src/handler.ts".to_string(),
            line_number: 9,
            span_start: None,
            span_end: None,
            expression_text: Some("payload".to_string()),
            expression_line: Some(9),
            infer_kind: InferKind::ResponseBody,
            alias: Some("Endpoint_b_Response".to_string()),
            param_name: None,
        },
    ];
    let inline = vec![
        ("Endpoint_b_Response".to_string(), "Widget".to_string()),
        (
            "Endpoint_c_Response".to_string(),
            "{ ok: boolean }".to_string(),
        ),
    ];

    let anchors = derive_capture_anchors(&explicit, &infer, &inline, &vec![], &vec![], "/repo");
    assert_eq!(anchors.len(), 3);

    match &anchors[0] {
        CaptureAnchor::Symbol {
            alias,
            array_depth,
            source_file,
            ..
        } => {
            assert_eq!(alias, "Endpoint_a_Response");
            assert_eq!(*array_depth, Some(1));
            assert_eq!(source_file, "src/types.ts");
        }
        other => panic!("expected symbol anchor, got {:?}", other),
    }
    match &anchors[1] {
        CaptureAnchor::Infer {
            alias, source_file, ..
        } => {
            assert_eq!(alias, "Endpoint_b_Response");
            assert_eq!(source_file, "src/handler.ts");
        }
        other => panic!("expected infer anchor, got {:?}", other),
    }
    match &anchors[2] {
        CaptureAnchor::Literal {
            alias, type_text, ..
        } => {
            assert_eq!(alias, "Endpoint_c_Response");
            assert_eq!(type_text, "{ ok: boolean }");
        }
        other => panic!("expected literal anchor, got {:?}", other),
    }
}

fn inferred(
    alias: &str,
    type_string: &str,
    primary_type_symbol: Option<&str>,
    array_depth: Option<u32>,
) -> InferredType {
    InferredType {
        alias: alias.to_string(),
        type_string: type_string.to_string(),
        primary_type_symbol: primary_type_symbol.map(str::to_string),
        array_depth,
        any_provenance: Vec::new(),
    }
}

fn order_explicit(alias: &str) -> SymbolRequest {
    SymbolRequest {
        symbol_name: "Order".to_string(),
        source_file: "src/types.ts".to_string(),
        alias: Some(alias.to_string()),
        array_depth: None,
    }
}

fn response_body_infer(alias: &str) -> InferRequestItem {
    InferRequestItem {
        file_path: "/repo/src/handler.ts".to_string(),
        line_number: 7,
        span_start: Some(10),
        span_end: Some(20),
        expression_text: None,
        expression_line: None,
        infer_kind: InferKind::ResponseBody,
        alias: Some(alias.to_string()),
        param_name: None,
    }
}

#[test]
fn an_unrequested_manifest_alias_ships_as_an_unknown_placeholder() {
    let explicit = vec![order_explicit("Endpoint_requested_Response")];
    let manifest = vec![
        "Endpoint_unrequested_Response".to_string(),
        "Endpoint_requested_Response".to_string(),
        "Endpoint_alsoMissing_Request".to_string(),
        "Endpoint_alsoMissing_Request".to_string(),
    ];

    let anchors = derive_capture_anchors(&explicit, &vec![], &vec![], &vec![], &manifest, "/repo");

    assert_eq!(
        anchors.len(),
        3,
        "one anchor per distinct alias, requested or not: {anchors:?}"
    );
    assert!(
        matches!(&anchors[0], CaptureAnchor::Symbol { alias, .. }
            if alias == "Endpoint_requested_Response"),
        "a requested alias keeps its real anchor: {:?}",
        anchors[0]
    );
    let placeholders: Vec<(&str, &str)> = anchors[1..]
        .iter()
        .map(|anchor| match anchor {
            CaptureAnchor::Literal {
                alias,
                type_text,
                anchor_origin,
                source_file,
            } => {
                assert_eq!(*anchor_origin, AnchorOrigin::ManifestPlaceholder);
                assert_eq!(*source_file, None, "`unknown` names no file to load");
                (alias.as_str(), type_text.as_str())
            }
            other => panic!("expected a placeholder literal, got {other:?}"),
        })
        .collect();
    assert_eq!(
        placeholders,
        vec![
            ("Endpoint_alsoMissing_Request", "unknown"),
            ("Endpoint_unrequested_Response", "unknown"),
        ],
        "sorted, so the surface order follows the manifest and not a hash walk"
    );
}

#[test]
fn derive_anchors_drops_symbol_anchor_when_the_inference_was_blind() {
    let explicit = vec![order_explicit("Endpoint_blind_Response")];
    let infer = vec![response_body_infer("Endpoint_blind_Response")];
    let inferred_types = vec![inferred("Endpoint_blind_Response", "any", None, None)];

    let anchors = derive_capture_anchors(&explicit, &infer, &vec![], &inferred_types, &vec![], "/repo");

    assert_eq!(
        anchors.len(),
        1,
        "expected exactly the infer anchor, got {:?}",
        anchors
    );
    match &anchors[0] {
        CaptureAnchor::Infer { alias, .. } => {
            assert_eq!(alias, "Endpoint_blind_Response")
        }
        other => panic!(
            "a blind inference must demote the LLM symbol anchor to its \
             locator-based infer anchor, got {:?}",
            other
        ),
    }
}

#[test]
fn derive_anchors_keeps_an_inferrer_decision_that_there_is_no_body() {
    let mut decided = inferred("Endpoint_redirect_Response", "unknown", None, None);
    decided.any_provenance = vec![TypeProvenance {
        path: String::new(),
        kind: "unknown".to_string(),
        reason: "no_success_payload".to_string(),
        detail: None,
    }];
    let blind = inferred("Endpoint_blind_Response", "unknown", None, None);
    let infer = vec![
        response_body_infer("Endpoint_redirect_Response"),
        response_body_infer("Endpoint_blind_Response"),
    ];

    let anchors = derive_capture_anchors(&vec![], &infer, &vec![], &vec![decided, blind], &vec![], "/repo");

    assert_eq!(anchors.len(), 2, "{anchors:?}");
    match &anchors[0] {
        CaptureAnchor::Literal {
            alias, type_text, ..
        } => {
            assert_eq!(alias, "Endpoint_redirect_Response");
            assert_eq!(type_text, "unknown");
        }
        other => panic!("a decided abstain must stay a literal unknown, got {other:?}"),
    }
    assert!(
        matches!(&anchors[1], CaptureAnchor::Infer { alias, .. } if alias == "Endpoint_blind_Response"),
        "a blind inference without a decision keeps its infer anchor, got {:?}",
        anchors[1]
    );
}

#[test]
fn derive_anchors_prefer_a_sighted_sibling_over_a_decided_abstain() {
    let mut abstained = inferred("Endpoint_prefs_Response", "unknown", None, None);
    abstained.any_provenance = vec![TypeProvenance {
        path: String::new(),
        kind: "unknown".to_string(),
        reason: "projected_value_only".to_string(),
        detail: None,
    }];
    let sighted = inferred(
        "Endpoint_prefs_Response",
        "{ flags: { [key: string]: boolean; }; version: string; }",
        Some("PreferenceEnvelope"),
        None,
    );
    let infer = vec![response_body_infer("Endpoint_prefs_Response")];

    let anchors = derive_capture_anchors(&vec![], &infer, &vec![], &vec![abstained, sighted], &vec![], "/repo");

    assert_eq!(anchors.len(), 1, "{anchors:?}");
    match &anchors[0] {
        CaptureAnchor::Literal {
            alias, type_text, ..
        } => {
            assert_eq!(alias, "Endpoint_prefs_Response");
            assert_eq!(
                type_text, "{ flags: { [key: string]: boolean; }; version: string; }",
                "the site that stated a payload owns the alias"
            );
        }
        other => panic!("a sighted sibling must carry the alias, got {other:?}"),
    }
}

#[test]
fn derive_anchors_drops_symbol_anchor_on_blind_unknown() {
    let explicit = vec![order_explicit("Endpoint_blind_Response")];
    let infer = vec![response_body_infer("Endpoint_blind_Response")];
    let inferred_types = vec![inferred("Endpoint_blind_Response", "unknown", None, None)];

    let anchors = derive_capture_anchors(&explicit, &infer, &vec![], &inferred_types, &vec![], "/repo");
    assert!(
        matches!(anchors.as_slice(), [CaptureAnchor::Infer { .. }]),
        "got {:?}",
        anchors
    );
}

#[test]
fn derive_anchors_keeps_symbol_anchor_whenever_the_inference_saw_anything() {
    let sighted = derive_capture_anchors(
        &vec![SymbolRequest {
            array_depth: Some(1),
            ..order_explicit("Endpoint_a_Response")
        }],
        &vec![response_body_infer("Endpoint_a_Response")],
        &vec![],
        &vec![inferred(
            "Endpoint_a_Response",
            "{ id: number; }[]",
            Some("Order"),
            Some(1),
        )],
        &vec![],
        "/repo",
    );
    assert!(
        matches!(
            sighted.as_slice(),
            [CaptureAnchor::Symbol {
                array_depth: Some(1),
                ..
            }]
        ),
        "got {:?}",
        sighted
    );

    let partial = derive_capture_anchors(
        &vec![order_explicit("Endpoint_b_Response")],
        &vec![response_body_infer("Endpoint_b_Response")],
        &vec![],
        &vec![inferred(
            "Endpoint_b_Response",
            "{ ok: boolean; count: any; }",
            None,
            None,
        )],
        &vec![],
        "/repo",
    );
    assert!(
        matches!(partial.as_slice(), [CaptureAnchor::Symbol { .. }]),
        "partial decay is not blindness; got {:?}",
        partial
    );

    let no_inference = derive_capture_anchors(
        &vec![order_explicit("Endpoint_c_Response")],
        &vec![],
        &vec![],
        &vec![],
        &vec![],
        "/repo",
    );
    assert!(
        matches!(no_inference.as_slice(), [CaptureAnchor::Symbol { .. }]),
        "got {:?}",
        no_inference
    );

    let mixed = derive_capture_anchors(
        &vec![order_explicit("Endpoint_d_Response")],
        &vec![response_body_infer("Endpoint_d_Response")],
        &vec![],
        &vec![
            inferred("Endpoint_d_Response", "any", None, None),
            inferred("Endpoint_d_Response", "Order[]", Some("Order"), Some(1)),
        ],
        &vec![],
        "/repo",
    );
    assert!(
        matches!(mixed.as_slice(), [CaptureAnchor::Symbol { .. }]),
        "got {:?}",
        mixed
    );

    let sdl_depth = derive_capture_anchors(
        &vec![SymbolRequest {
            array_depth: Some(1),
            ..order_explicit("Endpoint_e_Response")
        }],
        &vec![response_body_infer("Endpoint_e_Response")],
        &vec![],
        &vec![inferred("Endpoint_e_Response", "any", None, None)],
        &vec![],
        "/repo",
    );
    assert!(
        matches!(
            sdl_depth.as_slice(),
            [CaptureAnchor::Symbol {
                array_depth: Some(1),
                ..
            }]
        ),
        "got {:?}",
        sdl_depth
    );
}

#[test]
fn disqualifying_top_type_token_scan() {
    for text in [
        "any",
        "unknown",
        "any[]",
        "Array<any>",
        "Promise<any>",
        "Record<string, any>",
        "{ [k: string]: any }",
        "{ orderId: string; metadata: any }",
        "{ a: { b: unknown } }",
        "{ items: any[] }",
        "Promise<{ data: unknown }>",
        "(string | any)[]",
    ] {
        assert!(
            contains_disqualifying_top_type(text),
            "must disqualify: {text}"
        );
    }
    for text in [
        "{ ok: boolean }",
        "string[]",
        "Promise<{ a: string }>",
        "{ kind: \"any\" }",
        "{ kind: 'unknown' }",
        "{ any: string }",
        "{ any?: string }",
        "{ unknown: number }",
        "{ company: string }",
        "Anything",
        "{ unknownField: number; anyhow: string }",
    ] {
        assert!(
            !contains_disqualifying_top_type(text),
            "must NOT disqualify: {text}"
        );
    }
}

#[test]
fn derive_anchors_rejects_container_decayed_inferred_text() {
    let infer_item = |alias: &str| InferRequestItem {
        file_path: "src/bus.ts".to_string(),
        line_number: 4,
        span_start: None,
        span_end: None,
        expression_text: Some("payload".to_string()),
        expression_line: Some(4),
        infer_kind: InferKind::Expression,
        alias: Some(alias.to_string()),
        param_name: None,
    };
    let inferred_type = |alias: &str, text: &str| InferredType {
        alias: alias.to_string(),
        type_string: text.to_string(),
        primary_type_symbol: None,
        array_depth: None,
        any_provenance: Vec::new(),
    };

    let infer = vec![
        infer_item("Pub_PromiseAny"),
        infer_item("Pub_ArrayAny"),
        infer_item("Pub_MemberAny"),
        infer_item("Pub_Clean"),
    ];
    let inferred = vec![
        inferred_type("Pub_PromiseAny", "Promise<any>"),
        inferred_type("Pub_ArrayAny", "any[]"),
        inferred_type("Pub_MemberAny", "{ orderId: string; metadata: any }"),
        inferred_type("Pub_Clean", "{ ok: boolean }"),
    ];

    let anchors = derive_capture_anchors(&vec![], &infer, &vec![], &inferred, &vec![], ".");
    assert_eq!(anchors.len(), 4);
    for (anchor, alias) in
        anchors
            .iter()
            .zip(["Pub_PromiseAny", "Pub_ArrayAny", "Pub_MemberAny"])
    {
        match anchor {
            CaptureAnchor::Infer { alias: a, .. } => assert_eq!(a, alias),
            other => {
                panic!("{alias}: decayed text must fall back to an infer anchor, got {other:?}")
            }
        }
    }
    match &anchors[3] {
        CaptureAnchor::Literal {
            alias, type_text, ..
        } => {
            assert_eq!(alias, "Pub_Clean");
            assert_eq!(type_text, "{ ok: boolean }");
        }
        other => panic!("clean text must stay a literal anchor, got {other:?}"),
    }
}

#[test]
fn derive_anchors_carry_function_param_locator_for_subscribers() {
    let request = |alias: &str, kind: InferKind, param: Option<&str>| {
        InferRequestItem {
            file_path: "src/subscriber.ts".to_string(),
            line_number: 12,
            span_start: None,
            span_end: None,
            expression_text: None,
            expression_line: None,
            infer_kind: kind,
            alias: Some(alias.to_string()),
            param_name: param.map(str::to_string),
        }
    };

    let infer = vec![
        request("Sub_Producer", InferKind::FunctionParam, Some("msg")),
        request(
            "Sub_Destructured",
            InferKind::FunctionParam,
            Some("{ orderId, total }"),
        ),
        request("Pub_Consumer", InferKind::Expression, Some("msg")),
    ];

    let anchors = derive_capture_anchors(&vec![], &infer, &vec![], &vec![], &vec![], ".");
    assert_eq!(anchors.len(), 3);
    let param_of = |index: usize| match &anchors[index] {
        CaptureAnchor::Infer {
            param_name,
            line_number,
            ..
        } => {
            assert_eq!(*line_number, Some(12));
            param_name.clone()
        }
        other => panic!("expected an infer anchor, got {other:?}"),
    };
    assert_eq!(param_of(0).as_deref(), Some("msg"));
    assert_eq!(param_of(1).as_deref(), Some("{ orderId, total }"));
    assert_eq!(param_of(2), None);
}

#[test]
fn derive_anchors_prefers_v1_inferred_text_for_infer_aliases() {
    let infer_item = |alias: &str| InferRequestItem {
        file_path: "src/bus.ts".to_string(),
        line_number: 4,
        span_start: None,
        span_end: None,
        expression_text: Some("payload".to_string()),
        expression_line: Some(4),
        infer_kind: InferKind::Expression,
        alias: Some(alias.to_string()),
        param_name: None,
    };
    let inferred_type = |alias: &str, text: &str| InferredType {
        alias: alias.to_string(),
        type_string: text.to_string(),
        primary_type_symbol: None,
        array_depth: None,
        any_provenance: Vec::new(),
    };

    let infer = vec![infer_item("Pub_Resolved"), infer_item("Pub_Unresolved")];
    let inferred = vec![
        inferred_type("Pub_Resolved", "{ time: string; item: string; }"),
        inferred_type("Pub_Unresolved", "unknown"),
    ];

    let anchors = derive_capture_anchors(&vec![], &infer, &vec![], &inferred, &vec![], ".");
    assert_eq!(anchors.len(), 2);
    match &anchors[0] {
        CaptureAnchor::Literal {
            alias,
            type_text,
            anchor_origin,
            source_file,
        } => {
            assert_eq!(alias, "Pub_Resolved");
            assert_eq!(type_text, "{ time: string; item: string; }");
            assert_eq!(*anchor_origin, AnchorOrigin::DeterministicInfer);
            assert_eq!(source_file.as_deref(), Some("src/bus.ts"));
        }
        other => panic!(
            "expected literal anchor from inferred text, got {:?}",
            other
        ),
    }
    match &anchors[1] {
        CaptureAnchor::Infer { alias, .. } => assert_eq!(alias, "Pub_Unresolved"),
        other => panic!("expected locator infer anchor, got {:?}", other),
    }
}

fn record(
    alias: &str,
    anchor_kind: &str,
    self_check: &str,
    failure: Option<&str>,
) -> CaptureAliasRecord {
    CaptureAliasRecord {
        alias: alias.to_string(),
        anchor_kind: anchor_kind.to_string(),
        self_check: self_check.to_string(),
        capture_failure_reason: failure.map(str::to_string),
        top_type_at_self_check: failure.is_some(),
        any_provenance: Vec::new(),
    }
}

fn symbol_anchor(alias: &str) -> CaptureAnchor {
    CaptureAnchor::Symbol {
        alias: alias.to_string(),
        symbol_name: "Notification".to_string(),
        source_file: "src/routes.ts".to_string(),
        anchor_origin: AnchorOrigin::LlmSymbol,
        array_depth: None,
    }
}

#[test]
fn backfill_anchors_replaces_only_demoted_with_text() {
    let anchors = vec![
        symbol_anchor("A_demoted"),
        symbol_anchor("B_healthy"),
        symbol_anchor("C_demoted_no_text"),
        CaptureAnchor::Literal {
            alias: "D_literal_demoted".to_string(),
            type_text: "{ ok: boolean }".to_string(),
            anchor_origin: AnchorOrigin::DeterministicInfer,
            source_file: None,
        },
    ];
    let records = vec![
        record(
            "A_demoted",
            "symbol",
            "decayed_internal",
            Some("emit skipped"),
        ),
        record("B_healthy", "symbol", "ok", None),
        record(
            "C_demoted_no_text",
            "symbol",
            "decayed_internal",
            Some("emit skipped"),
        ),
        record(
            "D_literal_demoted",
            "literal",
            "decayed_internal",
            Some("bad text"),
        ),
    ];
    let mut texts: TextMap<String> = TextMap::new();
    texts.insert(
        "A_demoted".to_string(),
        "{ id: string; read: boolean; }".to_string(),
    );
    texts.insert(
        "B_healthy".to_string(),
        "{ never: string }".to_string(),
    );
    texts.insert(
        "D_literal_demoted".to_string(),
        "{ ok: boolean }".to_string(),
    );

    let (rerun, backfilled) =
        backfill_anchors(&anchors, &records, &texts).expect("one backfillable alias");
    assert_eq!(backfilled.len(), 1);
    assert!(backfilled.contains("A_demoted"));
    assert_eq!(rerun.len(), anchors.len());
    match &rerun[0] {
        CaptureAnchor::Literal {
            alias,
            type_text,
            anchor_origin,
            source_file,
        } => {
            assert_eq!(alias, "A_demoted");
            assert_eq!(type_text, "{ id: string; read: boolean; }");
            assert_eq!(*anchor_origin, AnchorOrigin::AnchorBackfill);
            assert_eq!(
                source_file.as_deref(),
                Some("src/routes.ts"),
                "the backfill keeps the replaced anchor's file"
            );
        }
        other => panic!("demoted alias must become a backfill literal, got {other:?}"),
    }
    assert_eq!(rerun[1], anchors[1], "healthy anchor untouched");
    assert_eq!(rerun[2], anchors[2], "no-text demotion keeps its anchor");
    assert_eq!(rerun[3], anchors[3], "literal anchor never re-anchored");
}

#[test]
fn backfill_anchors_none_without_candidates() {
    let anchors = vec![symbol_anchor("A")];
    let healthy = vec![record("A", "symbol", "ok", None)];
    let mut texts: TextMap<String> = TextMap::new();
    texts.insert("A".to_string(), "{ ok: boolean }".to_string());
    assert!(backfill_anchors(&anchors, &healthy, &texts).is_none());

    let demoted = vec![record(
        "A",
        "symbol",
        "decayed_internal",
        Some("emit skipped"),
    )];
    assert!(backfill_anchors(&anchors, &demoted, &TextMap::new()).is_none());
}

#[test]
fn backfill_accepted_rules() {
    let backfilled = text_set(vec!["A".to_string()]);
    let first = vec![
        record("A", "symbol", "decayed_internal", Some("emit skipped")),
        record("B", "symbol", "ok", None),
    ];

    let clean = vec![
        record("A", "literal", "ok", None),
        record("B", "symbol", "ok", None),
    ];
    assert!(backfill_accepted(&backfilled, &first, &clean));

    let still_demoted = vec![
        record("A", "literal", "decayed_internal", Some("dangling")),
        record("B", "symbol", "ok", None),
    ];
    assert!(!backfill_accepted(&backfilled, &first, &still_demoted));

    let allowlisted = vec![
        record("A", "literal", "allowlisted_external", None),
        record("B", "symbol", "ok", None),
    ];
    assert!(!backfill_accepted(&backfilled, &first, &allowlisted));

    let mut top_typed = vec![
        record("A", "literal", "ok", None),
        record("B", "symbol", "ok", None),
    ];
    top_typed[0].top_type_at_self_check = true;
    assert!(!backfill_accepted(&backfilled, &first, &top_typed));

    let mut deep = vec![
        record("A", "literal", "ok", None),
        record("B", "symbol", "ok", None),
    ];
    deep[0].any_provenance = vec![TypeProvenance {
        path: "meta".to_string(),
        kind: "any".to_string(),
        reason: "declared".to_string(),
        detail: None,
    }];
    assert!(!backfill_accepted(&backfilled, &first, &deep));

    let sibling_degraded = vec![
        record("A", "literal", "ok", None),
        record("B", "symbol", "decayed_internal", None),
    ];
    assert!(!backfill_accepted(&backfilled, &first, &sibling_degraded));

    let mut sibling_top_typed = vec![
        record("A", "literal", "ok", None),
        record("B", "symbol", "ok", None),
    ];
    sibling_top_typed[1].top_type_at_self_check = true;
    assert!(!backfill_accepted(&backfilled, &first, &sibling_top_typed));

    let sibling_missing = vec![record("A", "literal", "ok", None)];
    assert!(!backfill_accepted(&backfilled, &first, &sibling_missing));

    let backfilled_missing = vec![record("B", "symbol", "ok", None)];
    assert!(!backfill_accepted(&backfilled, &first, &backfilled_missing));
}

#[test]
fn derive_backfill_texts_precedence_and_filters() {
    let manifest_entry = |alias: &str, text: &str| ManifestEntry {
        alias: alias.to_string(),
        type_string: text.to_string(),
    };
    let inferred_type = |alias: &str, text: &str| InferredType {
        alias: alias.to_string(),
        type_string: text.to_string(),
        primary_type_symbol: None,
        array_depth: None,
        any_provenance: Vec::new(),
    };

    let explicit = vec![
        manifest_entry("A", "{ id: string; read: boolean; }"),
        manifest_entry("B", "interface Notification { id: string; }"),
        manifest_entry("C", "{ metadata: any }"),
    ];
    let inferred = vec![
        inferred_type("A", "{ id: string }"),
        inferred_type("B", "{ id: string; }"),
        inferred_type("C", "unknown"),
        inferred_type("D", "{ ok: boolean; }"),
    ];

    let texts = derive_backfill_texts(&explicit, &inferred);
    assert_eq!(
        texts.get("A").map(String::as_str),
        Some("{ id: string; read: boolean; }"),
        "explicit bundle text wins"
    );
    assert_eq!(
        texts.get("B").map(String::as_str),
        Some("{ id: string; }"),
        "declaration-shaped explicit text is rejected; inference fills in"
    );
    assert!(!texts.contains_key("C"), "poisoned texts never backfill");
    assert_eq!(texts.get("D").map(String::as_str), Some("{ ok: boolean; }"));
}

#[test]
fn build_pairs_http_specificity_and_cross_service_only() {
    let key_param = OperationKey::http("GET", "/users/:id");
    let key_literal = OperationKey::http("GET", "/users/me");
    let consumer_key = OperationKey::http("GET", "/users/me");

    let producer_repo = repo(
        "api",
        None,
        vec![
            entry(
                key_param.clone(),
                ManifestRole::Producer,
                ManifestTypeKind::Response,
                "P_param",
                "src/routes.ts",
                3,
                ManifestTypeState::Explicit,
            ),
            entry(
                key_literal.clone(),
                ManifestRole::Producer,
                ManifestTypeKind::Response,
                "P_literal",
                "src/routes.ts",
                9,
                ManifestTypeState::Explicit,
            ),
        ],
        Some(fake_artifact()),
    );
    let consumer_repo = repo(
        "web",
        None,
        vec![entry(
            consumer_key.clone(),
            ManifestRole::Consumer,
            ManifestTypeKind::Response,
            "C_me",
            "src/client.ts",
            12,
            ManifestTypeState::Explicit,
        )],
        Some(fake_artifact()),
    );
    let self_repo = repo(
        "web",
        None,
        vec![entry(
            key_literal.clone(),
            ManifestRole::Producer,
            ManifestTypeKind::Response,
            "P_self",
            "src/self.ts",
            1,
            ManifestTypeState::Explicit,
        )],
        Some(fake_artifact()),
    );

    let pairs = build_check_pairs(&vec![producer_repo, consumer_repo, self_repo]);
    assert_eq!(pairs.len(), 1, "one pair: the most specific producer wins");
    let pair = &pairs[0];
    assert_eq!(pair.producer_alias, "P_literal");
    assert_eq!(pair.consumer_alias, "C_me");
    assert_eq!(pair.pseudo_method, "GET");
    assert_eq!(pair.identity, "/users/me");
    assert_eq!(pair.consumer_file, "src/client.ts");
    assert_eq!(pair.consumer_line, 12);
    assert!(pair.pre_verdict.is_none());
    assert_eq!(pair.spec.protocol, ProbeProtocol::Http);
    assert_eq!(pair.spec.type_kind, ProbeTypeKind::Response);
}

#[test]
fn build_pairs_exact_key_protocols() {
    let topic = OperationKey::pubsub("order.placed");
    let producer_repo = repo(
        "worker",
        Some("billing"),
        vec![entry(
            topic.clone(),
            ManifestRole::Producer,
            ManifestTypeKind::Response,
            "P_topic",
            "src/subscriber.ts",
            4,
            ManifestTypeState::Explicit,
        )],
        Some(fake_artifact()),
    );
    let consumer_repo = repo(
        "orders",
        Some("orders-engine"),
        vec![entry(
            topic.clone(),
            ManifestRole::Consumer,
            ManifestTypeKind::Response,
            "C_topic",
            "src/publisher.ts",
            21,
            ManifestTypeState::Explicit,
        )],
        Some(fake_artifact()),
    );

    let pairs = build_check_pairs(&vec![producer_repo, consumer_repo]);
    assert_eq!(pairs.len(), 1);
    assert_eq!(pairs[0].pseudo_method, "PUBSUB");
    assert_eq!(pairs[0].identity, "order.placed");
    assert_eq!(pairs[0].spec.protocol, ProbeProtocol::Pubsub);
    assert_eq!(pairs[0].spec.type_kind, ProbeTypeKind::Both);
    assert_eq!(pairs[0].producer_service, "billing");
    assert_eq!(pairs[0].consumer_service, "orders-engine");
}

#[test]
fn build_pairs_pre_verdicts_only_surfaceless() {
    let key = OperationKey::http("GET", "/orders");
    let no_surface_producer = repo(
        "api",
        None,
        vec![entry(
            key.clone(),
            ManifestRole::Producer,
            ManifestTypeKind::Response,
            "P",
            "src/routes.ts",
            3,
            ManifestTypeState::Explicit,
        )],
        None,
    );
    let consumer_ok = repo(
        "web",
        None,
        vec![entry(
            key.clone(),
            ManifestRole::Consumer,
            ManifestTypeKind::Response,
            "C",
            "src/client.ts",
            8,
            ManifestTypeState::Explicit,
        )],
        Some(fake_artifact()),
    );
    let pairs = build_check_pairs(&vec![no_surface_producer, consumer_ok.clone()]);
    assert_eq!(pairs.len(), 1);
    let (bucket, reason) = pairs[0].pre_verdict.as_ref().expect("pre-verdict");
    assert_eq!(*bucket, VerdictBucket::Unverifiable);
    assert!(reason.contains("no v2 type surface"), "{reason}");

    let unresolved_producer = repo(
        "api",
        None,
        vec![entry(
            key.clone(),
            ManifestRole::Producer,
            ManifestTypeKind::Response,
            "P",
            "src/routes.ts",
            3,
            ManifestTypeState::Unknown,
        )],
        Some(fake_artifact()),
    );
    let pairs = build_check_pairs(&vec![unresolved_producer, consumer_ok]);
    assert_eq!(pairs.len(), 1);
    assert!(
        pairs[0].pre_verdict.is_none(),
        "an Unknown-state side WITH a surface must probe, got {:?}",
        pairs[0].pre_verdict
    );
}

#[test]
fn a_capture_that_backfills_nothing_keeps_its_first_artifact() {
    let anchors = vec![symbol_anchor("A")];
    assert!(matches!(first_capture_step(&vec![]), CaptureStep::GiveUp));
    assert!(matches!(first_capture_step(&anchors), CaptureStep::CaptureFirst));
    let texts: TextMap<String> = TextMap::new();
    assert!(matches!(step_after_first(&anchors, None, &texts), CaptureStep::GiveUp));
    let healthy = vec![record("A", "symbol", "ok", None)];
    assert!(matches!(step_after_first(&anchors, Some(&healthy), &texts), CaptureStep::KeepFirst));
}

#[test]
fn a_second_capture_is_adopted_only_when_it_verified_clean() {
    let anchors = vec![symbol_anchor("A")];
    let demoted = vec![record("A", "symbol", "decayed_internal", Some("emit skipped"))];
    let mut texts: TextMap<String> = TextMap::new();
    texts.insert("A".to_string(), "{ ok: boolean }".to_string());
    let CaptureStep::CaptureAgain { anchors: rerun, backfilled } = step_after_first(&anchors, Some(&demoted), &texts)
    else {
        panic!("a demoted alias with a text is captured again");
    };
    assert_eq!(rerun.len(), 1);
    let clean = vec![record("A", "literal", "ok", None)];
    assert!(matches!(step_after_second(&backfilled, &demoted, Some(&clean)), CaptureStep::AdoptSecond));
    assert!(matches!(step_after_second(&backfilled, &demoted, Some(&demoted)), CaptureStep::KeepFirst));
    assert!(matches!(step_after_second(&backfilled, &demoted, None), CaptureStep::KeepFirst));
}

fn response_repos() -> Vec<CloudRepoData> {
    let key = OperationKey::http("POST", "/p");
    let mut producer = entry(
        key.clone(),
        ManifestRole::Producer,
        ManifestTypeKind::Response,
        "P",
        "src/routes.ts",
        3,
        ManifestTypeState::Explicit,
    );
    producer.expanded_definition = Some("{ y: number; }".to_string());
    let consumer = entry(
        key,
        ManifestRole::Consumer,
        ManifestTypeKind::Response,
        "C",
        "src/client.ts",
        8,
        ManifestTypeState::Unknown,
    );
    vec![
        repo("api", None, vec![producer], Some(fake_artifact())),
        repo("web", None, vec![consumer], Some(fake_artifact())),
    ]
}

#[test]
fn a_failed_check_leaves_every_probed_pair_unverifiable() {
    let outcomes = run_check(
        &response_repos(),
        &LocalConsumers::new(),
        &CheckReply::Failed { reason: "the sidecar died".to_string() },
        &TextMap::new(),
    );
    assert_eq!(outcomes.len(), 1);
    assert_eq!(outcomes[0].bucket, VerdictBucket::Unverifiable);
    assert!(!outcomes[0].resolved);
    assert_eq!(outcomes[0].unresolved_reason.as_deref(), Some("type check did not run: the sidecar died"));
    assert_eq!(outcomes[0].diagnostic, outcomes[0].unresolved_reason);
}

#[test]
fn a_check_without_stubs_never_asks_the_sidecar() {
    let Some(CheckReply::Failed { reason }) = check_without_stubs(&vec![]) else {
        panic!("there is nothing to check against");
    };
    assert_eq!(reason, "no capture stubs available");
    let stub = CheckStubInput { service_name: "api".to_string(), stub_dir: "/tmp/api".to_string() };
    assert!(check_without_stubs(&vec![stub]).is_none());
}

#[test]
fn only_the_open_pairs_of_a_local_service_are_listed() {
    let repos = response_repos();
    let pairs = build_check_pairs(&repos);
    let failed = CheckReply::Failed { reason: "the sidecar died".to_string() };
    let outcomes = run_check(&repos, &LocalConsumers::new(), &failed, &TextMap::new());
    assert_eq!(
        log_unresolved_pairs(&outcomes, &pairs, &web_consumer()),
        vec![
            "Types not verified: POST /p response (src/client.ts:8 in web against api): \
             type check did not run: the sidecar died"
                .to_string()
        ]
    );
    assert!(log_unresolved_pairs(&outcomes, &pairs, &LocalConsumers::new()).is_empty());
}

#[test]
fn a_retyped_call_decides_what_the_check_left_open() {
    let repos = response_repos();
    let specs = probing_specs(&build_check_pairs(&repos));
    assert_eq!(specs.len(), 1);
    let reply = CheckReply::Verdicts {
        verdicts: vec![CheckVerdict {
            pair_key: specs[0].pair_key.clone(),
            bucket: VerdictBucket::Unverifiable,
            gate: Some("consumer:unknown".to_string()),
            diagnostic: None,
            resolved: false,
            unresolved_reason: Some("the consumer type is 'unknown'".to_string()),
            unresolved_side: Some(VerdictSide::Consumer),
            notes: Vec::new(),
        }],
    };
    let mut replies: TextMap<RetypeReply> = TextMap::new();
    replies.insert(
        "web".to_string(),
        RetypeReply::Answers {
            answers: vec![RetypeOutcome {
                item_id: specs[0].pair_key.clone(),
                outcome: RetypeVerdict::Agrees,
                diagnostics: Vec::new(),
                reason: None,
            }],
        },
    );
    let outcomes = run_check(&repos, &web_consumer(), &reply, &replies);
    assert_eq!(outcomes[0].bucket, VerdictBucket::Compatible);
    assert!(outcomes[0].resolved);
    let without = run_check(&repos, &LocalConsumers::new(), &reply, &replies);
    assert_eq!(without[0].bucket, VerdictBucket::Unverifiable);
}

#[test]
fn services_of_one_name_get_directories_of_their_own() {
    let of = |name: &str| repo(name, None, vec![], Some(fake_artifact()));
    let stubs = materialize_stubs(&vec![of("a/b"), of("a_b"), repo("plain", None, vec![], None), of("web")]);
    assert_eq!(
        stubs,
        vec![
            ("a/b".to_string(), "a_b".to_string()),
            ("a_b".to_string(), "a_b_1".to_string()),
            ("web".to_string(), "web".to_string()),
        ]
    );
}

#[test]
fn local_consumers_are_taken_once() {
    let mut local = web_consumer();
    let taken = local.take_local_consumers();
    assert_eq!(taken.by_service.len(), 1);
    assert_eq!(local.by_service.len(), 0);
}

#[test]
fn a_declaration_is_no_backfill_text() {
    assert_eq!(usable_backfill_text("type X = { id: string; }"), None);
    assert_eq!(usable_backfill_text("{ id: string; }").as_deref(), Some("{ id: string; }"));
}

#[test]
fn a_numbered_name_does_not_share_a_directory_with_a_numbered_stub() {
    let of = |name: &str| repo(name, None, vec![], Some(fake_artifact()));
    let stubs = materialize_stubs(&vec![of("a/b"), of("a_b"), of("a_b_1")]);
    assert_eq!(
        stubs,
        vec![
            ("a/b".to_string(), "a_b".to_string()),
            ("a_b".to_string(), "a_b_1".to_string()),
            ("a_b_1".to_string(), "a_b_1_1".to_string()),
        ]
    );
}

#[test]
fn an_answer_that_nobody_asked_for_changes_nothing() {
    let repos = response_repos();
    let specs = probing_specs(&build_check_pairs(&repos));
    let mut replies: TextMap<RetypeReply> = TextMap::new();
    replies.insert(
        "web".to_string(),
        RetypeReply::Answers {
            answers: vec![RetypeOutcome {
                item_id: specs[0].pair_key.clone(),
                outcome: RetypeVerdict::Agrees,
                diagnostics: Vec::new(),
                reason: None,
            }],
        },
    );
    let failed = CheckReply::Failed { reason: "the sidecar died".to_string() };
    let outcomes = run_check(&repos, &web_consumer(), &failed, &replies);
    assert_eq!(outcomes.len(), 1);
    assert_eq!(outcomes[0].bucket, VerdictBucket::Unverifiable);
    assert!(!outcomes[0].resolved);
    assert_eq!(outcomes[0].unresolved_reason.as_deref(), Some("type check did not run: the sidecar died"));
}
