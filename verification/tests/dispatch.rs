use carrick::config::{Config, DeclaredDispatch, DeclaredOperation, DeclaredOperations};
use carrick::dispatch::{
    apply_declared_operations, apply_with_warnings, collect_dispatch_tables, Dispatch, DispatchLocation, DispatchTable,
};
use carrick::findings::ResolutionSource;
use carrick::json::Json;
use carrick::mount_graph::{MatchEvidence, MountGraph, ResolvedEndpoint};
use carrick::ordered::TextMap;

fn body(field: &str, value: &str) -> Dispatch {
    Dispatch {
        location: DispatchLocation::Body,
        field: field.to_string(),
        value: value.to_string(),
    }
}

#[test]
fn location_wire_values_are_the_contract_the_cloud_reads() {
    assert_eq!(
        body("action", "upload-logs").serialize(),
        Json::Object(vec![
            ("location".to_string(), Json::Text("body".to_string())),
            ("field".to_string(), Json::Text("action".to_string())),
            ("value".to_string(), Json::Text("upload-logs".to_string())),
        ])
    );
    let header = DispatchLocation::from_word("header").expect("header is a wire value");
    assert_eq!(header, DispatchLocation::Header);
}

#[test]
fn a_plain_route_keeps_the_key_it_always_had() {
    assert_eq!(Dispatch::key_suffix(None), "");
    assert_eq!(
        Dispatch::key_suffix(Some(&body("action", "upload-logs"))),
        "#body:action=upload-logs"
    );
    assert_eq!(Dispatch::key_of(None), None);
    assert_eq!(
        Dispatch::key_of(Some(&body("action", "upload-logs"))),
        Some("body:action=upload-logs".to_string())
    );
}

fn block(route: Option<&str>, values: &[&str]) -> DeclaredOperations {
    DeclaredOperations {
        service: "check-or-upload".to_string(),
        route: route.map(str::to_string),
        dispatch: DeclaredDispatch {
            location: DispatchLocation::Body,
            field: "action".to_string(),
        },
        operations: values
            .iter()
            .map(|value| DeclaredOperation {
                value: value.to_string(),
                handler: Some(format!("lambdas/check-or-upload/index.ts:handle-{value}")),
            })
            .collect(),
    }
}

fn config_with(blocks: Vec<DeclaredOperations>) -> Config {
    Config {
        service_name: Some("check-or-upload".to_string()),
        declared_operations: blocks,
        ..Default::default()
    }
}

#[test]
fn a_declared_route_materialises_one_operation_per_value() {
    let mut graph = MountGraph::new();
    let written = apply_declared_operations(
        &mut graph,
        &config_with(vec![block(
            Some("POST /types/check-or-upload"),
            &["search-by-intent", "upload-logs"],
        )]),
    );

    assert_eq!(written, 2);
    assert_eq!(graph.endpoints.len(), 2);
    let values: Vec<&str> = graph
        .endpoints
        .iter()
        .map(|e| e.dispatch.as_ref().unwrap().value.as_str())
        .collect();
    assert_eq!(values, vec!["search-by-intent", "upload-logs"]);
    for endpoint in &graph.endpoints {
        assert_eq!(endpoint.method, "POST");
        assert_eq!(endpoint.full_path, "/types/check-or-upload");
        assert_eq!(
            endpoint.resolution_source,
            Some(ResolutionSource::DeclaredOperation),
            "a declared operation is a fact, not the model's reading"
        );
        assert_eq!(
            endpoint.file_location, "lambdas/check-or-upload/index.ts:0",
            "the row points at the handler, not at carrick.json"
        );
        assert_eq!(
            endpoint.evidence,
            MatchEvidence::RouteDefinition
        );
    }
}

#[test]
fn a_declaration_replaces_the_inferred_rows_for_its_route() {
    let mut graph = MountGraph::new();
    graph.endpoints.push(ResolvedEndpoint {
        method: "POST".to_string(),
        path: "/types/check-or-upload".to_string(),
        full_path: "/types/check-or-upload".to_string(),
        handler: Some("handler".to_string()),
        owner: "app".to_string(),
        file_location: "lambdas/check-or-upload/index.ts:390".to_string(),
        middleware_chain: vec![],
        repo_name: None,
        service_name: None,
        provenance: Default::default(),
        evidence: MatchEvidence::RouteDefinition,
        resolution_source: None,
        view_module: false,
        dispatch: None,
    });

    apply_declared_operations(
        &mut graph,
        &config_with(vec![block(
            Some("POST /types/check-or-upload"),
            &["search-by-intent"],
        )]),
    );

    assert_eq!(
        graph.endpoints.len(),
        1,
        "the plain row is gone, not kept beside the declared one"
    );
    assert_eq!(
        graph.endpoints[0].dispatch.as_ref().unwrap().value,
        "search-by-intent"
    );
}

#[test]
fn a_routeless_block_promotes_the_inferred_dispatching_route() {
    let mut graph = MountGraph::new();
    let inferred = |value: &str| ResolvedEndpoint {
        method: "POST".to_string(),
        path: "/types/check-or-upload".to_string(),
        full_path: "/types/check-or-upload".to_string(),
        handler: Some("handler".to_string()),
        owner: "app".to_string(),
        file_location: "lambdas/check-or-upload/index.ts:390".to_string(),
        middleware_chain: vec![],
        repo_name: None,
        service_name: None,
        provenance: Default::default(),
        evidence: MatchEvidence::RouteDefinition,
        resolution_source: Some(ResolutionSource::Model),
        view_module: false,
        dispatch: Some(Dispatch {
            location: DispatchLocation::Body,
            field: "action".to_string(),
            value: value.to_string(),
        }),
    };
    graph.endpoints.push(inferred("search-by-intent"));
    graph.endpoints.push(inferred("searchByIntent"));

    let written = apply_declared_operations(
        &mut graph,
        &config_with(vec![block(
            None,
            &["search-by-intent", "upload-logs", "download-file"],
        )]),
    );

    assert_eq!(written, 3);
    let mut values: Vec<&str> = graph
        .endpoints
        .iter()
        .map(|e| e.dispatch.as_ref().unwrap().value.as_str())
        .collect();
    values.sort();
    assert_eq!(
        values,
        vec!["download-file", "search-by-intent", "upload-logs"],
        "the declared set is the whole set; the misread case is gone"
    );
    assert!(
        graph
            .endpoints
            .iter()
            .all(|e| e.resolution_source == Some(ResolutionSource::DeclaredOperation)),
        "every surviving row is the repo's statement"
    );
}

#[test]
fn a_table_that_states_nothing_is_dropped() {
    let empty_values = DispatchTable {
        location: DispatchLocation::Body,
        field: "action".to_string(),
        values: vec![" ".to_string()],
        handler_name: None,
        file_path: String::new(),
        line_number: None,
        service_name: None,
        repo_name: None,
    };
    assert!(empty_values.normalized().is_none());

    let dupes = DispatchTable {
        location: DispatchLocation::Body,
        field: " action ".to_string(),
        values: vec!["a".to_string(), "a".to_string(), "b".to_string()],
        handler_name: None,
        file_path: String::new(),
        line_number: None,
        service_name: None,
        repo_name: None,
    };
    let kept = dupes.normalized().expect("a table with values is kept");
    assert_eq!(kept.field, "action");
    assert_eq!(kept.values, vec!["a".to_string(), "b".to_string()]);
}

fn table(field: &str, values: &[&str]) -> DispatchTable {
    DispatchTable {
        location: DispatchLocation::Header,
        field: field.to_string(),
        values: values.iter().map(|v| v.to_string()).collect(),
        handler_name: None,
        file_path: String::new(),
        line_number: None,
        service_name: None,
        repo_name: None,
    }
}

#[test]
fn tables_are_listed_by_file_whatever_the_order_of_the_walk() {
    let mut walked: TextMap<Vec<DispatchTable>> = TextMap::new();
    walked.insert("b.ts".to_string(), vec![table("x", &["2"])]);
    walked.insert("a.ts".to_string(), vec![table("x", &["1"])]);
    let tables = collect_dispatch_tables(&walked).unwrap();
    let files: Vec<&str> = tables.iter().map(|t| t.file_path.as_str()).collect();
    assert_eq!(files, vec!["a.ts", "b.ts"]);
    let none: TextMap<Vec<DispatchTable>> = TextMap::new();
    assert!(collect_dispatch_tables(&none).is_none());
}

#[test]
fn a_block_without_a_route_to_stand_on_is_warned_about() {
    let mut graph = MountGraph::new();
    let (written, warnings) = apply_with_warnings(&mut graph, &config_with(vec![block(None, &["a"])]));
    assert_eq!(written, 0);
    assert_eq!(warnings.len(), 1);
    assert!(graph.endpoints.is_empty());
}
