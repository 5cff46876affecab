use carrick::deno_support::{
    config_order, import_map_path, is_manifest, manifest_at, member_roots, require_runtime, resolution_inputs,
    runtime_supported, search_directories, service_directory, service_manifest, version_suffices, version_word,
    ConfigContent, FoundManifest, ReadConfig,
};
use carrick::json::Json;

fn object(fields: Vec<(&str, Json)>) -> Json {
    Json::Object(fields.into_iter().map(|(name, value)| (name.to_string(), value)).collect())
}

fn text(value: &str) -> Json {
    Json::Text(value.to_string())
}

#[test]
fn the_plain_manifest_is_found_before_the_commented_one() {
    assert_eq!(manifest_at("/r", true, true), Some("/r/deno.json".to_string()));
    assert_eq!(manifest_at("/r", false, true), Some("/r/deno.jsonc".to_string()));
    assert_eq!(manifest_at("/r", false, false), None);
    assert!(is_manifest("/r/deno.jsonc"));
    assert!(!is_manifest("/r/package.json"));
}

#[test]
fn a_search_goes_up_to_the_root() {
    assert_eq!(service_directory("/r", Some("apps/api")), "/r/apps/api");
    assert_eq!(search_directories("/r/apps/api", "/r"), vec!["/r/apps/api", "/r/apps", "/r"]);
    assert!(search_directories("/other", "/r").is_empty());
}

fn found(path: &str, members: Vec<Option<&str>>) -> FoundManifest {
    FoundManifest {
        path: path.to_string(),
        members: members.into_iter().map(|member| member.map(str::to_string)).collect(),
    }
}

#[test]
fn an_explicit_config_opts_out_of_discovery() {
    let above = vec![found("/r/deno.json", vec![])];
    assert_eq!(service_manifest("/r/api", Some("tsconfig.json"), &above, false, &None), None);
    assert_eq!(
        service_manifest("/r/api", Some("deno.json"), &above, false, &None),
        Some("/r/api/deno.json".to_string())
    );
    assert_eq!(service_manifest("/r/api", None, &vec![], false, &None), None);
}

#[test]
fn a_package_below_a_manifest_belongs_to_it_only_as_a_member() {
    let real = Some("/r/api".to_string());
    let stranger = vec![found("/r/deno.json", vec![Some("/r/web"), None])];
    assert_eq!(service_manifest("/r/api", None, &stranger, true, &real), None);
    assert_eq!(
        service_manifest("/r/api", None, &stranger, false, &real),
        Some("/r/deno.json".to_string())
    );
    let member = vec![found("/r/deno.json", vec![Some("/r/api")])];
    assert_eq!(service_manifest("/r/api", None, &member, true, &real), Some("/r/deno.json".to_string()));
    let own = vec![found("/r/api/deno.json", vec![])];
    assert_eq!(service_manifest("/r/api", None, &own, true, &real), Some("/r/api/deno.json".to_string()));
}

#[test]
fn the_members_of_a_workspace_lie_beside_its_manifest() {
    let json = object(vec![("workspace", Json::List(vec![text("api"), Json::Number(1), text("libs/kit")]))]);
    assert_eq!(member_roots("/r/deno.json", &json), vec!["/r/api", "/r/libs/kit"]);
    assert!(member_roots("/r/deno.json", &object(vec![])).is_empty());
}

#[test]
fn the_runtime_has_to_be_new_enough() {
    assert_eq!(version_word("deno 2.9.4 (stable, release)\nv8 14"), Some("2.9.4".to_string()));
    assert!(runtime_supported("deno 2.9.4 (stable, release)\nv8 14"));
    assert!(runtime_supported("deno 2.10.0"));
    assert!(runtime_supported("deno 3.0.0-rc.1"));
    assert!(!runtime_supported("deno 2.9.4-rc.1"));
    assert!(!runtime_supported("deno 2.9.3"));
    assert!(!runtime_supported("deno two"));
    assert!(!runtime_supported("node 22.0.0"));
    assert!(!runtime_supported(""));
    assert!(version_suffices(Some((2, 9, 4, String::new()))));
    assert!(!version_suffices(None));
}

#[test]
fn a_missing_runtime_is_reported_with_the_manifest() {
    let manifests = vec![None, Some("/r/deno.json".to_string())];
    assert_eq!(require_runtime(&manifests, Some("deno 2.9.4")), Ok(()));
    assert_eq!(require_runtime(&vec![None], None), Ok(()));
    let message = require_runtime(&manifests, None).unwrap_err();
    assert!(message.starts_with("Deno is required to scan /r/deno.json. Install or upgrade to Deno 2.9.4 or newer"));
}

#[test]
fn an_import_map_is_a_local_file() {
    let with = |value: Json| import_map_path("/r/deno.json", &object(vec![("importMap", value)]));
    assert_eq!(with(text("maps/a.json")), Ok(Some("/r/maps/a.json".to_string())));
    assert_eq!(import_map_path("/r/deno.json", &object(vec![])), Ok(None));
    assert_eq!(
        with(Json::Number(1)),
        Err("/r/deno.json: importMap must be a local file path".to_string())
    );
    let remote = "/r/deno.json: Carrick requires a local importMap file so dependency changes can invalidate its cache";
    assert_eq!(with(text("https://x.test/a.json")), Err(remote.to_string()));
    assert_eq!(with(text("data:application/json,{}")), Err(remote.to_string()));
}

fn config(path: &str, json: Json) -> ReadConfig {
    ReadConfig { path: path.to_string(), content: ConfigContent::Read(json) }
}

#[test]
fn every_configuration_and_its_lock_is_an_input() {
    let manifests = vec!["/r/api/deno.json".to_string()];
    let configs = vec![
        config("/r/api/deno.json", object(vec![("importMap", text("map.json"))])),
        config("/r/deno.json", object(vec![("lock", object(vec![("path", text("other.lock"))]))])),
        config("/r/web/deno.json", object(vec![("lock", Json::Bool(false))])),
    ];
    assert_eq!(
        resolution_inputs(&manifests, &configs),
        Ok(vec![
            "/r/api/deno.json".to_string(),
            "/r/api/deno.lock".to_string(),
            "/r/api/map.json".to_string(),
            "/r/deno.json".to_string(),
            "/r/other.lock".to_string(),
            "/r/web/deno.json".to_string(),
        ])
    );
    let plain = vec!["/r/package.json".to_string()];
    assert_eq!(resolution_inputs(&plain, &configs), Ok(plain.clone()));
    let broken = vec![ReadConfig {
        path: "/r/deno.json".to_string(),
        content: ConfigContent::Unreadable("no such file".to_string()),
    }];
    assert_eq!(resolution_inputs(&manifests, &broken), Err("no such file".to_string()));
}

#[test]
fn configurations_are_read_in_the_order_of_their_paths() {
    let declared = vec!["/r/web/deno.json".to_string(), "/r/deno.json".to_string()];
    let found = vec!["/r/api/deno.json".to_string(), "/r//deno.json".to_string()];
    assert_eq!(
        config_order(&declared, &found),
        vec!["/r/api/deno.json", "/r/deno.json", "/r/web/deno.json"]
    );
}

#[test]
fn a_search_keeps_the_spelling_of_the_directory() {
    assert_eq!(service_directory("root", None), "root/.");
    assert_eq!(search_directories("root/.", "root"), vec!["root/."]);
    assert_eq!(manifest_at("root/.", true, false), Some("root/./deno.json".to_string()));
    assert_eq!(search_directories("/r//apps/./api/", "/r"), vec!["/r//apps/./api/", "/r//apps", "/r"]);
    assert_eq!(search_directories("./a", "."), vec!["./a", "."]);
    assert_eq!(search_directories("a", ""), vec!["a", ""]);
    assert_eq!(search_directories("/a", "/"), vec!["/a", "/"]);
    let own = vec![found("root/./deno.json", vec![])];
    assert_eq!(service_manifest("root/.", None, &own, true, &None), Some("root/./deno.json".to_string()));
    let message = require_runtime(&vec![Some("root/./deno.json".to_string())], None).unwrap_err();
    assert!(message.starts_with("Deno is required to scan root/./deno.json."));
}
