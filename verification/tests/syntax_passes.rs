//! The passes over syntax, on sources that are parsed for them.

use carrick::env_alias::schema::{module_env_schema, source_env_schema, EnvSchemaIndex};
use carrick::env_alias::targets::{
    resolve_target_env_alias, resolve_target_literal_base, resolve_whole_url_target, whole_url_local_default,
};
use carrick::env_alias::{
    exported_env_aliases, exported_source_aliases, merge_imported_env_aliases, EnvAliasExtractor, EnvAliasMap,
    LiteralBaseMap, WholeUrlFallbackMap,
};
use carrick::event_emitter::{
    scan_files, scan_sources, BusExtraction, BusOp, SocketExtraction, SocketOp, SourceFile,
};
use carrick::external_call_candidates::collect::{collect_facts, collect_source, TargetMap};
use carrick::external_call_candidates::workspace::{
    self, list_files, specifiers, ParsedFile, Resolution, WorkspaceText,
};
use carrick::external_call_candidates::{
    from_data_calls, merge, scan_workspace, CallMechanism, ExternalCallCandidate, MAX_CANDIDATES_PER_SERVICE,
};
use carrick::config::Config;
use carrick::framework_detector::{
    build_detection_input, extract_json_from_response, FrameworkDetectionInput, ImportedSymbol,
    PackageJson, SymbolKind,
};
use carrick::json::Json;
use carrick::mount_graph::DataFetchingCall;
use carrick::operation::{OperationKey, SocketDirection};
use carrick::ordered::TextMap;
use carrick::parsing::{fits_positions, parse_source, parse_text, syntax_for, Grammar, SourceText};
use carrick::syntax::{
    BinaryOp, ExportName, ExportSpecifier, ImportSpecifier, MethodKind, Module, ModuleItem, Node, Pattern, PatternProp,
    PropKey, TypeAnnotation, Wrapper,
};
use carrick::url_normalizer::UrlNormalizer;

fn scan(source: &str) -> BusExtraction {
    let files = vec![SourceFile { path: "bus.ts".to_string(), module: parse_source("bus.ts", source) }];
    scan_files(&files, &SocketExtraction::default())
}

fn events(ops: &[BusOp]) -> Vec<&str> {
    ops.iter().map(|op| op.event.as_str()).collect()
}

#[test]
fn every_registration_form_is_a_subscriber() {
    let found = scan(
        r#"
        bus.on("orderPlaced", handleOrder);
        bus.once("orderShipped", handleShipped);
        bus.addListener("orderRefunded", handleRefund);
        bus.prependListener("orderArchived", handleArchive);
        "#,
    );
    assert_eq!(
        events(&found.subscribers),
        vec![
            "orderPlaced",
            "orderShipped",
            "orderRefunded",
            "orderArchived"
        ]
    );
    assert!(found.publishers.is_empty());
    assert_eq!(
        found.subscribers[0].key.canonical(),
        "pubsub|orderPlaced",
        "an in-process bus row lives on the pub/sub channel"
    );
}

#[test]
fn an_emission_is_a_publisher_at_its_own_line() {
    let found = scan(
        r#"
        function ship() {
          bus.emit("orderShipped", { id });
        }
        "#,
    );
    assert!(found.subscribers.is_empty());
    assert_eq!(events(&found.publishers), vec!["orderShipped"]);
    assert_eq!(found.publishers[0].line, 3);
}

#[test]
fn a_bus_reached_through_a_member_chain_resolves() {
    let found = scan(
        r#"
        engine.eventBus.on("workerNotification", onNotification);
        this.deps.bus?.emit("workerNotification", payload);
        "#,
    );
    assert_eq!(events(&found.subscribers), vec!["workerNotification"]);
    assert_eq!(events(&found.publishers), vec!["workerNotification"]);
}

#[test]
fn a_computed_event_name_is_not_indexed() {
    let found = scan(
        r#"
        bus.on(eventName, handler);
        bus.emit(`${prefix}.created`, payload);
        bus.on();
        "#,
    );
    assert!(found.is_empty(), "{found:?}");
}

#[test]
fn runtime_lifecycle_events_are_not_contracts() {
    let found = scan(
        r#"
        process.on("SIGTERM", shutdown);
        stream.on("data", chunk => buffer.push(chunk));
        stream.on("error", fail);
        child.on("close", done);
        client.on("disconnect", reconnect);
        "#,
    );
    assert!(found.is_empty(), "{found:?}");
}

#[test]
fn other_methods_are_not_bus_calls() {
    let found = scan(
        r#"
        query.join("orders", "orders.id");
        router.get("/orders", listOrders);
        el.addEventListener("click", onClick);
        "#,
    );
    assert!(found.is_empty(), "{found:?}");
}

#[test]
fn a_socket_claimed_span_is_not_indexed_twice() {
    let source = r#"
            import { io } from "socket.io-client";
            const client = io("https://example.test");
            client.on("orderPlaced", handleOrder);
            bus.on("orderArchived", handleArchive);
        "#;
    let mut sockets = SocketExtraction::default();
    sockets.listeners.push(SocketOp {
        key: OperationKey::Socket { event: "orderPlaced".to_string(), direction: SocketDirection::ServerToClient },
        file_path: "client.ts".to_string(),
        line: 4,
    });
    assert_eq!(sockets.listeners.len(), 1);

    let files = vec![SourceFile { path: "client.ts".to_string(), module: parse_source("client.ts", source) }];
    let found = scan_files(&files, &sockets);
    assert_eq!(
        events(&found.subscribers),
        vec!["orderArchived"],
        "the socket-claimed span must not also become a pub/sub row"
    );
}

fn parsed(source: &str) -> Module {
    parse_source("input.ts", source).expect("parsed module")
}

fn build_map(source: &str) -> EnvAliasMap {
    EnvAliasExtractor::build(&parsed(source))
}

fn build_literal_bases(source: &str) -> LiteralBaseMap {
    EnvAliasExtractor::build_bindings(&parsed(source)).literal_bases
}

#[test]
fn a_literal_base_resolves_to_the_url_it_was_declared_with() {
    let bases = build_literal_bases(r#"const BASE = "https://api.example.com";"#);
    assert_eq!(
        resolve_target_literal_base("`${BASE}/api/v1/whoami`", &bases).as_deref(),
        Some("`https://api.example.com/api/v1/whoami`"),
        "the base slot states an origin, and the rest of the target is verbatim"
    );
}

#[test]
fn a_literal_base_joins_on_one_slash() {
    let bases = build_literal_bases(r#"const BASE = "http://localhost:30303/";"#);
    assert_eq!(
        resolve_target_literal_base("${BASE}/api/v1/whoami", &bases).as_deref(),
        Some("http://localhost:30303/api/v1/whoami")
    );
    assert_eq!(
        resolve_target_literal_base("${BASE}api/v1/whoami", &bases).as_deref(),
        Some("http://localhost:30303/api/v1/whoami"),
        "a path with no leading slash is concatenated as the source concatenates it"
    );
}

#[test]
fn only_an_absolute_url_literal_is_read_as_a_base() {
    let bases = build_literal_bases(
        r#"const PREFIX = "/api/v1";
           const NAME = "orders-service";
           const SCHEME_ONLY = "https://";
           const TEMPLATED = `https://${host}`;"#,
    );
    assert!(
        bases.is_empty(),
        "a path, a name, a scheme with no host, and an interpolated literal \
         all state no origin: {bases:?}"
    );
}

#[test]
fn a_function_local_url_literal_is_not_read_as_a_base() {
    let bases = build_literal_bases(
        r#"export function first() { const url = "https://one.example.com"; return url; }
           export function second() { const url = "https://two.example.com"; return url; }"#,
    );
    assert!(
        bases.is_empty(),
        "the map is keyed on the name alone, and a function-local name is \
         not unique in a file: {bases:?}"
    );
}

#[test]
fn an_exported_module_level_literal_is_read_as_a_base() {
    let bases = build_literal_bases(r#"export const BASE = "https://api.example.com";"#);
    assert_eq!(
        bases.get("BASE").map(String::as_str),
        Some("https://api.example.com")
    );
}

#[test]
fn a_literal_base_rule_leaves_a_mid_path_interpolation_alone() {
    let bases = build_literal_bases(r#"const BASE = "https://api.example.com";"#);
    assert_eq!(
        resolve_target_literal_base("/api/v1/things/${BASE}", &bases),
        None,
        "only the leading interpolation is the base slot"
    );
}

fn build_both(source: &str) -> (EnvAliasMap, WholeUrlFallbackMap) {
    let bindings = EnvAliasExtractor::build_bindings(&parsed(source));
    (bindings.aliases, bindings.whole_url_fallbacks)
}

#[test]
fn whole_url_target_takes_its_path_from_the_fallback_literal() {
    let (aliases, paths) = build_both(
        r#"const url = process.env.HELPDESK_URL ?? "http://localhost:7100/api/answer";"#,
    );
    for target in ["url", "${url}", "${process.env.HELPDESK_URL}", "`${url}`"] {
        assert_eq!(
            resolve_whole_url_target(target, &aliases, &paths).as_deref(),
            Some("${process.env.HELPDESK_URL}/api/answer"),
            "target {target} states nothing but the binding"
        );
    }
}

#[test]
fn whole_url_rule_leaves_a_target_that_states_its_own_path_alone() {
    let (aliases, paths) = build_both(
        r#"const url = process.env.HELPDESK_URL ?? "http://localhost:7100/api/answer";"#,
    );
    assert_eq!(
        resolve_whole_url_target("${url}/api/other", &aliases, &paths),
        None,
        "a base with a path behind it is the existing shape, not this one"
    );
}

#[test]
fn whole_url_rule_needs_a_path_in_the_fallback() {
    let (aliases, paths) = build_both(
        r#"const base = process.env.CATALOG_URL ?? "http://localhost:4001";
           const other = process.env.OTHER_URL;
           const templated = process.env.T_URL ?? `http://localhost:${port}/api/x`;"#,
    );
    assert!(
        paths.is_empty(),
        "a fallback with no path, no fallback at all, and an interpolated \
         one all state nothing: {paths:?}"
    );
    assert_eq!(resolve_whole_url_target("base", &aliases, &paths), None);
}

#[test]
fn a_loopback_fallback_is_the_default_the_call_keys_on() {
    for host in [
        "localhost:3939",
        "127.0.0.1:3939",
        "0.0.0.0:3939",
        "[::1]:3939",
    ] {
        let (aliases, paths) = build_both(&format!(
            r#"const url = process.env.SERVICE_ASK_URL ?? "http://{host}/api/ask";"#
        ));
        assert_eq!(
            whole_url_local_default("url", &aliases, &paths).as_deref(),
            Some(format!("http://{host}/api/ask").as_str()),
            "a loopback default is this machine, whatever its spelling"
        );
    }
}

#[test]
fn a_third_party_fallback_states_no_local_default() {
    let (aliases, paths) = build_both(
        r#"const url = process.env.PAYMENTS_URL ?? "https://api.example.com/v1/charges";"#,
    );
    assert_eq!(
        resolve_whole_url_target("url", &aliases, &paths).as_deref(),
        Some("${process.env.PAYMENTS_URL}/v1/charges"),
        "the fallback still states the path"
    );
    assert_eq!(
        whole_url_local_default("url", &aliases, &paths),
        None,
        "a third-party origin says nothing about this machine, so the call \
         keeps the verbatim key an undeclared env-var base gets"
    );
}

#[test]
fn extracts_direct_process_env_alias() {
    let map = build_map(r#"const ORDERS_BASE = process.env.ORDERS_SERVICE_URL;"#);
    assert_eq!(
        map.get("ORDERS_BASE").map(String::as_str),
        Some("ORDERS_SERVICE_URL")
    );
}

#[test]
fn extracts_nullish_coalescing_default_form() {
    let map = build_map(
        r#"const ORDERS_BASE = process.env.ORDERS_SERVICE_URL ?? "http://localhost:3001";"#,
    );
    assert_eq!(
        map.get("ORDERS_BASE").map(String::as_str),
        Some("ORDERS_SERVICE_URL")
    );
}

#[test]
fn extracts_logical_or_default_form() {
    let map = build_map(r#"const BASE = process.env.SERVICE_URL || "http://localhost:3001";"#);
    assert_eq!(map.get("BASE").map(String::as_str), Some("SERVICE_URL"));
}

#[test]
fn extracts_bracket_access_form() {
    let map = build_map(r#"const BASE = process.env["SERVICE_URL"];"#);
    assert_eq!(map.get("BASE").map(String::as_str), Some("SERVICE_URL"));
}

#[test]
fn extracts_let_and_var_forms() {
    let map = build_map(
        r#"let A = process.env.A_URL;
var B = process.env.B_URL ?? "";"#,
    );
    assert_eq!(map.get("A").map(String::as_str), Some("A_URL"));
    assert_eq!(map.get("B").map(String::as_str), Some("B_URL"));
}

#[test]
fn unwraps_paren_nonnull_and_as_casts() {
    let map = build_map(
        r#"const A = (process.env.A_URL);
const B = process.env.B_URL!;
const C = process.env.C_URL as string;"#,
    );
    assert_eq!(map.get("A").map(String::as_str), Some("A_URL"));
    assert_eq!(map.get("B").map(String::as_str), Some("B_URL"));
    assert_eq!(map.get("C").map(String::as_str), Some("C_URL"));
}

#[test]
fn ignores_non_env_bindings() {
    let map = build_map(
        r#"const HOST = config.host;
const BASE = process.env.X_URL + "/v1";
const { Y_URL } = process.env;"#,
    );
    assert!(!map.contains_key("HOST"));
    assert!(!map.contains_key("BASE"));
    assert!(!map.contains_key("Y_URL"));
}

#[test]
fn extracts_config_object_properties_as_dotted_keys() {
    let map = build_map(
        r#"const config = {
  ordersApiUrl: process.env.ORDERS_API_URL ?? "http://localhost:4003",
  catalogUrl: process.env.CATALOG_URL ?? "http://localhost:4001",
  timeoutMs: 5000,
};"#,
    );
    assert_eq!(
        map.get("config.ordersApiUrl").map(String::as_str),
        Some("ORDERS_API_URL")
    );
    assert_eq!(
        map.get("config.catalogUrl").map(String::as_str),
        Some("CATALOG_URL")
    );
    assert!(!map.contains_key("config.timeoutMs"));
}

#[test]
fn extracts_config_object_through_transparent_wrappers() {
    let map = build_map(
        r#"const config = {
  base: process.env.BASE_URL,
} as const;
const cfg2 = ({ url: process.env.URL2 }) satisfies Record<string, string>;"#,
    );
    assert_eq!(map.get("config.base").map(String::as_str), Some("BASE_URL"));
    assert_eq!(map.get("cfg2.url").map(String::as_str), Some("URL2"));
}

#[test]
fn config_object_property_values_unwrap_transparent_wrappers() {
    let map = build_map(
        r#"const config = {
  parens: (process.env.PARENS_URL),
  nonNull: process.env.NON_NULL_URL!,
  asString: process.env.AS_URL as string,
  asConst: process.env.CONST_URL as const,
  sat: process.env.SAT_URL satisfies string,
  wrappedDefault: (process.env.DEF_URL ?? "http://localhost:1") as string,
};"#,
    );
    assert_eq!(
        map.get("config.parens").map(String::as_str),
        Some("PARENS_URL")
    );
    assert_eq!(
        map.get("config.nonNull").map(String::as_str),
        Some("NON_NULL_URL")
    );
    assert_eq!(
        map.get("config.asString").map(String::as_str),
        Some("AS_URL")
    );
    assert_eq!(
        map.get("config.asConst").map(String::as_str),
        Some("CONST_URL")
    );
    assert_eq!(map.get("config.sat").map(String::as_str), Some("SAT_URL"));
    assert_eq!(
        map.get("config.wrappedDefault").map(String::as_str),
        Some("DEF_URL")
    );
}

#[test]
fn direct_alias_unwraps_const_assertion_and_satisfies() {
    let map = build_map(
        r#"const A = process.env.A_URL as const;
const B = process.env.B_URL satisfies string;"#,
    );
    assert_eq!(map.get("A").map(String::as_str), Some("A_URL"));
    assert_eq!(map.get("B").map(String::as_str), Some("B_URL"));
}

#[test]
fn config_object_resolves_local_alias_references() {
    let map = build_map(
        r#"const CATALOG_BASE = process.env.CATALOG_URL ?? "http://localhost:4001";
const catalogUrl = process.env.CATALOG_URL_ALT;
const config = { base: CATALOG_BASE, catalogUrl };"#,
    );
    assert_eq!(
        map.get("config.base").map(String::as_str),
        Some("CATALOG_URL")
    );
    assert_eq!(
        map.get("config.catalogUrl").map(String::as_str),
        Some("CATALOG_URL_ALT")
    );
}

#[test]
fn config_object_skips_nested_and_dynamic_shapes() {
    let map = build_map(
        r#"const other = { x: process.env.X_URL };
const config = {
  api: { url: process.env.API_URL },
  ...other,
  ["computed"]: process.env.COMPUTED_URL,
};"#,
    );
    assert!(!(0..map.len()).any(|i| map.entry(i).0.starts_with("config.api")));
    assert!(!map.contains_key("config.x"));
    assert!(!map.contains_key("config.computed"));
    assert_eq!(map.get("other.x").map(String::as_str), Some("X_URL"));
}

fn build_exports(source: &str) -> EnvAliasMap {
    exported_env_aliases(&parsed(source))
}

#[test]
fn exports_inline_export_const_object_and_plain_alias() {
    let exports = build_exports(
        r#"export const config = { catalogUrl: process.env.CATALOG_URL ?? "x" };
export const CATALOG_BASE = process.env.CATALOG_URL;"#,
    );
    assert_eq!(
        exports.get("config.catalogUrl").map(String::as_str),
        Some("CATALOG_URL")
    );
    assert_eq!(
        exports.get("CATALOG_BASE").map(String::as_str),
        Some("CATALOG_URL")
    );
}

#[test]
fn exports_follow_named_export_renames() {
    let exports = build_exports(
        r#"const config = { url: process.env.SVC_URL };
export { config as settings };"#,
    );
    assert_eq!(
        exports.get("settings.url").map(String::as_str),
        Some("SVC_URL")
    );
    assert!(!exports.contains_key("config.url"));
}

#[test]
fn exports_default_object_and_default_identifier() {
    let direct = build_exports(r#"export default { url: process.env.D_URL };"#);
    assert_eq!(direct.get("default.url").map(String::as_str), Some("D_URL"));

    let via_ident = build_exports(
        r#"const config = { url: process.env.I_URL };
export default config;"#,
    );
    assert_eq!(
        via_ident.get("default.url").map(String::as_str),
        Some("I_URL")
    );
}

#[test]
fn exports_ignore_reexports_and_unexported_locals() {
    let exports = build_exports(
        r#"const hidden = { url: process.env.HIDDEN_URL };
export { config } from "./elsewhere";
export * from "./other";"#,
    );
    assert!(exports.is_empty());
}

#[test]
fn merge_maps_named_default_and_namespace_imports_to_local_names() {
    let mut exports = EnvAliasMap::new();
    exports.insert("config.catalogUrl".to_string(), "CATALOG_URL".to_string());
    exports.insert("CATALOG_BASE".to_string(), "CATALOG_URL".to_string());
    exports.insert("default.url".to_string(), "D_URL".to_string());

    let symbol = |local: &str, imported: &str, kind: SymbolKind| ImportedSymbol {
        local_name: local.to_string(),
        imported_name: imported.to_string(),
        source: "./config".to_string(),
        kind,
    };

    let mut imported: TextMap<ImportedSymbol> = TextMap::new();
    imported.insert(
        "cfg".to_string(),
        symbol("cfg", "config", SymbolKind::Named),
    );
    imported.insert(
        "CATALOG_BASE".to_string(),
        symbol("CATALOG_BASE", "CATALOG_BASE", SymbolKind::Named),
    );
    imported.insert(
        "appConfig".to_string(),
        symbol("appConfig", "appConfig", SymbolKind::Default),
    );
    imported.insert("ns".to_string(), symbol("ns", "ns", SymbolKind::Namespace));

    let mut aliases = EnvAliasMap::new();
    aliases.insert("CATALOG_BASE".to_string(), "LOCAL_WINS".to_string());

    let mut modules: TextMap<EnvAliasMap> = TextMap::new();
    modules.insert("./config".to_string(), exports);
    merge_imported_env_aliases(&mut aliases, &imported, &modules);

    assert_eq!(
        aliases.get("cfg.catalogUrl").map(String::as_str),
        Some("CATALOG_URL")
    );
    assert_eq!(
        aliases.get("CATALOG_BASE").map(String::as_str),
        Some("LOCAL_WINS")
    );
    assert_eq!(
        aliases.get("appConfig.url").map(String::as_str),
        Some("D_URL")
    );
    assert_eq!(
        aliases.get("ns.config.catalogUrl").map(String::as_str),
        Some("CATALOG_URL")
    );
    assert_eq!(
        aliases.get("ns.CATALOG_BASE").map(String::as_str),
        Some("CATALOG_URL")
    );
}

#[test]
fn resolves_dotted_config_property_target() {
    let mut aliases = EnvAliasMap::new();
    aliases.insert("config.catalogUrl".to_string(), "CATALOG_URL".to_string());

    assert_eq!(
        resolve_target_env_alias("${config.catalogUrl}/api/v2/products/${id}", &aliases)
            .as_deref(),
        Some("${process.env.CATALOG_URL}/api/v2/products/${id}")
    );
}

#[test]
fn resolves_leading_alias_in_target() {
    let mut aliases = EnvAliasMap::new();
    aliases.insert("ORDERS_BASE".to_string(), "ORDERS_SERVICE_URL".to_string());

    assert_eq!(
        resolve_target_env_alias("${ORDERS_BASE}/orders/${orderId}", &aliases).as_deref(),
        Some("${process.env.ORDERS_SERVICE_URL}/orders/${orderId}")
    );
}

#[test]
fn resolves_leading_alias_past_wrapper_backtick() {
    let mut aliases = EnvAliasMap::new();
    aliases.insert("ORDERS_BASE".to_string(), "ORDERS_SERVICE_URL".to_string());

    assert_eq!(
        resolve_target_env_alias("`${ORDERS_BASE}/orders/${id}`", &aliases).as_deref(),
        Some("`${process.env.ORDERS_SERVICE_URL}/orders/${id}`")
    );
}

#[test]
fn leaves_unknown_and_mid_path_interpolations_untouched() {
    let mut aliases = EnvAliasMap::new();
    aliases.insert("ORDERS_BASE".to_string(), "ORDERS_SERVICE_URL".to_string());

    assert!(resolve_target_env_alias("${API_URL}/users", &aliases).is_none());
    assert!(resolve_target_env_alias("/orders/${ORDERS_BASE}", &aliases).is_none());
    assert!(resolve_target_env_alias("${ORDERS_BASE}/x", &EnvAliasMap::new()).is_none());
}

// ---------------------------------------------------------------------------
// Declared schemas
// ---------------------------------------------------------------------------

#[test]
fn a_schema_declares_what_a_variable_falls_back_to() {
    let schema = module_env_schema(&parsed(
        r#"export const env = createEnv({
  server: {
    CATALOG_URL: z.string().default("http://localhost:4001"),
    SENTRY_URL: z.string().optional(),
    REQUIRED_URL: z.string(),
  },
});"#,
    ));
    assert_eq!(
        schema.get("CATALOG_URL").and_then(|d| d.default_literal.clone()).as_deref(),
        Some("http://localhost:4001")
    );
    assert!(schema.get("SENTRY_URL").is_some_and(|d| d.optional));
}

#[test]
fn modules_that_disagree_on_a_variable_declare_nothing_of_it() {
    let first = module_env_schema(&parsed(r#"const s = { A_URL: z.string().default("http://one") };"#));
    let second = module_env_schema(&parsed(r#"const s = { A_URL: z.string().default("http://two") };"#));
    let mut index = EnvSchemaIndex::new();
    index.merge_module(&first);
    assert!(index.get("A_URL").is_some());
    index.merge_module(&first);
    assert!(index.get("A_URL").is_some());
    index.merge_module(&second);
    assert!(index.get("A_URL").is_none());
    index.merge_module(&first);
    assert!(index.get("A_URL").is_none());
}

// ---------------------------------------------------------------------------
// Framework detection
// ---------------------------------------------------------------------------

const FIXTURE_FILES: [(&str, &str); 3] = [
    (
        "a.ts",
        "import express from 'express';\n\
         import { router } from './api/router';\n\
         import { logger } from './log/app';\n\
         import * as helpers from './util/helpers';\n\
         import shared from './shared/client';\n\
         import { query } from './db';\n",
    ),
    (
        "b.ts",
        "import express from 'express';\n\
         import router from 'koa-router';\n\
         import { logger } from './log/worker';\n\
         import * as helpers from './other/helpers';\n",
    ),
    (
        "c.ts",
        "import { createClient as client } from 'redis';\n\
         import { shared } from './shared/client';\n\
         import { pool } from './db';\n",
    ),
];

fn package_json() -> PackageJson {
    let mut dependencies: TextMap<String> = TextMap::new();
    for (name, version) in [("redis", "^4.6.0"), ("express", "^4.19.2"), ("koa-router", "^12.0.1")] {
        dependencies.insert(name.to_string(), version.to_string());
    }
    let mut dev_dependencies: TextMap<String> = TextMap::new();
    for (name, version) in [("typescript", "^5.4.5"), ("vitest", "^1.6.0")] {
        dev_dependencies.insert(name.to_string(), version.to_string());
    }
    PackageJson { dependencies, dev_dependencies }
}

fn import_facts(files: &[(&str, &str)]) -> Vec<ImportedSymbol> {
    let mut facts = Vec::new();
    for (name, source) in files {
        let module = parse_source(name, source).expect("fixture parses");
        for item in &module.items {
            let ModuleItem::Import { source, specifiers, .. } = item else { continue };
            for specifier in specifiers {
                let (local, imported, kind) = match specifier {
                    ImportSpecifier::Named { local, imported, .. } => {
                        (local, imported.clone().unwrap_or_else(|| local.symbol.clone()), SymbolKind::Named)
                    }
                    ImportSpecifier::Default { local } => (local, local.symbol.clone(), SymbolKind::Default),
                    ImportSpecifier::Namespace { local } => (local, local.symbol.clone(), SymbolKind::Namespace),
                };
                facts.push(ImportedSymbol {
                    local_name: local.symbol.clone(),
                    imported_name: imported,
                    source: source.clone(),
                    kind,
                });
            }
        }
    }
    facts
}

fn detection_input(files: &[(&str, &str)]) -> FrameworkDetectionInput {
    build_detection_input(&vec![package_json()], &import_facts(files))
}

#[test]
fn framework_detect_body_is_identical_across_walk_orders() {
    let mut files = FIXTURE_FILES;
    let forward = detection_input(&files);
    files.reverse();
    let reversed = detection_input(&files);
    assert_eq!(
        forward.imports, reversed.imports,
        "the framework-detect body must not depend on the order files were parsed in"
    );
    assert_eq!(forward.package_json.dependencies, reversed.package_json.dependencies);
    assert_eq!(forward.package_json.dev_dependencies, reversed.package_json.dev_dependencies);
}

#[test]
fn import_sample_keeps_every_source_when_local_names_collide() {
    let input = detection_input(&FIXTURE_FILES);
    assert_eq!(
        input.imports,
        vec![
            "import { router } from './api/router';",
            "import { pool, query } from './db';",
            "import { logger } from './log/app';",
            "import { logger } from './log/worker';",
            "import * as helpers from './other/helpers';",
            "import shared from './shared/client';",
            "import * as helpers from './util/helpers';",
            "import express from 'express';",
            "import router from 'koa-router';",
            "import { client } from 'redis';",
        ]
    );
    let dependencies = &input.package_json.dependencies;
    let names: Vec<&String> = (0..dependencies.len()).map(|i| dependencies.entry(i).0).collect();
    assert_eq!(names, vec!["express", "koa-router", "redis"]);
}

#[test]
fn the_object_is_found_in_an_answer() {
    assert_eq!(extract_json_from_response(" {\"a\": 1} "), Ok("{\"a\": 1}".to_string()));
    assert_eq!(
        extract_json_from_response("Here it is:\n```json\n{\"a\": {\"b\": 1}}\n```"),
        Ok("{\"a\": {\"b\": 1}}".to_string())
    );
    assert_eq!(
        extract_json_from_response("no object"),
        Err("No JSON object found in LLM response".to_string())
    );
    assert_eq!(
        extract_json_from_response("{ not closed"),
        Err("Could not find valid JSON in LLM response".to_string())
    );
    assert_eq!(
        extract_json_from_response("a } before {"),
        Err("No JSON object found in LLM response".to_string())
    );
}

// ---------------------------------------------------------------------------
// Calls through external packages
// ---------------------------------------------------------------------------

fn external(package: &str, subpath: Option<&str>) -> Resolution {
    Resolution::External { package: package.to_string(), subpath: subpath.map(str::to_string) }
}

fn internal(path: &str) -> Resolution {
    Resolution::Internal { path: path.to_string() }
}

fn file(path: &str, source: &str, resolutions: Vec<(&str, Resolution)>) -> ParsedFile {
    let mut resolved: TextMap<Resolution> = TextMap::new();
    for (specifier, resolution) in resolutions {
        resolved.insert(specifier.to_string(), resolution);
    }
    ParsedFile { path: format!("/repo/{path}"), module: parse_source(path, source), resolutions: resolved }
}

fn rows_of(files: Vec<ParsedFile>, service: &[&str]) -> Vec<(String, usize, String, String)> {
    let service_files = service.iter().map(|path| format!("/repo/{path}")).collect();
    scan_workspace(&service_files, "/repo", true, &files)
        .into_iter()
        .map(|row| (row.file, row.line, row.callee, row.package))
        .collect()
}

fn row(file: &str, line: usize, callee: &str, package: &str) -> (String, usize, String, String) {
    (file.to_string(), line, callee.to_string(), package.to_string())
}

#[test]
fn a_repo_declaring_no_dependencies_emits_nothing() {
    let files = vec![file("app.ts", "import { send } from \"courier-sdk\";\nsend();\n", vec![])];
    assert_eq!(
        scan_workspace(&vec!["/repo/app.ts".to_string()], "/repo", false, &files),
        Vec::new(),
        "no declared dependencies means no candidates"
    );
}

#[test]
fn a_call_on_an_import_is_a_row_with_its_anchors() {
    let files = vec![file(
        "app.ts",
        "import Courier from \"courier-sdk/edge\";\nCourier.send();\nawait Courier.queue?.flush();\n",
        vec![("courier-sdk/edge", external("courier-sdk", Some("edge")))],
    )];
    let rows = scan_workspace(&vec!["/repo/app.ts".to_string()], "/repo", true, &files);
    assert_eq!(
        rows,
        vec![
            ExternalCallCandidate {
                file: "app.ts".to_string(),
                line: 2,
                callee: "Courier.send".to_string(),
                package: "courier-sdk".to_string(),
                mechanism: CallMechanism::Sdk,
                import_symbol: Some("default".to_string()),
                subpath: Some("edge".to_string()),
            },
            ExternalCallCandidate {
                file: "app.ts".to_string(),
                line: 3,
                callee: "Courier.queue.flush".to_string(),
                package: "courier-sdk".to_string(),
                mechanism: CallMechanism::Sdk,
                import_symbol: Some("default".to_string()),
                subpath: Some("edge".to_string()),
            },
        ]
    );
}

fn mail_workspace() -> Vec<ParsedFile> {
    vec![
        file(
            "apps/api/send.ts",
            "import { transport } from \"@acme/mail\";\nexport function send() {\n  transport.deliver({});\n}\n",
            vec![("@acme/mail", internal("packages/mail/index.ts"))],
        ),
        file("apps/worker/run.ts", "export const run = () => 1;\n", vec![]),
        file("packages/mail/index.ts", "export { transport } from \"./transport\";\n", vec![(
            "./transport",
            internal("packages/mail/transport.ts"),
        )]),
        file(
            "packages/mail/transport.ts",
            "import { createTransport } from \"courier-sdk\";\n\
             function build() { return createTransport(); }\n\
             export const transport = build();\n\
             transport.verify();\n",
            vec![("courier-sdk", external("courier-sdk", None))],
        ),
    ]
}

#[test]
fn a_handle_is_followed_through_wrappers_and_barrels() {
    assert_eq!(
        rows_of(mail_workspace(), &["apps/api/send.ts"]),
        vec![
            row("apps/api/send.ts", 3, "transport.deliver", "courier-sdk"),
            row("packages/mail/transport.ts", 2, "createTransport", "courier-sdk"),
            row("packages/mail/transport.ts", 4, "transport.verify", "courier-sdk"),
        ]
    );
}

#[test]
fn a_service_takes_only_what_it_reaches() {
    assert_eq!(rows_of(mail_workspace(), &["apps/worker/run.ts"]), Vec::new());
    let shared = rows_of(mail_workspace(), &["apps/worker/run.ts", "packages/mail/index.ts"]);
    assert!(shared.iter().all(|row| row.0 == "packages/mail/transport.ts"));
    assert_eq!(shared.len(), 2);
    assert_eq!(rows_of(mail_workspace(), &["elsewhere/x.ts"]), Vec::new());
}

#[test]
fn scan_of_one_workspace_is_the_same_each_time() {
    assert_eq!(rows_of(mail_workspace(), &["apps/api/send.ts"]), rows_of(mail_workspace(), &["apps/api/send.ts"]));
}

#[test]
fn two_packages_in_one_slot_own_nothing() {
    let files = vec![file(
        "app.ts",
        "import { a } from \"one\";\nimport { b } from \"two\";\n\
         let handle = a;\nhandle = b;\nconst pick = flag ? a : b;\n\
         function choose() { if (flag) { return a; } return b; }\n\
         const chosen = choose();\nchosen.send();\na.send();\n",
        vec![("one", external("one", None)), ("two", external("two", None))],
    )];
    assert_eq!(
        rows_of(files, &["app.ts"]),
        vec![row("app.ts", 9, "a.send", "one")]
    );
}

#[test]
fn a_class_field_and_a_constructor_parameter_are_followed() {
    let files = vec![file(
        "app.ts",
        "import { Client } from \"store-sdk\";\n\
         class Store {\n  own = new Client();\n  constructor(given) { this.given = given; }\n\
         save() { this.own.put(); this.given.put(); }\n}\n\
         const store = new Store(new Client());\n",
        vec![("store-sdk", external("store-sdk", None))],
    )];
    assert_eq!(
        rows_of(files, &["app.ts"]),
        vec![row("app.ts", 5, "this.given.put", "store-sdk"), row("app.ts", 5, "this.own.put", "store-sdk")]
    );
}

#[test]
fn a_dynamic_import_and_a_destructured_name_are_followed() {
    let files = vec![file(
        "app.ts",
        "const { send } = await import(\"courier-sdk\");\nsend();\n\
         import * as kit from \"kit\";\nconst { tools: { hammer }, saw } = kit;\nsaw.cut();\n",
        vec![("courier-sdk", external("courier-sdk", None)), ("kit", external("kit", None))],
    )];
    assert_eq!(
        rows_of(files, &["app.ts"]),
        vec![row("app.ts", 2, "send", "courier-sdk"), row("app.ts", 5, "saw.cut", "kit")]
    );
}

#[test]
fn a_declared_return_type_owns_its_package() {
    let files = vec![file(
        "app.ts",
        "import type { Forge } from \"forge-sdk\";\n\
         function make(): Forge { return registry.get(); }\n\
         make().strike();\n",
        vec![("forge-sdk", external("forge-sdk", None))],
    )];
    assert_eq!(rows_of(files, &["app.ts"]), vec![row("app.ts", 3, "make().strike", "forge-sdk")]);
}

#[test]
fn a_local_name_does_not_take_over_an_import() {
    let files = vec![file(
        "app.ts",
        "import { client } from \"sdk\";\nfunction inner(client) { client.send(); }\nclient.send();\n",
        vec![("sdk", external("sdk", None))],
    )];
    assert_eq!(rows_of(files, &["app.ts"]), vec![row("app.ts", 3, "client.send", "sdk")]);
}

#[test]
fn a_file_that_does_not_parse_says_nothing() {
    let files = vec![file("app.ts", "import {", vec![])];
    assert!(files[0].module.is_none());
    assert_eq!(rows_of(files, &["app.ts"]), Vec::new());
}

#[test]
fn the_files_of_a_workspace_are_ordered_and_listed_once() {
    let found = vec!["/repo/b.ts".to_string(), "/repo/a/z.ts".to_string()];
    let own = vec!["/repo/a//z.ts".to_string(), "/repo/build/x.ts".to_string()];
    assert_eq!(list_files(&found, &own), vec!["/repo/a/z.ts", "/repo/b.ts", "/repo/build/x.ts"]);
}

fn plain_row(package: &str, mechanism: CallMechanism) -> ExternalCallCandidate {
    ExternalCallCandidate {
        file: "src/a.ts".to_string(),
        line: 3,
        callee: "client.send".to_string(),
        package: package.to_string(),
        mechanism,
        import_symbol: None,
        subpath: None,
    }
}

fn field(name: &str, value: &str) -> (String, Json) {
    (name.to_string(), Json::Text(value.to_string()))
}

#[test]
fn mechanism_serializes_as_snake_case() {
    let row = ExternalCallCandidate {
        file: "src/a.ts".to_string(),
        line: 3,
        callee: "client.send".to_string(),
        package: "courier-sdk".to_string(),
        mechanism: CallMechanism::Sdk,
        import_symbol: Some("default".to_string()),
        subpath: Some("edge".to_string()),
    };
    assert_eq!(
        row.serialize(),
        Json::Object(vec![
            field("file", "src/a.ts"),
            ("line".to_string(), Json::Number(3)),
            field("callee", "client.send"),
            field("package", "courier-sdk"),
            field("mechanism", "sdk"),
            field("import_symbol", "default"),
            field("subpath", "edge"),
        ])
    );
    assert_eq!(ExternalCallCandidate::deserialize(&row.serialize()), Some(row));
}

#[test]
fn absent_anchors_are_omitted_from_the_row() {
    let row = ExternalCallCandidate {
        file: "src/a.ts".to_string(),
        line: 3,
        callee: "sdk.send".to_string(),
        package: "courier-sdk".to_string(),
        mechanism: CallMechanism::Sdk,
        import_symbol: None,
        subpath: None,
    };
    assert_eq!(
        row.serialize(),
        Json::Object(vec![
            field("file", "src/a.ts"),
            ("line".to_string(), Json::Number(3)),
            field("callee", "sdk.send"),
            field("package", "courier-sdk"),
            field("mechanism", "sdk"),
        ])
    );
}

#[test]
fn a_row_without_anchors_deserializes() {
    let row = ExternalCallCandidate::deserialize(&Json::Object(vec![
        field("file", "src/a.ts"),
        ("line".to_string(), Json::Number(3)),
        field("callee", "sdk.send"),
        field("package", "courier-sdk"),
        field("mechanism", "sdk"),
    ]))
    .expect("row");
    assert_eq!(row.import_symbol, None);
    assert_eq!(row.subpath, None);
    assert_eq!(ExternalCallCandidate::deserialize(&Json::Object(vec![field("file", "src/a.ts")])), None);
}

#[test]
fn http_mechanisms_serialize_in_the_same_row_shape() {
    let row = ExternalCallCandidate {
        file: "src/pay.ts".to_string(),
        line: 12,
        callee: "POST".to_string(),
        package: "api.vendor.test".to_string(),
        mechanism: CallMechanism::ExternalHttp,
        import_symbol: None,
        subpath: None,
    };
    assert_eq!(
        row.serialize(),
        Json::Object(vec![
            field("file", "src/pay.ts"),
            ("line".to_string(), Json::Number(12)),
            field("callee", "POST"),
            field("package", "api.vendor.test"),
            field("mechanism", "external_http"),
        ])
    );
    let env = ExternalCallCandidate {
        mechanism: CallMechanism::EnvVarUrl,
        package: "BILLING_API".to_string(),
        ..row
    };
    let Json::Object(fields) = env.serialize() else { panic!("a row is an object") };
    assert_eq!(fields[4], field("mechanism", "env_var_url"));
}

fn config() -> Config {
    Config {
        internal_domains: vec!["orders.internal.test".to_string()],
        external_domains: vec!["api.vendor.test".to_string()],
        internal_env_vars: vec!["ORDERS_URL".to_string()],
        external_env_vars: vec!["BILLING_API".to_string()],
        ..Config::default()
    }
}

fn call(target: &str, host: Option<&str>, line: Option<u32>) -> DataFetchingCall {
    DataFetchingCall {
        method: "get".to_string(),
        target_url: target.to_string(),
        canonical_path: target.to_string(),
        client: "fetch(".to_string(),
        file_location: format!("src/client.ts:{}", line.unwrap_or(1)),
        call_kind: None,
        repo_name: None,
        service_name: None,
        host: host.map(str::to_string),
        line,
    }
}

fn rows(calls: Vec<DataFetchingCall>) -> Vec<ExternalCallCandidate> {
    let config = config();
    from_data_calls(&calls, "/repo", &config, &UrlNormalizer::new(&config))
}

#[test]
fn declared_external_host_becomes_a_row() {
    assert_eq!(
        rows(vec![call("https://api.vendor.test/v1/charges", Some("api.vendor.test"), Some(12))]),
        vec![ExternalCallCandidate {
            file: "src/client.ts".to_string(),
            line: 12,
            callee: "GET".to_string(),
            package: "api.vendor.test".to_string(),
            mechanism: CallMechanism::ExternalHttp,
            import_symbol: None,
            subpath: None,
        }]
    );
}

#[test]
fn subdomain_of_a_declared_host_keeps_its_own_name() {
    let rows = rows(vec![call(
        "https://eu.api.vendor.test/v1/charges",
        Some("eu.api.vendor.test"),
        Some(3),
    )]);
    assert_eq!(rows.len(), 1);
    assert_eq!(rows[0].package, "eu.api.vendor.test");
}

#[test]
fn declared_external_env_var_becomes_a_row() {
    assert_eq!(
        rows(vec![call("${process.env.BILLING_API}/invoices", None, Some(7))]),
        vec![ExternalCallCandidate {
            file: "src/client.ts".to_string(),
            line: 7,
            callee: "GET".to_string(),
            package: "BILLING_API".to_string(),
            mechanism: CallMechanism::EnvVarUrl,
            import_symbol: None,
            subpath: None,
        }]
    );
}

#[test]
fn canonical_env_var_route_becomes_a_row() {
    let rows = rows(vec![call("ENV_VAR:BILLING_API:/invoices", None, Some(4))]);
    assert_eq!(rows.len(), 1);
    assert_eq!(rows[0].package, "BILLING_API");
    assert_eq!(rows[0].mechanism, CallMechanism::EnvVarUrl);
}

#[test]
fn undeclared_destinations_emit_nothing() {
    assert_eq!(
        rows(vec![
            call("https://api.unlisted.test/v1/x", Some("api.unlisted.test"), Some(2)),
            call("${process.env.UNKNOWN_API}/x", None, Some(3)),
        ]),
        Vec::new()
    );
}

#[test]
fn declared_internal_destinations_emit_nothing() {
    assert_eq!(
        rows(vec![
            call("https://orders.internal.test/orders", Some("orders.internal.test"), Some(2)),
            call("${process.env.ORDERS_URL}/orders", None, Some(3)),
        ]),
        Vec::new()
    );
}

#[test]
fn relative_call_emits_nothing() {
    assert_eq!(rows(vec![call("/api/orders", None, Some(9))]), Vec::new());
}

#[test]
fn call_without_a_line_emits_nothing() {
    assert_eq!(
        rows(vec![call("https://api.vendor.test/v1/charges", Some("api.vendor.test"), None)]),
        Vec::new()
    );
}

#[test]
fn absolute_scan_paths_are_relativized() {
    let mut absolute = call("https://api.vendor.test/v1/charges", Some("api.vendor.test"), Some(5));
    absolute.file_location = "/repo/src/client.ts:5".to_string();
    assert_eq!(rows(vec![absolute.clone()])[0].file, "src/client.ts");
    absolute.file_location = "./src/client.ts:5".to_string();
    assert_eq!(rows(vec![absolute])[0].file, "src/client.ts");
}

#[test]
fn rows_are_deduplicated_and_sorted() {
    let hit = call("https://api.vendor.test/v1/charges", Some("api.vendor.test"), Some(12));
    let mut earlier = hit.clone();
    earlier.line = Some(4);
    earlier.file_location = "src/client.ts:4".to_string();
    let rows = rows(vec![hit.clone(), earlier, hit]);
    assert_eq!(rows.iter().map(|row| row.line).collect::<Vec<_>>(), vec![4, 12]);
}

#[test]
fn merge_sorts_both_sources_as_one_set() {
    let sdk = ExternalCallCandidate {
        file: "src/client.ts".to_string(),
        line: 20,
        callee: "ledger.charge".to_string(),
        package: "ledger-client".to_string(),
        mechanism: CallMechanism::Sdk,
        import_symbol: Some("default".to_string()),
        subpath: None,
    };
    let http = ExternalCallCandidate {
        file: "src/client.ts".to_string(),
        line: 12,
        callee: "GET".to_string(),
        package: "api.vendor.test".to_string(),
        mechanism: CallMechanism::ExternalHttp,
        import_symbol: None,
        subpath: None,
    };
    let merged = merge(vec![sdk.clone(), sdk.clone()], vec![http.clone()]);
    assert_eq!(merged, vec![http, sdk]);
}

#[test]
fn a_list_over_the_bound_keeps_its_first_rows() {
    let rows: Vec<ExternalCallCandidate> = (0..MAX_CANDIDATES_PER_SERVICE + 5)
        .map(|line| ExternalCallCandidate { line, ..plain_row("p", CallMechanism::Sdk) })
        .collect();
    let merged = merge(rows, vec![]);
    assert_eq!(merged.len(), MAX_CANDIDATES_PER_SERVICE);
    assert_eq!(merged[MAX_CANDIDATES_PER_SERVICE - 1].line, MAX_CANDIDATES_PER_SERVICE - 1);
}

// ---------------------------------------------------------------------------
// A workspace of services and shared packages
// ---------------------------------------------------------------------------

/// The packages that the manifests declare: a specifier, its package and the
/// entry point that it names.
const PACKAGES: &[(&str, &str, Option<&str>)] = &[
    ("beacon-metrics", "beacon-metrics", None),
    ("courier-sdk", "courier-sdk", None),
    ("courier-sdk/edge", "courier-sdk", Some("edge")),
    ("crawler-kit", "crawler-kit", None),
    ("forge-sdk", "forge-sdk", None),
    ("forge-sdk/edge", "forge-sdk", Some("edge")),
    ("forge-sdk/node", "forge-sdk", Some("node")),
    ("ledger-client", "ledger-client", None),
    ("pdf-toolkit", "pdf-toolkit", None),
    ("postbox-mailer", "postbox-mailer", None),
    ("pulse-analytics", "pulse-analytics", None),
    ("relay-queue", "relay-queue", None),
    ("storage-uplink", "storage-uplink", None),
    ("telemetry-sink", "telemetry-sink", None),
    ("vault-blob", "vault-blob", None),
];

/// Where the specifiers of the workspace's own files lead.
const LINKS: &[(&str, &str)] = &[
    ("@acme/barrel-kit", "packages/barrel-kit/index.ts"),
    ("@acme/crawl-kit", "packages/crawl-kit/render.ts"),
    ("@acme/doc-kit", "packages/doc-kit/sign.ts"),
    ("@acme/job-kit/handler", "packages/job-kit/handler.ts"),
    ("@acme/jobs-kit", "packages/jobs-kit/provider.ts"),
    ("@acme/ledger-kit/client", "packages/ledger-kit/client.ts"),
    ("@acme/mail-kit", "packages/mail-kit/index.ts"),
    ("@acme/mail-kit/context", "packages/mail-kit/context.ts"),
    ("@acme/mail-kit/digest", "packages/mail-kit/digest.ts"),
    ("@acme/mail-kit/transport", "packages/mail-kit/transport.ts"),
    ("@acme/plain-kit", "packages/plain-kit/index.ts"),
    ("@acme/singleton-kit", "packages/singleton-kit/index.ts"),
    ("@acme/star-kit", "packages/star-kit/index.ts"),
    ("@acme/storage-kit", "packages/storage-kit/index.ts"),
    ("@acme/type-kit", "packages/type-kit/index.ts"),
    ("./beacon", "packages/storage-kit/beacon.ts"),
    ("./blob-store", "packages/storage-kit/blob-store.ts"),
    ("./create-forge", "apps/forge/src/create-forge.ts"),
    ("./helper", "apps/api/src/helper.ts"),
    ("./inner", "packages/barrel-kit/inner.ts"),
    ("./left", "packages/star-kit/left.ts"),
    ("./pool", "apps/forge/src/pool.ts"),
    ("./queue-store", "packages/storage-kit/queue-store.ts"),
    ("./right", "packages/star-kit/right.ts"),
    ("./split", "apps/forge/src/split.ts"),
    ("./transport", "packages/mail-kit/transport.ts"),
];

const SOURCES: &[(&str, &str)] = &[
    (
        "apps/api/src/dev-only.ts",
        r#"import { lint } from "lint-tool";

lint();
"#,
    ),
    (
        "apps/api/src/direct-call.ts",
        r#"import { sendNotice } from "courier-sdk";

export function notify() {
  return sendNotice("hi");
}
"#,
    ),
    (
        "apps/api/src/helper.ts",
        r#"export function helper() {}
"#,
    ),
    (
        "apps/api/src/member-call.ts",
        r#"import Ledger, { createInvoice, type Invoice } from "ledger-client";

const ledger = new Ledger("key");

export async function charge(): Promise<void> {
  await ledger.payments.create({ amount: 1 });
}

export function invoice(): Invoice {
  return createInvoice();
}
"#,
    ),
    (
        "apps/api/src/namespace-call.ts",
        r#"import * as telemetry from "telemetry-sink";

const sink = telemetry.createSink();

export function report() {
  telemetry.emit("started");
  sink.flush();
}
"#,
    ),
    (
        "apps/api/src/no-rows.ts",
        r#"import { readFile } from "node:fs/promises";
import path from "path";
import { helper } from "./helper";
import { plain } from "@acme/plain-kit";

readFile("x");
path.join("a", "b");
helper();
plain();
"#,
    ),
    (
        "apps/api/src/optional-dep.ts",
        r#"import { Uplink } from "storage-uplink";

const uplink = new Uplink();

export function store() {
  uplink.put("a");
}
"#,
    ),
    (
        "apps/api/src/subpath-import.ts",
        r#"import { publishEdge } from "courier-sdk/edge";

export function publish() {
  publishEdge("x");
}
"#,
    ),
    (
        "apps/api/src/type-only.ts",
        r#"import type { Ledger } from "ledger-client";

export function take(ledger: Ledger) {
  ledger.payments.list();
}
"#,
    ),
    (
        "apps/build/src/index.ts",
        r#"import { sendNotice } from "courier-sdk";

sendNotice("built");
"#,
    ),
    (
        "apps/forge/src/callback.ts",
        r#"import { createForge } from "./create-forge";
import type { Session } from "forge-sdk";

interface Scraper {
  scrape(): void;
}

export function viaLocal(scraper: Scraper) {
  scraper.scrape();
}

export function viaImported(session: Session) {
  session.scrape();
}

const forge = createForge();

export function open() {
  // What the promise settles to is not what it was asked of.
  return opened();
}

function opened() {
  return (
    forge.sessions.open().then((session) => session.scrape())
  );
}
"#,
    ),
    (
        "apps/forge/src/create-forge.ts",
        r#"import Forge from "forge-sdk";

export function createForge() {
  return new Forge("key");
}
"#,
    ),
    (
        "apps/forge/src/dynamic.ts",
        r#"export async function create() {
  const { default: Forge } = await import("forge-sdk");
  const client = new Forge("key");

  await client.sessions.create();
}

export async function close() {
  const sdk = await import("forge-sdk");

  await sdk.close();
}
"#,
    ),
    (
        "apps/forge/src/injected-runner.ts",
        r#"import Forge from "forge-sdk";

export class InjectedRunner {
  private client: Forge;

  release(id: string) {
    return this.client.sessions.release(id);
  }
}
"#,
    ),
    (
        "apps/forge/src/pool.ts",
        r#"import { Forge } from "forge-sdk/edge";

const pool = new Map<string, Forge>();

export function pooledForge(key: string): Forge {
  return pool.get(key)!;
}
"#,
    ),
    (
        "apps/forge/src/release.ts",
        r#"import { pooledForge } from "./pool";

export function release(id: string) {
  const client = pooledForge("a");

  return client.sessions.release(id);
}
"#,
    ),
    (
        "apps/forge/src/runner.ts",
        r#"import Forge from "forge-sdk";

export class Runner {
  private client;

  constructor() {
    this.client = new Forge("key");
  }

  release(id: string) {
    return this.client.sessions.release(id);
  }
}
"#,
    ),
    (
        "apps/forge/src/sessions.ts",
        r#"import { createForge } from "./create-forge";

const forge = createForge();

export async function open(
  url: string,
) {
  // This file never names the package.
  return forge.sessions.create(url);
}
"#,
    ),
    (
        "apps/forge/src/split-consumer.ts",
        r#"import { pickEntry, pickExport } from "./split";

const first = pickExport(true);
first.sessions.create();
const second = pickEntry(true);
second.sessions.create();
"#,
    ),
    (
        "apps/forge/src/split.ts",
        r#"import Forge, { Lite } from "forge-sdk";
import { Forge as EdgeForge } from "forge-sdk/edge";
import { Forge as NodeForge } from "forge-sdk/node";

export function pickExport(full: boolean) {
  return full ? new Forge("key") : new Lite("key");
}

export function pickEntry(edge: boolean) {
  return edge ? new EdgeForge("key") : new NodeForge("key");
}
"#,
    ),
    (
        "apps/relay/src/index.ts",
        r#"import { mailer } from "@acme/mail-kit/transport";

export function relay() {
  mailer.sendMail({}).catch(() => undefined);
}
"#,
    ),
    (
        "apps/worker/src/barrel-consumer.ts",
        r#"import { ledger } from "@acme/barrel-kit";
export const list = () =>
  ledger.invoices.list();
"#,
    ),
    (
        "apps/worker/src/billing.ts",
        r#"import { ledger } from "@acme/ledger-kit/client";

export function bill() {
  ledger.payments.create({ amount: 1 });
}
"#,
    ),
    (
        "apps/worker/src/conflict.ts",
        r#"import { sharedClient, soloClient } from "@acme/star-kit";

export function upload() {
  sharedClient.upload("x");
  soloClient.upload("x");
}
"#,
    ),
    (
        "apps/worker/src/crawl.ts",
        r#"import { render } from "@acme/crawl-kit";

render();
"#,
    ),
    (
        "apps/worker/src/destructured.ts",
        r#"import { createContext } from "@acme/mail-kit/context";

const { transport } = createContext();

export function send() {
  transport.sendMail({});
}
"#,
    ),
    (
        "apps/worker/src/dev-wrapper.ts",
        r#"import { bundle } from "bundle-tool";

bundle();
"#,
    ),
    (
        "apps/worker/src/digest.ts",
        r#"import makeDigest from "@acme/mail-kit/digest";

const transport = makeDigest();

export function digest() {
  transport.sendMail({});
}
"#,
    ),
    (
        "apps/worker/src/documents.ts",
        r#"import { signDocument } from "@acme/doc-kit";

signDocument();
"#,
    ),
    (
        "apps/worker/src/entry.ts",
        r#"import { JobProvider } from "@acme/jobs-kit";
import { ready } from "@acme/mail-kit";
import { stop } from "@acme/singleton-kit";

export async function start() {
  ready();
  JobProvider.create().push();
  stop();
  const handler = await import("@acme/job-kit/handler");
  handler.run();
}
"#,
    ),
    (
        "apps/worker/src/member-form.ts",
        r#"import { createContext } from "@acme/mail-kit/context";

const context = createContext();

export function send() {
  context.transport.sendMail({});
}
"#,
    ),
    (
        "apps/worker/src/namespace-internal.ts",
        r#"import * as ledgerKit from "@acme/ledger-kit/client";

export function settle() {
  ledgerKit.ledger.payments.settle();
}
"#,
    ),
    (
        "apps/worker/src/notify.ts",
        r#"import { mailer } from "@acme/mail-kit/transport";

export function notify() {
  mailer.sendMail({});
}
"#,
    ),
    (
        "apps/worker/src/shadow.ts",
        r#"import { mailer } from "@acme/mail-kit/transport";

export function quiet(sender: any) {
  const mailer = sender;
  mailer.sendMail({});
}

export function loud() {
  mailer.sendMail({});
}
"#,
    ),
    (
        "apps/worker/src/split-context.ts",
        r#"import { splitContext } from "@acme/mail-kit/context";

const { transport } = splitContext(true);

export function send() {
  transport.sendMail({});
}
"#,
    ),
    (
        "apps/worker/src/storage.ts",
        r#"import { BlobStore, flush, ping } from "@acme/storage-kit";

const store = new BlobStore();
store.put();
flush();
ping();
"#,
    ),
    (
        "apps/worker/src/type-reexport.ts",
        r#"import { Client } from "@acme/type-kit";

const client = new Client();
client.send();
"#,
    ),
    (
        "packages/barrel-kit/index.ts",
        r#"export { ledger } from "./inner";
"#,
    ),
    (
        "packages/barrel-kit/inner.ts",
        r#"export { ledger } from "@acme/ledger-kit/client";
"#,
    ),
    (
        "packages/crawl-kit/render.ts",
        r#"export async function render() {
  const { headless } = await import("crawler-kit");
  const page = await headless.launch();

  const runtime = await import("crawler-kit");
  await runtime.shutdown();
  return page;
}
"#,
    ),
    (
        "packages/doc-kit/sign.ts",
        r#"import { Pdf } from "pdf-toolkit";

export async function signDocument() {
  const doc = await Pdf.load("contract");

  return doc.sign();
}
"#,
    ),
    (
        "packages/job-kit/handler.ts",
        r#"import { mailer } from "@acme/mail-kit/transport";

export function run() {
  mailer.sendMail({});
}
"#,
    ),
    (
        "packages/jobs-kit/provider.ts",
        r#"import { Relay } from "relay-queue";

type Options = { client: unknown; retries: number };

export class JobProvider {
  private _client;
  private retries;

  constructor(options: Options) {
    this._client = options.client;
    this.retries = options.retries;
  }

  static create() {
    return new JobProvider({ client: new Relay(), retries: 3 });
  }

  push() {
    return this._client.send({});
  }
}
"#,
    ),
    (
        "packages/ledger-kit/client.ts",
        r#"import Ledger from "ledger-client";

export const ledger = new Ledger("key");
"#,
    ),
    (
        "packages/mail-kit/context.ts",
        r#"import { mailer } from "./transport";

export function createContext() {
  return { transport: mailer, name: "mail" };
}

export function splitContext(fast: boolean) {
  return fast ? { transport: mailer } : { transport: mailer };
}
"#,
    ),
    (
        "packages/mail-kit/digest.ts",
        r#"import { createTransport } from "postbox-mailer";

export default function makeDigest() {
  return createTransport({});
}
"#,
    ),
    (
        "packages/mail-kit/index.ts",
        r#"import { mailer } from "./transport";

export function getTransport() {
  return mailer;
}

export function ready() {
  // The transport answers for itself.
  return getTransport().verify();
}
"#,
    ),
    (
        "packages/mail-kit/transport.ts",
        r#"import { createTransport } from "postbox-mailer";

export function build(fast: boolean) {
  if (fast) {
    return createTransport({ fast });
  }

  return createTransport({});
}

export const mailer = build(true);
"#,
    ),
    (
        "packages/orphan-kit/orphan.ts",
        r#"import { sendNotice } from "courier-sdk";

sendNotice("nobody reads this");
"#,
    ),
    (
        "packages/plain-kit/index.ts",
        r#"export const plain = () => 1;
"#,
    ),
    (
        "packages/singleton-kit/index.ts",
        r#"import { Pulse } from "pulse-analytics";

export class PulseReporter {
  static current: PulseReporter;

  client;

  constructor() {
    this.client = new Pulse();
  }

  static get() {
    if (!PulseReporter.current) {
      PulseReporter.current = new PulseReporter();
    }
    return PulseReporter.current;
  }
}

export function stop() {
  const reporter = PulseReporter.get();
  reporter.client.shutdown();
}

export function capture() {
  PulseReporter.current.client.capture("x");
}
"#,
    ),
    (
        "packages/star-kit/index.ts",
        r#"export * from "./left";
export * from "./right";
"#,
    ),
    (
        "packages/star-kit/left.ts",
        r#"import { Vault } from "vault-blob";

export const sharedClient = new Vault();
export const soloClient = new Vault();
"#,
    ),
    (
        "packages/star-kit/right.ts",
        r#"import { Beacon } from "beacon-metrics";

export const sharedClient = new Beacon();
"#,
    ),
    (
        "packages/storage-kit/beacon.ts",
        r#"import { Beacon as Metrics } from "beacon-metrics";

export class Beacon {
  static client = new Metrics();
}

export function ping() {
  Beacon.client.capture("x");
}
"#,
    ),
    (
        "packages/storage-kit/blob-store.ts",
        r#"import { Vault } from "vault-blob";

export class BlobStore {
  client;

  constructor() {
    this.client = new Vault();
  }

  put() {
    return this.client.upload("x");
  }
}
"#,
    ),
    (
        "packages/storage-kit/index.ts",
        r#"export { ping } from "./beacon";
export { BlobStore } from "./blob-store";
export { flush } from "./queue-store";
"#,
    ),
    (
        "packages/storage-kit/queue-store.ts",
        r#"import { Vault } from "vault-blob";

class QueueStore {
  client;

  constructor(client: unknown) {
    this.client = client;
  }
}

export function flush() {
  const store = new QueueStore(new Vault());
  store.client.flush();
}
"#,
    ),
    (
        "packages/type-kit/index.ts",
        r#"export type { Client } from "courier-sdk";
"#,
    ),
];

/// The rows of the service whose files lie in a directory.
fn scan_service(directory: &str) -> Vec<ExternalCallCandidate> {
    let resolutions = || {
        let mut all: Vec<(&str, Resolution)> = Vec::new();
        for (specifier, package, subpath) in PACKAGES {
            all.push((specifier, external(package, *subpath)));
        }
        for (specifier, path) in LINKS {
            all.push((specifier, internal(path)));
        }
        all
    };
    let inside = format!("{directory}/");
    // The walk of the workspace leaves out directories that are named like build output.
    let found: Vec<String> = SOURCES
        .iter()
        .filter(|(path, _)| !path.contains("/build/"))
        .map(|(path, _)| format!("/repo/{path}"))
        .collect();
    let own: Vec<String> = SOURCES
        .iter()
        .filter(|(path, _)| path.starts_with(&inside))
        .map(|(path, _)| format!("/repo/{path}"))
        .collect();
    let parsed: Vec<ParsedFile> = list_files(&found, &own)
        .iter()
        .map(|listed| {
            let (path, source) = SOURCES
                .iter()
                .find(|(path, _)| format!("/repo/{path}") == *listed)
                .expect("a listed file has a source");
            let parsed = file(path, source, resolutions());
            assert!(parsed.module.is_some(), "{path} parses");
            parsed
        })
        .collect();
    scan_workspace(&own, "/repo", true, &parsed)
}

fn rows_for(rows: &[ExternalCallCandidate], file: &str) -> Vec<(usize, String, String)> {
    rows.iter()
        .filter(|row| row.file == file)
        .map(|row| (row.line, row.callee.clone(), row.package.clone()))
        .collect()
}

fn triples(rows: &[ExternalCallCandidate]) -> Vec<(String, usize, String, String)> {
    rows.iter()
        .map(|row| {
            (
                row.file.clone(),
                row.line,
                row.callee.clone(),
                row.package.clone(),
            )
        })
        .collect()
}

type AnchoredRow = (
    String,
    usize,
    String,
    String,
    Option<String>,
    Option<String>,
);

type FileAnchor = (usize, String, String, Option<String>, Option<String>);

fn anchored(rows: &[ExternalCallCandidate]) -> Vec<AnchoredRow> {
    rows.iter()
        .map(|row| {
            (
                row.file.clone(),
                row.line,
                row.callee.clone(),
                row.package.clone(),
                row.import_symbol.clone(),
                row.subpath.clone(),
            )
        })
        .collect()
}

type AnchorLiteral<'a> = (
    &'a str,
    usize,
    &'a str,
    &'a str,
    Option<&'a str>,
    Option<&'a str>,
);

fn expected_anchored(rows: &[AnchorLiteral<'_>]) -> Vec<AnchoredRow> {
    rows.iter()
        .map(|(file, line, callee, package, symbol, subpath)| {
            (
                file.to_string(),
                *line,
                callee.to_string(),
                package.to_string(),
                symbol.map(str::to_string),
                subpath.map(str::to_string),
            )
        })
        .collect()
}

fn expected(rows: &[(&str, usize, &str, &str)]) -> Vec<(String, usize, String, String)> {
    rows.iter()
        .map(|(file, line, callee, package)| {
            (
                file.to_string(),
                *line,
                callee.to_string(),
                package.to_string(),
            )
        })
        .collect()
}

#[test]
fn fixture_scan_matches_expected_rows() {
    let rows = scan_service("apps/api");
    assert_eq!(
        triples(&rows),
        expected(&[
            (
                "apps/api/src/direct-call.ts",
                4,
                "sendNotice",
                "courier-sdk"
            ),
            (
                "apps/api/src/member-call.ts",
                6,
                "ledger.payments.create",
                "ledger-client"
            ),
            (
                "apps/api/src/member-call.ts",
                10,
                "createInvoice",
                "ledger-client"
            ),
            (
                "apps/api/src/namespace-call.ts",
                3,
                "telemetry.createSink",
                "telemetry-sink"
            ),
            (
                "apps/api/src/namespace-call.ts",
                6,
                "telemetry.emit",
                "telemetry-sink"
            ),
            (
                "apps/api/src/namespace-call.ts",
                7,
                "sink.flush",
                "telemetry-sink"
            ),
            (
                "apps/api/src/optional-dep.ts",
                6,
                "uplink.put",
                "storage-uplink"
            ),
            (
                "apps/api/src/subpath-import.ts",
                4,
                "publishEdge",
                "courier-sdk"
            ),
        ])
    );
    assert!(rows.iter().all(|row| row.mechanism == CallMechanism::Sdk));
}

#[test]
fn relative_builtin_and_workspace_imports_emit_nothing() {
    assert_eq!(
        rows_for(&scan_service("apps/api"), "apps/api/src/no-rows.ts"),
        Vec::new()
    );
}

#[test]
fn a_subpath_import_records_its_subpath() {
    let rows = scan_service("apps/api");
    assert_eq!(
        anchored(&rows)
            .into_iter()
            .filter(|(file, ..)| file == "apps/api/src/subpath-import.ts")
            .collect::<Vec<_>>(),
        expected_anchored(&[(
            "apps/api/src/subpath-import.ts",
            4,
            "publishEdge",
            "courier-sdk",
            Some("publishEdge"),
            Some("edge"),
        )])
    );
}

#[test]
fn type_only_imports_emit_nothing() {
    let rows = scan_service("apps/api");
    assert_eq!(rows_for(&rows, "apps/api/src/type-only.ts"), Vec::new());
    assert!(
        rows_for(&rows, "apps/api/src/member-call.ts").contains(&(
            10,
            "createInvoice".to_string(),
            "ledger-client".to_string()
        )),
        "the value half of a mixed type/value import still resolves"
    );
}

fn worker() -> Vec<ExternalCallCandidate> {
    scan_service("apps/worker")
}

#[test]
fn workspace_scan_matches_expected_rows() {
    assert_eq!(
        triples(&worker()),
        expected(&[
            (
                "apps/worker/src/barrel-consumer.ts",
                3,
                "ledger.invoices.list",
                "ledger-client"
            ),
            (
                "apps/worker/src/billing.ts",
                4,
                "ledger.payments.create",
                "ledger-client"
            ),
            (
                "apps/worker/src/conflict.ts",
                5,
                "soloClient.upload",
                "vault-blob"
            ),
            (
                "apps/worker/src/destructured.ts",
                6,
                "transport.sendMail",
                "postbox-mailer"
            ),
            (
                "apps/worker/src/digest.ts",
                6,
                "transport.sendMail",
                "postbox-mailer"
            ),
            (
                "apps/worker/src/member-form.ts",
                6,
                "context.transport.sendMail",
                "postbox-mailer"
            ),
            (
                "apps/worker/src/namespace-internal.ts",
                4,
                "ledgerKit.ledger.payments.settle",
                "ledger-client"
            ),
            (
                "apps/worker/src/notify.ts",
                4,
                "mailer.sendMail",
                "postbox-mailer"
            ),
            (
                "apps/worker/src/shadow.ts",
                9,
                "mailer.sendMail",
                "postbox-mailer"
            ),
            (
                "apps/worker/src/split-context.ts",
                6,
                "transport.sendMail",
                "postbox-mailer"
            ),
            (
                "packages/crawl-kit/render.ts",
                3,
                "headless.launch",
                "crawler-kit"
            ),
            (
                "packages/crawl-kit/render.ts",
                6,
                "runtime.shutdown",
                "crawler-kit"
            ),
            ("packages/doc-kit/sign.ts", 4, "Pdf.load", "pdf-toolkit"),
            ("packages/doc-kit/sign.ts", 6, "doc.sign", "pdf-toolkit"),
            (
                "packages/job-kit/handler.ts",
                4,
                "mailer.sendMail",
                "postbox-mailer"
            ),
            (
                "packages/jobs-kit/provider.ts",
                19,
                "this._client.send",
                "relay-queue"
            ),
            (
                "packages/mail-kit/digest.ts",
                4,
                "createTransport",
                "postbox-mailer"
            ),
            (
                "packages/mail-kit/index.ts",
                9,
                "getTransport().verify",
                "postbox-mailer"
            ),
            (
                "packages/mail-kit/transport.ts",
                5,
                "createTransport",
                "postbox-mailer"
            ),
            (
                "packages/mail-kit/transport.ts",
                8,
                "createTransport",
                "postbox-mailer"
            ),
            (
                "packages/singleton-kit/index.ts",
                22,
                "reporter.client.shutdown",
                "pulse-analytics"
            ),
            (
                "packages/singleton-kit/index.ts",
                26,
                "PulseReporter.current.client.capture",
                "pulse-analytics"
            ),
            (
                "packages/storage-kit/beacon.ts",
                8,
                "Beacon.client.capture",
                "beacon-metrics"
            ),
            (
                "packages/storage-kit/blob-store.ts",
                11,
                "this.client.upload",
                "vault-blob"
            ),
            (
                "packages/storage-kit/queue-store.ts",
                13,
                "store.client.flush",
                "vault-blob"
            ),
        ])
    );
}

#[test]
fn exported_client_resolves_across_a_subpath_import() {
    assert_eq!(
        rows_for(&worker(), "apps/worker/src/billing.ts"),
        vec![(
            4,
            "ledger.payments.create".to_string(),
            "ledger-client".to_string()
        )]
    );
}

#[test]
fn local_factory_result_is_owned_by_what_its_returns_construct() {
    assert_eq!(
        rows_for(&worker(), "apps/worker/src/notify.ts"),
        vec![(
            4,
            "mailer.sendMail".to_string(),
            "postbox-mailer".to_string()
        )]
    );
}

#[test]
fn a_call_inside_the_chain_resolves_and_prints_as_written() {
    assert_eq!(
        rows_for(&worker(), "packages/mail-kit/index.ts"),
        vec![(
            9,
            "getTransport().verify".to_string(),
            "postbox-mailer".to_string()
        )]
    );
}

#[test]
fn returned_object_properties_resolve_both_ways() {
    let rows = worker();
    assert_eq!(
        rows_for(&rows, "apps/worker/src/destructured.ts"),
        vec![(
            6,
            "transport.sendMail".to_string(),
            "postbox-mailer".to_string()
        )]
    );
    assert_eq!(
        rows_for(&rows, "apps/worker/src/member-form.ts"),
        vec![(
            6,
            "context.transport.sendMail".to_string(),
            "postbox-mailer".to_string()
        )]
    );
}

#[test]
fn a_default_exported_factory_resolves() {
    assert_eq!(
        rows_for(&worker(), "apps/worker/src/digest.ts"),
        vec![(
            6,
            "transport.sendMail".to_string(),
            "postbox-mailer".to_string()
        )]
    );
}

#[test]
fn a_ternary_of_returned_records_resolves() {
    assert_eq!(
        rows_for(&worker(), "apps/worker/src/split-context.ts"),
        vec![(
            6,
            "transport.sendMail".to_string(),
            "postbox-mailer".to_string()
        )]
    );
}

#[test]
fn class_field_assigned_in_the_constructor_resolves() {
    assert_eq!(
        rows_for(&worker(), "packages/storage-kit/blob-store.ts"),
        vec![(
            11,
            "this.client.upload".to_string(),
            "vault-blob".to_string()
        )]
    );
}

#[test]
fn constructor_parameter_field_resolves_at_the_construction_site() {
    assert_eq!(
        rows_for(&worker(), "packages/storage-kit/queue-store.ts"),
        vec![(
            13,
            "store.client.flush".to_string(),
            "vault-blob".to_string()
        )]
    );
}

#[test]
fn static_field_resolves_through_the_class_binding() {
    assert_eq!(
        rows_for(&worker(), "packages/storage-kit/beacon.ts"),
        vec![(
            8,
            "Beacon.client.capture".to_string(),
            "beacon-metrics".to_string()
        )]
    );
}

#[test]
fn a_static_field_holding_an_instance_resolves_through_it() {
    assert_eq!(
        rows_for(&worker(), "packages/singleton-kit/index.ts"),
        vec![
            (
                22,
                "reporter.client.shutdown".to_string(),
                "pulse-analytics".to_string()
            ),
            (
                26,
                "PulseReporter.current.client.capture".to_string(),
                "pulse-analytics".to_string()
            ),
        ]
    );
}

#[test]
fn a_constructor_options_object_reaches_this_inside_the_class() {
    assert_eq!(
        rows_for(&worker(), "packages/jobs-kit/provider.ts"),
        vec![(
            19,
            "this._client.send".to_string(),
            "relay-queue".to_string()
        )]
    );
}

#[test]
fn awaited_factory_result_resolves() {
    assert_eq!(
        rows_for(&worker(), "packages/doc-kit/sign.ts"),
        vec![
            (4, "Pdf.load".to_string(), "pdf-toolkit".to_string()),
            (6, "doc.sign".to_string(), "pdf-toolkit".to_string()),
        ]
    );
}

#[test]
fn dynamic_import_bindings_resolve() {
    assert_eq!(
        rows_for(&worker(), "packages/crawl-kit/render.ts"),
        vec![
            (3, "headless.launch".to_string(), "crawler-kit".to_string()),
            (6, "runtime.shutdown".to_string(), "crawler-kit".to_string()),
        ]
    );
}

#[test]
fn a_barrel_re_export_chain_carries_ownership() {
    assert_eq!(
        rows_for(&worker(), "apps/worker/src/barrel-consumer.ts"),
        vec![(
            3,
            "ledger.invoices.list".to_string(),
            "ledger-client".to_string()
        )]
    );
}

#[test]
fn star_exports_carry_agreement_and_drop_disagreement() {
    assert_eq!(
        rows_for(&worker(), "apps/worker/src/conflict.ts"),
        vec![(5, "soloClient.upload".to_string(), "vault-blob".to_string())]
    );
}

#[test]
fn namespace_import_of_an_internal_module_resolves() {
    assert_eq!(
        rows_for(&worker(), "apps/worker/src/namespace-internal.ts"),
        vec![(
            4,
            "ledgerKit.ledger.payments.settle".to_string(),
            "ledger-client".to_string()
        )]
    );
}

#[test]
fn a_file_reached_only_by_a_dynamic_import_is_in_scope() {
    assert_eq!(
        rows_for(&worker(), "packages/job-kit/handler.ts"),
        vec![(
            4,
            "mailer.sendMail".to_string(),
            "postbox-mailer".to_string()
        )]
    );
}

#[test]
fn an_unreachable_file_stays_out_of_the_service_rows() {
    assert_eq!(
        rows_for(&worker(), "packages/orphan-kit/orphan.ts"),
        Vec::new()
    );
    assert_eq!(
        rows_for(&scan_service("apps/api"), "packages/orphan-kit/orphan.ts"),
        Vec::new()
    );
}

#[test]
fn a_dev_dependency_wrapper_emits_nothing() {
    assert_eq!(
        rows_for(&worker(), "apps/worker/src/dev-wrapper.ts"),
        Vec::new()
    );
    assert_eq!(
        rows_for(&scan_service("apps/api"), "apps/api/src/dev-only.ts"),
        Vec::new()
    );
}

#[test]
fn a_type_only_re_export_carries_nothing() {
    assert_eq!(
        rows_for(&worker(), "apps/worker/src/type-reexport.ts"),
        Vec::new()
    );
}

#[test]
fn shadowed_binding_does_not_resolve() {
    assert_eq!(
        rows_for(&worker(), "apps/worker/src/shadow.ts"),
        vec![(
            9,
            "mailer.sendMail".to_string(),
            "postbox-mailer".to_string()
        )]
    );
}

#[test]
fn calling_an_internal_wrapper_is_not_a_row() {
    let rows = worker();
    for file in [
        "apps/worker/src/documents.ts",
        "apps/worker/src/crawl.ts",
        "apps/worker/src/storage.ts",
        "apps/worker/src/entry.ts",
    ] {
        assert_eq!(rows_for(&rows, file), Vec::new(), "{} emitted rows", file);
    }
}

#[test]
fn a_shared_file_contributes_to_every_service_that_reaches_it() {
    let shared = (
        8,
        "createTransport".to_string(),
        "postbox-mailer".to_string(),
    );
    assert!(
        rows_for(&worker(), "packages/mail-kit/transport.ts").contains(&shared),
        "the wrapper is missing from the worker payload"
    );
    assert!(
        rows_for(&scan_service("apps/relay"), "packages/mail-kit/transport.ts").contains(&shared),
        "the same wrapper is missing from the second service's payload"
    );
    let api_files: Vec<String> =
        scan_service("apps/api").into_iter().map(|row| row.file).collect();
    assert!(
        api_files.iter().all(|file| file.starts_with("apps/api/")),
        "a service that imports no shared package reached one: {:?}",
        api_files
    );
}

#[test]
fn a_catch_on_an_owned_call_yields_its_own_row() {
    assert_eq!(
        rows_for(&scan_service("apps/relay"), "apps/relay/src/index.ts"),
        vec![
            (
                4,
                "mailer.sendMail".to_string(),
                "postbox-mailer".to_string()
            ),
            (
                4,
                "mailer.sendMail().catch".to_string(),
                "postbox-mailer".to_string()
            ),
        ]
    );
}

#[test]
fn a_service_rooted_in_an_excluded_directory_still_scans() {
    assert_eq!(
        rows_for(&scan_service("apps/build"), "apps/build/src/index.ts"),
        vec![(3, "sendNotice".to_string(), "courier-sdk".to_string())]
    );
}

fn forge() -> Vec<ExternalCallCandidate> {
    scan_service("apps/forge")
}

fn anchors_for(rows: &[ExternalCallCandidate], file: &str) -> Vec<FileAnchor> {
    anchored(rows)
        .into_iter()
        .filter(|(row_file, ..)| row_file == file)
        .map(|(_, line, callee, package, symbol, subpath)| {
            (line, callee, package, symbol, subpath)
        })
        .collect()
}

fn anchor(
    line: usize,
    callee: &str,
    symbol: Option<&str>,
    subpath: Option<&str>,
) -> Vec<FileAnchor> {
    vec![(
        line,
        callee.to_string(),
        "forge-sdk".to_string(),
        symbol.map(str::to_string),
        subpath.map(str::to_string),
    )]
}

#[test]
fn forge_service_scan_matches_expected_rows() {
    assert_eq!(
        anchored(&forge()),
        expected_anchored(&[
            (
                "apps/forge/src/callback.ts",
                25,
                "forge.sessions.open",
                "forge-sdk",
                Some("default"),
                None,
            ),
            (
                "apps/forge/src/callback.ts",
                25,
                "forge.sessions.open().then",
                "forge-sdk",
                Some("default"),
                None,
            ),
            (
                "apps/forge/src/dynamic.ts",
                5,
                "client.sessions.create",
                "forge-sdk",
                Some("default"),
                None,
            ),
            (
                "apps/forge/src/dynamic.ts",
                11,
                "sdk.close",
                "forge-sdk",
                None,
                None,
            ),
            (
                "apps/forge/src/injected-runner.ts",
                7,
                "this.client.sessions.release",
                "forge-sdk",
                Some("default"),
                None,
            ),
            (
                "apps/forge/src/release.ts",
                6,
                "client.sessions.release",
                "forge-sdk",
                Some("Forge"),
                Some("edge"),
            ),
            (
                "apps/forge/src/runner.ts",
                11,
                "this.client.sessions.release",
                "forge-sdk",
                Some("default"),
                None,
            ),
            (
                "apps/forge/src/sessions.ts",
                9,
                "forge.sessions.create",
                "forge-sdk",
                Some("default"),
                None,
            ),
        ])
    );
}

#[test]
fn a_relative_factory_resolves_through_what_it_returns() {
    assert_eq!(
        anchors_for(&forge(), "apps/forge/src/sessions.ts"),
        anchor(9, "forge.sessions.create", Some("default"), None)
    );
}

#[test]
fn a_relative_factory_resolves_through_its_declared_return_type() {
    assert_eq!(
        anchors_for(&forge(), "apps/forge/src/release.ts"),
        anchor(6, "client.sessions.release", Some("Forge"), Some("edge"))
    );
}

#[test]
fn a_class_property_constructed_in_the_constructor_resolves() {
    assert_eq!(
        anchors_for(&forge(), "apps/forge/src/runner.ts"),
        anchor(11, "this.client.sessions.release", Some("default"), None)
    );
}

#[test]
fn a_class_property_typed_by_a_dependency_resolves() {
    assert_eq!(
        anchors_for(&forge(), "apps/forge/src/injected-runner.ts"),
        anchor(7, "this.client.sessions.release", Some("default"), None)
    );
}

#[test]
fn dynamic_import_bindings_carry_the_export_they_name() {
    assert_eq!(
        anchors_for(&forge(), "apps/forge/src/dynamic.ts"),
        vec![
            (
                5,
                "client.sessions.create".to_string(),
                "forge-sdk".to_string(),
                Some("default".to_string()),
                None,
            ),
            (
                11,
                "sdk.close".to_string(),
                "forge-sdk".to_string(),
                None,
                None,
            ),
        ]
    );
}

#[test]
fn one_package_reached_through_two_anchors_emits_nothing() {
    assert_eq!(
        anchors_for(&forge(), "apps/forge/src/split-consumer.ts"),
        Vec::new()
    );
}

#[test]
fn a_callback_parameter_does_not_inherit_its_receiver() {
    assert_eq!(
        anchors_for(&forge(), "apps/forge/src/callback.ts"),
        vec![
            (
                25,
                "forge.sessions.open".to_string(),
                "forge-sdk".to_string(),
                Some("default".to_string()),
                None,
            ),
            (
                25,
                "forge.sessions.open().then".to_string(),
                "forge-sdk".to_string(),
                Some("default".to_string()),
                None,
            ),
        ]
    );
}

#[test]
fn scan_is_deterministic() {
    assert_eq!(scan_service("apps/worker"), scan_service("apps/worker"));
    assert_eq!(scan_service("apps/api"), scan_service("apps/api"));
}

// ---------------------------------------------------------------------------
// Source texts
// ---------------------------------------------------------------------------

#[test]
fn the_extension_of_a_file_gives_its_grammar() {
    assert_eq!(syntax_for("src/a.ts"), Grammar::TypeScript { tsx: false, decorators: true });
    assert_eq!(syntax_for("src/a.tsx"), Grammar::TypeScript { tsx: true, decorators: true });
    assert_eq!(syntax_for("src/a.jsx"), Grammar::Script { jsx: true });
    assert_eq!(syntax_for("src/a.js"), Grammar::Script { jsx: false });
    assert_eq!(syntax_for("src/.ts"), Grammar::Script { jsx: false });
    assert_eq!(syntax_for("src.ts/a"), Grammar::Script { jsx: false });
    assert!(parse_source("a.ts", "const a: number = 1;").is_some());
    assert!(parse_source("a.js", "const a = <b/>;").is_none());
    assert!(parse_source("a.tsx", "const a = <b/>;").is_some());
    assert!(parse_source("a.jsx", "const a = <b/>;").is_some());
    assert!(parse_source("a.ts", "const a = <b/>;").is_none());
    assert!(fits_positions("const a = 1;"));
}

/// The one statement of a source.
fn statement(source: &str) -> Node {
    let mut items = parsed(source).items;
    assert_eq!(items.len(), 1);
    match items.remove(0) {
        ModuleItem::Statement(node) => node,
        other => panic!("no statement: {other:?}"),
    }
}

/// The one expression of a source.
fn expression(source: &str) -> Node {
    match statement(source) {
        Node::Other(mut inner) => inner.remove(0),
        other => panic!("no expression: {other:?}"),
    }
}

fn is_name(node: &Node, name: &str) -> bool {
    matches!(node, Node::Ident(ident) if ident.symbol == name)
}

#[test]
fn members_and_calls_read_as_they_are_written() {
    let Node::Call { line, callee, args } = expression("\n\na.b[\"c\"](x, ...y)") else { panic!("a call") };
    assert_eq!(line, 3);
    let Node::Index { object, index } = *callee else { panic!("an index") };
    assert_eq!(*index, Node::Text("c".to_string()));
    assert!(matches!(*object, Node::Member { object, property } if is_name(&object, "a") && property == "b"));
    assert!(is_name(&args[0], "x"));
    assert!(matches!(&args[1], Node::Spread(inner) if is_name(inner, "y")));

    let Node::OptCall { line, callee, args } = expression("a?.b?.(\n1)") else { panic!("an optional call") };
    assert_eq!((line, args.len()), (1, 1));
    assert!(matches!(*callee, Node::OptMember { object, property } if is_name(&object, "a") && property == "b"));
    assert!(matches!(expression("new A"), Node::New { callee, args } if is_name(&callee, "A") && args.is_empty()));
    assert!(matches!(expression("import(\"m\")"), Node::ImportCall { args } if args[0] == Node::Text("m".to_string())));
    assert_eq!(expression("this"), Node::This);
}

#[test]
fn operators_and_wrappers_keep_their_operands() {
    let Node::Binary { op, left, right } = expression("a ?? (b as T)!") else { panic!("an operator") };
    assert_eq!(op, BinaryOp::NullishCoalescing);
    assert!(is_name(&left, "a"));
    let Node::Wrapped { wrapper: Wrapper::NonNull, inner } = *right else { panic!("a wrapper") };
    let Node::Wrapped { wrapper: Wrapper::Paren, inner } = *inner else { panic!("a wrapper") };
    let Node::Wrapped { wrapper: Wrapper::As, inner } = *inner else { panic!("a wrapper") };
    assert!(is_name(&inner, "b"));
    assert!(matches!(expression("a || b"), Node::Binary { op: BinaryOp::LogicalOr, .. }));
    assert!(matches!(expression("a && b"), Node::Binary { op: BinaryOp::Other, .. }));
    let Node::Cond { test, consequent, alternate } = expression("a ? b : c") else { panic!("a condition") };
    assert!(is_name(&test, "a") && is_name(&consequent, "b") && is_name(&alternate, "c"));
    let Node::Assign { target, value } = expression("a.b = c") else { panic!("an assignment") };
    assert!(matches!(*target, Node::Member { property, .. } if property == "b"));
    assert!(is_name(&value, "c"));
    assert!(matches!(expression("a[0] = c"), Node::Assign { target, .. } if matches!(*target, Node::Other(_))));
}

#[test]
fn objects_read_property_by_property() {
    let Node::Wrapped { inner, .. } = expression("({ a, b: 1, \"c\": d, [e]: f, ...g, h() { return 1; } })") else {
        panic!("parentheses")
    };
    let Node::Object(props) = *inner else { panic!("an object") };
    assert_eq!(props.len(), 6);
    assert!(matches!(&props[0], Node::Shorthand(name) if name.symbol == "a"));
    assert!(matches!(&props[1], Node::KeyValue { key: PropKey::Ident(key), .. } if key == "b"));
    assert!(matches!(&props[2], Node::KeyValue { key: PropKey::Text(key), value, .. } if key == "c" && is_name(value, "d")));
    assert!(matches!(&props[3], Node::KeyValue { key: PropKey::Other, inner, .. } if is_name(&inner[0], "e")));
    assert!(matches!(&props[4], Node::Spread(inner) if is_name(inner, "g")));
    assert!(matches!(&props[5], Node::Other(inner) if matches!(inner.last(), Some(Node::Function(_)))));
}

#[test]
fn declarations_read_their_names_and_types() {
    let Node::VarDecl(declarators) = statement("const { a, b: c, \"d\": { e }, ...f } = g, h = 1;") else {
        panic!("a declaration")
    };
    let Node::Declarator { pattern: Pattern::Object { props, .. }, init } = &declarators[0] else { panic!("a pattern") };
    assert!(matches!(&props[0], PatternProp::Assign(name) if name.symbol == "a"));
    assert!(matches!(&props[1], PatternProp::KeyValue { key: PropKey::Ident(key), local: Some(local) } if key == "b" && local.symbol == "c"));
    assert!(matches!(&props[2], PatternProp::KeyValue { key: PropKey::Text(key), local: None } if key == "d"));
    assert_eq!(props[3], PatternProp::Rest);
    assert!(matches!(init, Some(init) if is_name(init, "g")));
    assert!(matches!(&declarators[1], Node::Declarator { pattern: Pattern::Name(name), .. } if name.symbol == "h"));

    let Node::FnDecl { name, function } = statement("function f(x = d): ns.T { return x; }") else { panic!("a function") };
    assert_eq!(name.symbol, "f");
    assert_eq!(function.return_type, Some(TypeAnnotation::Reference(vec!["ns".to_string(), "T".to_string()])));
    let body = function.body.unwrap();
    assert!(matches!(&body[0], Node::Return(Some(value)) if is_name(value, "x")));
    assert!(matches!(statement("() => x;"), Node::Other(inner) if matches!(&inner[0], Node::ArrowValue { value, .. } if is_name(value, "x"))));
    assert!(matches!(statement("() => { return; };"), Node::Other(inner) if matches!(&inner[0], Node::Arrow(f) if f.body.as_ref().is_some_and(|b| b[0] == Node::Return(None)))));
}

#[test]
fn classes_read_member_by_member() {
    let source = "class A extends B { static p: T = v; constructor(x, private y, { z }) { super(x); } get g() { return 1; } m() {} }";
    let Node::ClassDecl { name, class } = statement(source) else { panic!("a class") };
    assert_eq!(name.symbol, "A");
    assert!(is_name(&class.extends[0], "B"));
    assert_eq!(class.members.len(), 4);
    let Node::ClassProp { key, value, is_static, declared, .. } = &class.members[0] else { panic!("a property") };
    assert_eq!((key, *is_static), (&PropKey::Ident("p".to_string()), true));
    assert_eq!(*declared, Some(TypeAnnotation::Reference(vec!["T".to_string()])));
    assert!(matches!(value, Some(value) if is_name(value, "v")));
    let Node::Constructor { params, .. } = &class.members[1] else { panic!("a constructor") };
    assert_eq!(params.iter().map(|p| p.as_ref().map(|p| p.symbol.as_str())).collect::<Vec<_>>(), vec![Some("x"), None, None]);
    assert!(matches!(&class.members[2], Node::Method { kind: MethodKind::Getter, is_static: false, .. }));
    assert!(matches!(&class.members[3], Node::Method { kind: MethodKind::Method, key: PropKey::Ident(key), .. } if key == "m"));
}

#[test]
fn imports_and_exports_read_their_names() {
    let module = parsed(
        "import d, { a as b, type T } from \"m\";\nimport * as n from \"m\";\nexport { x as y, \"z\" as w } from \"o\";\nexport * as q from \"r\";\nexport type * from \"s\";\nexport const c = 1;\nexport default class K {}\n",
    );
    let ModuleItem::Import { source, type_only, specifiers } = &module.items[0] else { panic!("an import") };
    assert_eq!((source.as_str(), *type_only), ("m", false));
    assert!(matches!(&specifiers[0], ImportSpecifier::Default { local } if local.symbol == "d"));
    assert!(matches!(&specifiers[1], ImportSpecifier::Named { local, imported: Some(name), type_only: false } if local.symbol == "b" && name == "a"));
    assert!(matches!(&specifiers[2], ImportSpecifier::Named { imported: None, type_only: true, .. }));
    assert!(matches!(&module.items[1], ModuleItem::Import { specifiers, .. } if matches!(&specifiers[0], ImportSpecifier::Namespace { local } if local.symbol == "n")));
    let ModuleItem::ExportNamed { source, specifiers, .. } = &module.items[2] else { panic!("an export") };
    assert_eq!(source.as_deref(), Some("o"));
    assert!(matches!(&specifiers[0], ExportSpecifier::Named { original: ExportName::Ident(name), exported: Some(as_name), .. } if name.symbol == "x" && as_name == "y"));
    assert!(matches!(&specifiers[1], ExportSpecifier::Named { original: ExportName::Text(name), .. } if name == "z"));
    assert!(matches!(&module.items[3], ModuleItem::ExportNamed { specifiers, .. } if matches!(&specifiers[0], ExportSpecifier::Namespace { name: ExportName::Ident(name) } if name.symbol == "q")));
    assert_eq!(module.items[4], ModuleItem::ExportAll { source: "s".to_string(), type_only: true });
    assert!(matches!(&module.items[5], ModuleItem::ExportDecl(Node::VarDecl(_))));
    assert!(matches!(&module.items[6], ModuleItem::ExportDefault { name: Some(name), decl: Node::Class { .. } } if name.symbol == "K"));
}

#[test]
fn a_name_is_told_apart_by_its_scope() {
    let Node::Other(statements) = statement("{ const a = 1; { const a = 2; } }") else { panic!("a block") };
    let Node::VarDecl(outer) = &statements[0] else { panic!("a declaration") };
    let Node::Other(inner) = &statements[1] else { panic!("a block") };
    let Node::VarDecl(inner) = &inner[0] else { panic!("a declaration") };
    let (Node::Declarator { pattern: Pattern::Name(outer), .. }, Node::Declarator { pattern: Pattern::Name(inner), .. }) = (&outer[0], &inner[0]) else {
        panic!("names")
    };
    assert_eq!(outer.symbol, inner.symbol);
    assert_ne!(outer.context, inner.context);
}

#[test]
fn a_string_literal_reads_as_it_is_meant() {
    assert_eq!(expression("(\"a\\\\u0041\")"), Node::Wrapped { wrapper: Wrapper::Paren, inner: Box::new(Node::Text("a\\u0041".to_string())) });
    assert_eq!(expression("(\"\\u0041\\n\")"), Node::Wrapped { wrapper: Wrapper::Paren, inner: Box::new(Node::Text("A\n".to_string())) });
    assert_eq!(expression("(\"C:\\\\util\")"), Node::Wrapped { wrapper: Wrapper::Paren, inner: Box::new(Node::Text("C:\\util".to_string())) });
}

#[test]
fn specifiers_are_those_of_imports_exports_and_dynamic_imports() {
    let module = parsed(
        "import a from \"a\";\nconst later = () => import(\"d\");\nexport * from \"b\";\nexport { c } from \"c\";\nexport { a };\nimport(name);\nimport(\"e\");\n",
    );
    assert_eq!(specifiers(&module), vec!["a", "b", "c", "d", "e"]);
}

fn text(path: &str, text: Option<&str>) -> SourceText {
    SourceText { path: path.to_string(), text: text.map(str::to_string) }
}

#[test]
fn the_events_of_a_text_are_those_of_its_syntax() {
    let source = "bus.on(\"orderPlaced\", f);\nbus.emit(\"orderShipped\");";
    let found = scan_sources(
        &vec![text("bus.ts", Some(source)), text("bus.md", Some(source)), text("gone.ts", None), text("bad.ts", Some("const ="))],
        &SocketExtraction::default(),
    );
    assert_eq!(events(&found.subscribers), vec!["orderPlaced"]);
    assert_eq!(events(&found.publishers), vec!["orderShipped"]);
    assert_eq!((found.publishers[0].file_path.as_str(), found.publishers[0].line), ("bus.ts", 2));
    assert!(parse_text(&text("gone.ts", None)).is_none());
}

#[test]
fn the_environment_bindings_of_a_text_are_those_of_its_syntax() {
    let source = "export const API = process.env.API_URL;\nconst s = { A_URL: z.string().default(\"http://one\") };";
    let bindings = EnvAliasExtractor::build_source("a.ts", source).unwrap();
    assert_eq!(bindings.aliases.get("API").map(String::as_str), Some("API_URL"));
    let exported = exported_source_aliases("a.ts", source).unwrap();
    assert_eq!(exported.get("API").map(String::as_str), Some("API_URL"));
    let schema = source_env_schema("a.ts", source).unwrap();
    assert_eq!(schema.get("A_URL").and_then(|d| d.default_literal.clone()).as_deref(), Some("http://one"));
    assert!(EnvAliasExtractor::build_source("a.ts", "const =").is_none());
    assert!(exported_source_aliases("a.ts", "const =").is_none());
    assert!(source_env_schema("a.ts", "const =").is_none());
}

#[test]
fn the_facts_of_a_text_are_those_of_its_syntax() {
    let source = "import { Client } from \"vendor\";\nexport const client = new Client();\nclient.send();";
    let targets: TargetMap = TextMap::new();
    let facts = collect_source("a.ts", source, &targets);
    let module = parse_source("a.ts", source).unwrap();
    assert_eq!(facts.call_sites.len(), collect_facts(&module, &targets).call_sites.len());
    assert_eq!(facts.call_sites.len(), 1);
    assert!(collect_source("a.ts", "const =", &targets).call_sites.is_empty());
}

#[test]
fn the_rows_of_a_text_are_those_of_its_syntax() {
    let source = "import { Client } from \"vendor\";\nconst client = new Client();\nclient.send();";
    let mut resolutions: TextMap<Resolution> = TextMap::new();
    resolutions.insert("vendor".to_string(), external("vendor", None));
    let texts = vec![WorkspaceText { file: text("/repo/src/a.ts", Some(source)), resolutions }];
    let own = vec!["/repo/src/a.ts".to_string()];
    let rows: Vec<_> = workspace::scan_sources(&own, "/repo", true, &texts)
        .into_iter()
        .map(|row| (row.file, row.line, row.callee, row.package))
        .collect();
    assert_eq!(rows, rows_of(vec![file("src/a.ts", source, vec![("vendor", external("vendor", None))])], &["src/a.ts"]));
    assert_eq!(rows, vec![row("src/a.ts", 3, "client.send", "vendor")]);
    assert!(workspace::scan_sources(&own, "/repo", false, &texts).is_empty());
}

// ---------------------------------------------------------------------------
// What decides between several statements
// ---------------------------------------------------------------------------

#[test]
fn a_function_that_returns_two_packages_owns_nothing() {
    let source = "import { A } from \"one\";\nimport { B } from \"two\";\nfunction make(x) {\n  if (x === 1) { return new A(); }\n  if (x === 2) { return new B(); }\n  return { a: new A() };\n}\nmake(3).a.send();\nmake(3).send();";
    let resolutions = vec![("one", external("one", None)), ("two", external("two", None))];
    assert!(rows_of(vec![file("src/a.ts", source, resolutions)], &["src/a.ts"]).is_empty());
}

#[test]
fn the_outermost_default_of_a_schema_decides() {
    let schema = module_env_schema(&parsed(r#"const s = { PORT: z.string().default("8080").default(computePort()) };"#));
    let declared = schema.get("PORT").unwrap();
    assert!(!declared.optional);
    assert_eq!(declared.default_literal, None);
}

#[test]
fn a_call_without_a_line_is_no_row() {
    assert!(rows(vec![call("https://api.vendor.test/v1/charges", Some("api.vendor.test"), Some(0))]).is_empty());
    assert!(rows(vec![call("https://api.vendor.test/v1/charges", Some("api.vendor.test"), Some(1))]).len() == 1);
}

#[test]
fn a_socket_claims_its_site_under_any_spelling_of_the_file() {
    let mut sockets = SocketExtraction::default();
    sockets.emitters.push(SocketOp {
        key: OperationKey::Socket { event: "orderPlaced".to_string(), direction: SocketDirection::ServerToClient },
        file_path: "src/./bus.ts".to_string(),
        line: 1,
    });
    let source = "bus.emit(\"orderPlaced\"); bus.emit(\"orderShipped\");\nbus.emit(\"orderPlaced\");";
    let files = vec![SourceFile { path: "src/bus.ts".to_string(), module: parse_source("src/bus.ts", source) }];
    let found = scan_files(&files, &sockets);
    assert_eq!(events(&found.publishers), vec!["orderShipped", "orderPlaced"]);
    assert_eq!(found.publishers[1].line, 2);
}

#[test]
fn a_list_of_just_the_bound_is_whole() {
    let rows: Vec<ExternalCallCandidate> = (0..MAX_CANDIDATES_PER_SERVICE)
        .map(|line| ExternalCallCandidate { line, ..plain_row("p", CallMechanism::Sdk) })
        .collect();
    let last = rows[rows.len() - 1].clone();
    assert_eq!(merge(rows.clone(), vec![last]), rows);
}

#[test]
fn a_line_begins_behind_each_line_end() {
    let line = |source: &str| {
        let found = scan(source);
        found.publishers[0].line
    };
    assert_eq!(line("bus.emit(\"orderPlaced\");"), 1);
    assert_eq!(line("\nbus.emit(\"orderPlaced\");\n"), 2);
    assert_eq!(line("\r\n\r\nbus.emit(\"orderPlaced\");"), 3);
    assert_eq!(line("\r\r\nbus.emit(\"orderPlaced\");"), 3);
    assert_eq!(line("\u{feff}\nbus.emit(\"orderPlaced\");"), 2);
    assert_eq!(line("// \u{e9}\u{1f980}\nbus.emit(\"orderPlaced\");"), 2);
}

#[test]
fn the_extension_is_that_of_the_last_name() {
    assert_eq!(syntax_for("src/a.tsx/"), Grammar::TypeScript { tsx: true, decorators: true });
    assert_eq!(syntax_for("src/a.jsx/."), Grammar::Script { jsx: true });
    assert_eq!(syntax_for("src/a.ts/.."), Grammar::Script { jsx: false });
}
