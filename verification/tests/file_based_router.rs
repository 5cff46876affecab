use carrick::file_based_router::{builtin_conventions, derive_route, DerivedRoute, MethodSource, RoutingConvention};
use carrick::ordered::TextMap;

fn next() -> Vec<RoutingConvention> {
    vec![
        RoutingConvention::nextjs_app(),
        RoutingConvention::nextjs_pages(),
    ]
}

fn route(p: &str) -> Option<DerivedRoute> {
    derive_route(p, &next())
}

#[test]
fn app_router_static() {
    let r = route("app/users/route.ts").unwrap();
    assert_eq!(r.path, "/users");
    assert_eq!(r.method_source, MethodSource::ExportName);
    assert_eq!(r.convention, "nextjs-app");
}

#[test]
fn app_router_root() {
    assert_eq!(route("app/route.ts").unwrap().path, "/");
}

#[test]
fn app_router_dynamic() {
    assert_eq!(route("app/users/[id]/route.ts").unwrap().path, "/users/:id");
}

#[test]
fn app_router_nested_dynamic() {
    assert_eq!(
        route("app/teams/[teamId]/members/[userId]/route.ts")
            .unwrap()
            .path,
        "/teams/:teamId/members/:userId"
    );
}

#[test]
fn app_router_catch_all() {
    assert_eq!(
        route("app/files/[...slug]/route.ts").unwrap().path,
        "/files/**"
    );
}

#[test]
fn app_router_optional_catch_all() {
    assert_eq!(
        route("app/shop/[[...slug]]/route.ts").unwrap().path,
        "/shop/**"
    );
}

#[test]
fn app_router_strips_route_groups() {
    assert_eq!(
        route("app/(marketing)/about/route.ts").unwrap().path,
        "/about"
    );
}

#[test]
fn app_router_src_prefix() {
    assert_eq!(route("src/app/health/route.ts").unwrap().path, "/health");
}

#[test]
fn app_router_ignores_non_route_files() {
    assert!(route("app/users/page.tsx").is_none());
    assert!(route("app/users/layout.tsx").is_none());
    assert!(route("app/users/component.ts").is_none());
}

#[test]
fn pages_api_static() {
    let r = route("pages/api/users.ts").unwrap();
    assert_eq!(r.path, "/api/users");
    assert_eq!(r.method_source, MethodSource::DefaultExport);
    assert_eq!(r.convention, "nextjs-pages");
}

#[test]
fn pages_api_index_collapses() {
    assert_eq!(
        route("pages/api/users/index.ts").unwrap().path,
        "/api/users"
    );
    assert_eq!(route("pages/api/index.ts").unwrap().path, "/api");
}

#[test]
fn pages_api_dynamic_filename() {
    assert_eq!(
        route("pages/api/users/[id].ts").unwrap().path,
        "/api/users/:id"
    );
}

#[test]
fn pages_api_catch_all_filename() {
    assert_eq!(
        route("pages/api/proxy/[...path].ts").unwrap().path,
        "/api/proxy/**"
    );
}

#[test]
fn pages_api_src_prefix() {
    assert_eq!(route("src/pages/api/ping.ts").unwrap().path, "/api/ping");
}

#[test]
fn pages_api_skips_private_files() {
    assert!(route("pages/api/_middleware.ts").is_none());
}

fn astro_route(p: &str) -> Option<DerivedRoute> {
    derive_route(p, &vec![RoutingConvention::astro()])
}

#[test]
fn astro_static_endpoint() {
    let r = astro_route("src/pages/api/users.ts").unwrap();
    assert_eq!(r.path, "/api/users");
    assert_eq!(r.method_source, MethodSource::ExportName);
    assert_eq!(r.convention, "astro");
}

#[test]
fn astro_top_level_endpoint() {
    assert_eq!(astro_route("src/pages/health.ts").unwrap().path, "/health");
}

#[test]
fn astro_index_collapses() {
    assert_eq!(astro_route("src/pages/index.ts").unwrap().path, "/");
    assert_eq!(astro_route("src/pages/api/index.ts").unwrap().path, "/api");
}

#[test]
fn astro_dynamic_filename() {
    assert_eq!(
        astro_route("src/pages/posts/[id].ts").unwrap().path,
        "/posts/:id"
    );
}

#[test]
fn astro_rest_param() {
    assert_eq!(
        astro_route("src/pages/files/[...path].ts").unwrap().path,
        "/files/**"
    );
}

#[test]
fn astro_javascript_endpoint() {
    assert_eq!(astro_route("src/pages/ping.js").unwrap().path, "/ping");
}

#[test]
fn astro_ignores_page_components_and_private_files() {
    assert!(astro_route("src/pages/about.astro").is_none());
    assert!(astro_route("src/pages/_helpers.ts").is_none());
    assert!(astro_route("src/lib/db.ts").is_none());
}

#[test]
fn astro_gated_on_framework_detection() {
    assert!(builtin_conventions(&vec!["express".to_string()], &vec![]).is_empty());
    let astro = builtin_conventions(&vec!["Astro".to_string()], &vec![]);
    assert_eq!(astro.len(), 1);
    assert_eq!(astro[0].name, "astro");
}

fn flat_route(p: &str) -> Option<DerivedRoute> {
    derive_route(p, &vec![RoutingConvention::flat_routes()])
}

#[test]
fn flat_routes_filename_dots_become_segments() {
    let r = flat_route("app/routes/api.v1.widgets.ts").unwrap();
    assert_eq!(r.path, "/api/v1/widgets");
    assert_eq!(r.method_source, MethodSource::ExportName);
    assert_eq!(r.convention, "remix-flat");
}

#[test]
fn flat_routes_dollar_params_become_colon_params() {
    assert_eq!(
        flat_route("app/routes/api.v1.widgets.$widgetId.activate.ts")
            .unwrap()
            .path,
        "/api/v1/widgets/:widgetId/activate"
    );
    assert_eq!(
        flat_route("app/routes/api.v1.projects.$projectRef.$env.ts")
            .unwrap()
            .path,
        "/api/v1/projects/:projectRef/:env"
    );
}

#[test]
fn flat_routes_bare_dollar_is_a_splat() {
    assert_eq!(
        flat_route("app/routes/api.v1.widgets.$.ts").unwrap().path,
        "/api/v1/widgets/**"
    );
}

#[test]
fn flat_routes_pathless_layout_segments_contribute_no_path() {
    assert_eq!(
        flat_route("app/routes/widgets._layout.$widgetId.ts")
            .unwrap()
            .path,
        "/widgets/:widgetId"
    );
}

#[test]
fn flat_routes_trailing_index_collapses() {
    assert_eq!(
        flat_route("app/routes/api.v1.widgets.index.ts")
            .unwrap()
            .path,
        "/api/v1/widgets"
    );
}

#[test]
fn flat_routes_src_prefixed_root() {
    assert_eq!(
        flat_route("src/app/routes/api.health.ts").unwrap().path,
        "/api/health"
    );
}

#[test]
fn flat_routes_exclude_the_ui_page_plane() {
    assert!(flat_route("app/routes/api.v1.widgets.$widgetId.tsx").is_none());
    assert!(flat_route("app/routes/widgets.$widgetId.jsx").is_none());
}

#[test]
fn flat_routes_ignore_non_route_files_and_private_files() {
    assert!(flat_route("app/services/widgets.server.ts").is_none());
    assert!(flat_route("app/lib/api.v1.widgets.ts").is_none());
    assert!(flat_route("app/routes/_app.widgets.ts").is_none());
}

#[test]
fn flat_routes_gated_on_framework_detection() {
    assert!(builtin_conventions(&vec!["express".to_string()], &vec![]).is_empty());
    let flat = builtin_conventions(&vec!["Remix".to_string()], &vec![]);
    assert_eq!(flat.len(), 1);
    assert_eq!(flat[0].name, "remix-flat");
}

fn deps(names: &[&str]) -> Vec<String> {
    names.iter().map(|n| n.to_string()).collect()
}

fn names(conventions: &[RoutingConvention]) -> Vec<String> {
    conventions.iter().map(|c| c.name.clone()).collect()
}

#[test]
fn declared_dependencies_activate_conventions_without_the_framework_label() {
    let express = vec!["express".to_string()];
    assert_eq!(
        names(&builtin_conventions(&express, &deps(&["@remix-run/node"]))),
        vec!["remix-flat"]
    );
    assert_eq!(
        names(&builtin_conventions(&express, &deps(&["next"]))),
        vec!["nextjs-app", "nextjs-pages"]
    );
    assert_eq!(
        names(&builtin_conventions(&express, &deps(&["astro"]))),
        vec!["astro"]
    );
}

#[test]
fn every_listed_dependency_activates_its_convention() {
    for dep in [
        "remix",
        "@remix-run/dev",
        "@remix-run/serve",
        "@remix-run/node",
        "@remix-run/express",
        "@remix-run/cloudflare",
        "@remix-run/deno",
        "@remix-run/server-runtime",
        "@remix-run/react",
    ] {
        assert_eq!(
            names(&builtin_conventions(&vec![], &deps(&[dep]))),
            vec!["remix-flat"],
            "{dep} should activate the flat-route convention"
        );
    }
}

#[test]
fn dependency_matching_is_exact_not_substring() {
    for dep in [
        "nextera-utils",
        "next-auth",
        "astrolabe",
        "remixer",
        "eslint-plugin-next",
    ] {
        assert!(
            builtin_conventions(&vec![], &deps(&[dep])).is_empty(),
            "{dep} must not activate a convention"
        );
    }
}

#[test]
fn remix_scope_alone_does_not_activate_flat_routes() {
    assert!(builtin_conventions(&vec![], &deps(&["@remix-run/router"])).is_empty());
}

#[test]
fn dependency_matching_is_case_insensitive() {
    assert_eq!(
        names(&builtin_conventions(&vec![], &deps(&["@Remix-Run/Node"]))),
        vec!["remix-flat"]
    );
}

#[test]
fn a_service_declaring_nothing_relevant_gets_no_conventions() {
    assert!(builtin_conventions(&vec![], &deps(&["express", "zod", "pino"])).is_empty());
}

fn methods(r: &DerivedRoute, export: &str) -> Vec<String> {
    r.http_methods_for_export(export, &vec![])
}

fn guards(list: &[&str]) -> Vec<String> {
    list.iter().map(|s| s.to_string()).collect()
}

#[test]
fn flat_routes_map_role_exports_to_methods() {
    let r = flat_route("app/routes/api.v1.widgets.ts").unwrap();
    assert_eq!(methods(&r, "loader"), vec!["GET"]);
    assert_eq!(methods(&r, "action"), vec!["POST"]);
    assert!(methods(&r, "config").is_empty());
    assert!(methods(&r, "default").is_empty());
    assert_eq!(methods(&r, "GET"), vec!["GET"]);
}

#[test]
fn method_named_exports_need_no_alias_map() {
    let r = route("app/users/route.ts").unwrap();
    assert!(r.method_exports.is_empty());
    assert_eq!(methods(&r, "POST"), vec!["POST"]);
    assert!(methods(&r, "loader").is_empty());
    assert!(methods(&r, "runtime").is_empty());
}

#[test]
fn a_method_guard_replaces_the_convention_default_verb() {
    let r = flat_route("app/routes/api.v1.widgets.ts").unwrap();
    assert_eq!(
        r.http_methods_for_export("action", &guards(&["PUT"])),
        vec!["PUT"]
    );
    assert_eq!(
        r.http_methods_for_export("loader", &guards(&["DELETE"])),
        vec!["DELETE"]
    );
}

#[test]
fn a_preflight_branch_leaves_the_convention_default_standing() {
    let r = flat_route("app/routes/api.v1.widgets.ts").unwrap();
    assert_eq!(
        r.http_methods_for_export("loader", &guards(&["OPTIONS"])),
        vec!["GET"]
    );
    assert_eq!(
        r.http_methods_for_export("action", &guards(&["HEAD"])),
        vec!["POST"]
    );
    assert_eq!(
        r.http_methods_for_export("loader", &guards(&["OPTIONS", "HEAD"])),
        vec!["GET"]
    );
}

#[test]
fn a_preflight_branch_does_not_disturb_a_real_narrowing() {
    let r = flat_route("app/routes/api.v1.widgets.ts").unwrap();
    assert_eq!(
        r.http_methods_for_export("action", &guards(&["OPTIONS", "PUT"])),
        vec!["PUT"]
    );
}

#[test]
fn a_method_named_options_export_is_still_its_own_method() {
    let r = route("app/users/route.ts").unwrap();
    assert_eq!(r.http_methods_for_export("OPTIONS", &vec![]), vec!["OPTIONS"]);
    assert_eq!(r.http_methods_for_export("HEAD", &vec![]), vec!["HEAD"]);
}

#[test]
fn no_guard_leaves_the_convention_default_standing() {
    let r = flat_route("app/routes/api.v1.widgets.ts").unwrap();
    assert_eq!(r.http_methods_for_export("action", &vec![]), vec!["POST"]);
}

#[test]
fn a_guard_on_several_methods_yields_one_row_each() {
    let r = flat_route("app/routes/api.v1.widgets.ts").unwrap();
    assert_eq!(
        r.http_methods_for_export("action", &guards(&["PUT", "DELETE"])),
        vec!["PUT", "DELETE"]
    );
}

#[test]
fn guard_methods_are_normalized_and_deduplicated() {
    let r = flat_route("app/routes/api.v1.widgets.ts").unwrap();
    assert_eq!(
        r.http_methods_for_export("action", &guards(&["put", "PUT", " Put "])),
        vec!["PUT"]
    );
}

#[test]
fn a_non_method_guard_literal_is_ignored() {
    let r = flat_route("app/routes/api.v1.widgets.ts").unwrap();
    assert_eq!(
        r.http_methods_for_export("action", &guards(&["QUERY", ""])),
        vec!["POST"]
    );
}

#[test]
fn a_guard_cannot_contradict_a_method_named_export() {
    let r = route("app/users/route.ts").unwrap();
    assert_eq!(
        r.http_methods_for_export("GET", &guards(&["POST"])),
        vec!["GET"]
    );
}

#[test]
fn a_guard_does_not_promote_a_non_handler_export() {
    let r = flat_route("app/routes/api.v1.widgets.ts").unwrap();
    assert!(
        r.http_methods_for_export("config", &guards(&["PUT"]))
            .is_empty()
    );
}

#[test]
fn non_route_paths_return_none() {
    assert!(route("lib/db.ts").is_none());
    assert!(route("components/Button.tsx").is_none());
    assert!(route("application/route.ts").is_none());
    assert!(route("pages/about.tsx").is_none());
}

#[test]
fn longest_root_wins() {
    assert_eq!(route("src/pages/api/x.ts").unwrap().path, "/api/x");
}

#[test]
fn builtin_conventions_gated_on_framework() {
    assert!(builtin_conventions(&vec!["express".to_string()], &vec![]).is_empty());
    let next = builtin_conventions(&vec!["Next.js".to_string()], &vec![]);
    assert_eq!(next.len(), 2);
}

#[test]
fn a_shorter_root_does_not_win_over_a_longer_one() {
    let mut convention = RoutingConvention::nextjs_app();
    convention.root_globs = vec!["app".to_string(), "app/v1".to_string()];
    assert_eq!(convention.strip_root("app/v1/users/route.ts"), Some("users/route.ts".to_string()));
    convention.root_globs = vec!["app/v1".to_string(), "app".to_string()];
    assert_eq!(convention.strip_root("app/v1/users/route.ts"), Some("users/route.ts".to_string()));
    assert_eq!(convention.strip_root("lib/users/route.ts"), None);
}

#[test]
fn a_default_export_serves_no_method_under_a_role_name() {
    let mut method_exports: TextMap<String> = TextMap::new();
    method_exports.insert("loader".to_string(), "GET".to_string());
    let mut r = DerivedRoute {
        path: "/users".to_string(),
        method_source: MethodSource::DefaultExport,
        convention: "own".to_string(),
        method_exports,
    };
    assert!(methods(&r, "loader").is_empty());
    r.method_source = MethodSource::ExportName;
    assert_eq!(methods(&r, "loader"), vec!["GET"]);
}
