use carrick::engine::served_paths::{declared_version, packages_in, rewrite_token, version_of_entry, PathScrub};
use carrick::json::Json;

const ROOT: &str = "/home/user/work/acme";
const HOME: &str = "/home/user";

fn scrub() -> PathScrub {
    PathScrub::new(ROOT, Some(HOME))
}

#[test]
fn runtime_npm_cache_paths_become_package_labels() {
    let text = "(c: import(\"/home/user/.cache/deno/npm/registry.npmjs.org/web-kit/4.12.12/dist/types/context\").Context<Env, \"/\", import(\"/home/user/.cache/deno/npm/registry.npmjs.org/web-kit/4.12.12/dist/types/types\").BlankInput>) => Promise<Response>";
    assert_eq!(
        scrub().text(text),
        "(c: import(\"web-kit@4.12.12\").Context<Env, \"/\", import(\"web-kit@4.12.12\").BlankInput>) => Promise<Response>"
    );
}

#[test]
fn scoped_packages_keep_their_scope() {
    assert_eq!(
        scrub().text("import(\"/var/cache/npm/registry.example.org/@acme/schema/9.6.0/build/protos\").Doc"),
        "import(\"@acme/schema@9.6.0\").Doc"
    );
}

#[test]
fn isolated_store_paths_read_name_and_version_from_the_entry() {
    let scrub = scrub();
    assert_eq!(
        scrub.text("import(\"/home/user/work/acme/node_modules/.pnpm/@acme+kit@2.0.1_react@18.2.0/node_modules/@acme/kit/dist/index\").Kit"),
        "import(\"@acme/kit@2.0.1\").Kit"
    );
    assert_eq!(
        scrub.text("import(\"/home/user/work/acme/node_modules/.deno/@types+react@19.2.14/node_modules/@types/react/index\").JSX.Element"),
        "import(\"@types/react@19.2.14\").JSX.Element"
    );
    assert_eq!(
        scrub.text("import(\"node_modules/.pnpm/left-pad@1.3.0(typescript@5.8.2)/node_modules/left-pad/index\").Pad"),
        "import(\"left-pad@1.3.0\").Pad"
    );
}

#[test]
fn flat_node_modules_read_the_installed_version() {
    let root = "/tmp/checkout".to_string();
    let mut scrub = PathScrub::new(&root, None);
    let text = format!("import(\"{root}/node_modules/@acme/flat/lib/types\").Flat");
    assert_eq!(packages_in(&text), vec![format!("{root}/node_modules/@acme/flat")]);
    scrub.record_version(format!("{root}/node_modules/@acme/flat"), "3.1.4".to_string());
    assert_eq!(scrub.text(&text), "import(\"@acme/flat@3.1.4\").Flat");
    assert_eq!(
        scrub.text(&format!("import(\"{root}/node_modules/missing/index\").M")),
        "import(\"missing\").M"
    );
}

#[test]
fn checkout_root_is_stripped_anywhere_in_a_token() {
    let scrub = scrub();
    assert_eq!(
        scrub.text("import(\"/home/user/work/acme/src/types\").Req"),
        "import(\"src/types\").Req"
    );
    assert_eq!(
        scrub.text("source file not in program: /home/user/work/acme/packages/utils/id.ts"),
        "source file not in program: packages/utils/id.ts"
    );
}

#[test]
fn prose_paths_are_rewritten_inside_quotes_including_relative_escapes() {
    let scrub = scrub();
    assert_eq!(
        scrub.text("declaration emit was skipped for module '/home/user/.cache/deno/npm/registry.npmjs.org/web-kit/4.12.12/dist/types/base'; alias demoted"),
        "declaration emit was skipped for module 'web-kit@4.12.12'; alias demoted"
    );
    assert_eq!(
        scrub.text("module '../../../../../home/user/Library/Caches/deno/npm/registry.npmjs.org/result-kit/8.2.0/dist'"),
        "module 'result-kit@8.2.0'"
    );
}

#[test]
fn other_paths_under_home_are_reported_from_tilde() {
    assert_eq!(
        scrub().text("import(\"/home/user/elsewhere/shared/types\").Shared"),
        "import(\"~/elsewhere/shared/types\").Shared"
    );
}

#[test]
fn type_text_without_machine_paths_is_untouched_and_the_scrub_is_idempotent() {
    let scrub = scrub();
    for text in [
        "{ contentType: \"text/html\"; url: `/api/${string}`; }",
        "import(\"src/types\").Req",
        "import(\"web-kit@4.12.12\").Context",
        "Array<string> | null",
    ] {
        assert_eq!(scrub.text(text), text);
        assert_eq!(scrub.text(&scrub.text(text)), text);
    }
}

#[test]
fn no_home_means_no_tilde_rewrite() {
    let scrub = PathScrub::new(ROOT, None);
    assert_eq!(
        scrub.text("import(\"/opt/shared/types\").Shared"),
        "import(\"/opt/shared/types\").Shared"
    );
}

#[test]
fn a_text_is_rewritten_in_its_place() {
    let mut text = "import(\"/home/user/work/acme/src/types\").Req".to_string();
    scrub().in_place(&mut text);
    assert_eq!(text, "import(\"src/types\").Req");
}

#[test]
fn a_label_wins_over_the_root_and_the_root_over_home() {
    let home = Some("/home/user/".to_string());
    let root = "/home/user/work/acme/";
    let token = "/home/user/work/acme/src/a";
    assert_eq!(rewrite_token(token, Some("kit@1".to_string()), root, &home), "kit@1");
    assert_eq!(rewrite_token(token, None, root, &home), "src/a");
    assert_eq!(rewrite_token(token, None, "", &home), "~/work/acme/src/a");
    assert_eq!(rewrite_token("C:\\x\\y", None, root, &home), "C:\\x\\y");
}

#[test]
fn an_entry_names_its_version_behind_the_package() {
    assert_eq!(version_of_entry("@acme+kit@2.0.1_react@18.2.0", "@acme/kit"), Some("2.0.1".to_string()));
    assert_eq!(version_of_entry("left-pad@1.3.0(typescript@5.8.2)", "left-pad"), Some("1.3.0".to_string()));
    assert_eq!(version_of_entry("other@1.0.0", "left-pad"), None);
}

#[test]
fn a_scrubbed_text_reads_the_same_when_it_is_scrubbed_again() {
    let scrub = PathScrub::new("/w/acme", None);
    let once = scrub.text("/w/acme/a:/w/acme/b");
    assert_eq!(once, "b");
    assert_eq!(scrub.text(&once), once);
}

#[test]
fn a_manifest_declares_its_version_as_a_text() {
    let manifest = |version: Json| {
        Json::Object(vec![("name".to_string(), Json::Text("flat".to_string())), ("version".to_string(), version)])
    };
    assert_eq!(declared_version(&manifest(Json::Text("3.1.4".to_string()))).as_deref(), Some("3.1.4"));
    assert_eq!(declared_version(&manifest(Json::Number(3))), None);
    assert_eq!(declared_version(&Json::Object(Vec::new())), None);
    assert_eq!(declared_version(&Json::Null), None);
}

#[test]
fn a_declared_version_is_kept_as_it_is_declared() {
    let labelled = |version: &str, text: &str| {
        let mut scrub = PathScrub::new("/w/acme", Some("/home/user"));
        scrub.record_version("/node_modules/p".to_string(), version.to_string());
        let once = scrub.text(text);
        assert_eq!(scrub.text(&once), once);
        once
    };
    assert_eq!(labelled("1/2", "import(\"/node_modules/p/index\").P"), "import(\"p@1/2\").P");
    assert_eq!(labelled("1/2/3/4/5", "import(\"/node_modules/p\").P"), "import(\"p@1/2/3/4/5\").P");
    assert_eq!(labelled("1\\2", "import(\"/node_modules/p\").P"), "import(\"p@1\\2\").P");
    assert_eq!(labelled("a longer version than the path was", "/node_modules/p"), "p@a longer version than the path was");
}

#[test]
fn a_version_that_would_itself_be_rewritten_is_left_out() {
    let mut scrub = PathScrub::new("/w/acme", Some("/home/user"));
    scrub.record_version("/node_modules/p".to_string(), "1/w/acme/x".to_string());
    scrub.record_version("/node_modules/q".to_string(), "npm/host.test/r/1".to_string());
    scrub.record_version("/node_modules/r".to_string(), "1 npm/host.test/r/1".to_string());
    assert_eq!(scrub.text("/node_modules/p/index"), "p");
    assert_eq!(scrub.text("/node_modules/q/index"), "q@npm/host.test/r/1");
    assert_eq!(scrub.text("/node_modules/r/index"), "r");
}
