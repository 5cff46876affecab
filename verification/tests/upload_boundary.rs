use carrick::engine::upload_boundary::UploadBoundary;
use carrick::json::Json;

fn boundary() -> UploadBoundary {
    UploadBoundary::new("/home/user/work/app", Some("/home/user"))
}

#[test]
fn replaces_the_checkout_before_the_home_it_sits_in() {
    let (text, hits) = boundary()
        .text("import(\"/home/user/work/app/node_modules/x/index\").T | /home/user/.cache/y");
    assert_eq!(
        text,
        "import(\"<checkout>/node_modules/x/index\").T | <home>/.cache/y"
    );
    assert_eq!(hits, 2);
}

#[test]
fn leaves_a_sibling_directory_that_only_shares_the_prefix() {
    let (text, hits) = boundary().text("/home/user/work/app2/src");
    assert_eq!(text, "<home>/work/app2/src");
    assert_eq!(hits, 1);
    let (text, hits) = boundary().text("/home/username/src");
    assert_eq!(text, "/home/username/src");
    assert_eq!(hits, 0);
}

#[test]
fn replaces_a_bare_root_and_a_backslash_spelling() {
    let windows = UploadBoundary::new("C:\\Users\\user\\app", Some("C:\\Users\\user"));
    let (text, hits) = windows.text("C:\\Users\\user\\app and C:/Users/user/app/x");
    assert_eq!(text, "<checkout> and <checkout>/x");
    assert_eq!(hits, 2);
}

#[test]
fn a_root_of_nothing_or_a_relative_root_names_no_machine() {
    assert!(UploadBoundary::new("", None).prefixes.is_empty());
    assert!(UploadBoundary::new(".", None).prefixes.is_empty());
    let relative = UploadBoundary::new("examples/app", None);
    let (text, hits) = relative.text("examples/app/src/a.ts");
    assert_eq!((text.as_str(), hits), ("examples/app/src/a.ts", 0));
    let (text, hits) = UploadBoundary::new("/", None).text("/usr/lib");
    assert_eq!((text.as_str(), hits), ("/usr/lib", 0));
}

#[test]
fn every_text_of_a_payload_is_rewritten_and_its_field_named() {
    let payload = Json::Object(vec![
        ("file".to_string(), Json::Text("/home/user/work/app/src/a.ts".to_string())),
        ("count".to_string(), Json::Number(2)),
    ]);
    let (clean, fields) = boundary().scrub(&payload).expect("the payload holds a path of this machine");
    assert_eq!(
        clean,
        Json::Object(vec![
            ("file".to_string(), Json::Text("<checkout>/src/a.ts".to_string())),
            ("count".to_string(), Json::Number(2)),
        ])
    );
    assert_eq!(fields.len(), 1);
    assert!(boundary().scrub(&clean).is_none());
}

#[test]
fn keys_and_nested_texts_are_rewritten_and_numbers_stay() {
    let text = |value: &str| Json::Text(value.to_string());
    let payload = Json::Object(vec![
        ("rate".to_string(), Json::Numeral("-0.5".to_string())),
        (
            "stub".to_string(),
            Json::Object(vec![("/home/user/work/app/a.d.ts".to_string(), Json::List(vec![text("ok"), text("/home/user/x")]))]),
        ),
    ]);
    let (clean, fields) = boundary().scrub(&payload).expect("the payload holds paths of this machine");
    assert_eq!(
        clean,
        Json::Object(vec![
            ("rate".to_string(), Json::Numeral("-0.5".to_string())),
            (
                "stub".to_string(),
                Json::Object(vec![("<checkout>/a.d.ts".to_string(), Json::List(vec![text("ok"), text("<home>/x")]))]),
            ),
        ])
    );
    assert_eq!(fields.len(), 2);
    let untouched = Json::Object(vec![("rate".to_string(), Json::Numeral("-0.5".to_string()))]);
    assert!(boundary().scrub(&untouched).is_none());
}

#[test]
fn a_place_right_behind_a_longer_spelling_of_itself_is_found() {
    let boundary = UploadBoundary::new("/app/a", None);
    assert_eq!(boundary.text("/app/app/a"), ("/app<checkout>".to_string(), 1));
    assert_eq!(boundary.text("/app/ab /app/a"), ("/app/ab <checkout>".to_string(), 1));
}

#[test]
fn a_rewritten_text_names_no_place_any_more() {
    let boundary = boundary();
    let (once, _) = boundary.text("/home/user/work/app/x:/home/user/y");
    assert_eq!(once, "<checkout>/x:<home>/y");
    assert_eq!(boundary.text(&once), (once.clone(), 0));
}
