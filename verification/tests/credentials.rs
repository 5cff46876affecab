use carrick::credentials::{
    consented_scope, relogin_hint, scan_id, set_scan_id, CloudAuth, Credential, EnvToken, FileContent, ScanSlot, API_BASE,
    CLI_SCOPE, DEFAULT_SCOPE,
};
use serde_json::Value;

fn text(value: &Value, name: &str) -> Option<String> {
    value.get(name).and_then(|v| v.as_str()).map(|v| v.to_string())
}

fn parsed(source: &str) -> Credential {
    let value: Value = serde_json::from_str(source).expect("the credential parses");
    Credential {
        api_base: text(&value, "api_base").unwrap(),
        token: text(&value, "token").unwrap(),
        workspace_slug: text(&value, "workspace_slug"),
        obtained_at: text(&value, "obtained_at").unwrap(),
        scope: text(&value, "scope"),
    }
}

fn with_token(token: &str) -> Credential {
    Credential {
        api_base: API_BASE.to_string(),
        token: token.to_string(),
        workspace_slug: None,
        obtained_at: String::new(),
        scope: None,
    }
}

#[test]
fn a_credential_without_a_scope_reads_as_mcp() {
    let credential = parsed(
        r#"{"api_base":"https://api.carrick.tools","token":"t","workspace_slug":"w",
            "obtained_at":"2026-09-11T00:00:00.000Z"}"#,
    );
    credential.validate().expect("and is valid");
    assert_eq!(credential.scope(), DEFAULT_SCOPE);
    assert_eq!(credential.scope(), "mcp");
}

#[test]
fn a_cli_credential_reads_its_scope() {
    let credential = parsed(
        r#"{"api_base":"https://api.carrick.tools","token":"t","workspace_slug":"w",
            "obtained_at":"2026-09-11T00:00:00.000Z","scope":"cli"}"#,
    );
    assert_eq!(credential.scope(), CLI_SCOPE);
}

#[test]
fn an_unknown_scope_is_carried_rather_than_refused() {
    let credential = parsed(
        r#"{"api_base":"https://api.carrick.tools","token":"t","workspace_slug":null,
            "obtained_at":"","scope":"something-later"}"#,
    );
    credential.validate().unwrap();
    assert_eq!(credential.scope(), "something-later");
}

#[test]
fn a_credential_for_another_api_base_is_refused() {
    let credential = parsed(
        r#"{"api_base":"https://evil.invalid","token":"t","workspace_slug":null,
            "obtained_at":"","scope":"cli"}"#,
    );
    assert!(credential.validate().is_err());
}

#[test]
fn the_identity_is_a_digest_not_the_token() {
    let of = |token: &str| with_token(token).identity();
    assert_eq!(of("a").len(), 64);
    assert_ne!(of("a"), of("b"));
    assert!(!of("secret-token").contains("secret-token"));
}

#[test]
fn the_identity_is_the_digest_of_base_and_token() {
    let credential = Credential {
        api_base: "ab".to_string(),
        token: "c".to_string(),
        workspace_slug: None,
        obtained_at: String::new(),
        scope: None,
    };
    let other = Credential {
        api_base: "ab".to_string(),
        token: "c".to_string(),
        workspace_slug: Some("w".to_string()),
        obtained_at: "later".to_string(),
        scope: Some("cli".to_string()),
    };
    assert_eq!(credential.identity(), "6c032e631d39a14d85aff7e319546af701e26c97b57ca95fbfe9c6ba855f67bf");
    assert_eq!(credential.identity(), other.identity());
}

#[test]
fn a_file_that_others_can_read_is_refused() {
    assert_eq!(Credential::check_file(true, Some(0o100600)), Ok(()));
    assert_eq!(Credential::check_file(true, None), Ok(()));
    assert_eq!(
        Credential::check_file(true, Some(0o100644)),
        Err("Carrick credentials are not private. Run carrick login.".to_string())
    );
    assert_eq!(
        Credential::check_file(false, Some(0o100600)),
        Err("Carrick credentials must be a private regular file.".to_string())
    );
}

#[test]
fn a_missing_file_is_no_credential() {
    assert!(matches!(Credential::unopened(true), Ok(None)));
    assert!(Credential::unopened(false).is_err());
    assert!(Credential::accept(FileContent::Unread).is_err());
    assert!(Credential::accept(FileContent::Unparsed).is_err());
    assert!(matches!(Credential::accept(FileContent::Parsed(with_token("t"))), Ok(Some(_))));
    assert!(Credential::accept(FileContent::Parsed(with_token("two words"))).is_err());
}

#[test]
fn a_token_of_the_environment_wins_over_the_file() {
    let from_env = Credential::load(EnvToken::Given("t".to_string()), Ok(Some(with_token("f"))));
    assert!(matches!(from_env, Ok(Some(c)) if c.token == "t"));
    let from_file = Credential::load(EnvToken::Absent, Ok(Some(with_token("f"))));
    assert!(matches!(from_file, Ok(Some(c)) if c.token == "f"));
    assert!(matches!(
        Credential::load(EnvToken::Malformed, Ok(None)),
        Err(m) if m == "CARRICK_TOKEN is malformed"
    ));
    assert!(Credential::load(EnvToken::Given("a b".to_string()), Ok(None)).is_err());
}

#[test]
fn the_file_lies_in_the_configuration_directory() {
    assert_eq!(
        Credential::path(Some("/home/u/.config"), None, Some("/home/u")),
        Ok("/home/u/.config/carrick/credentials.json".to_string())
    );
    assert!(Credential::path(Some("relative"), None, None).is_err());
    assert!(Credential::path(None, None, None).is_err());
}

#[test]
fn a_runner_authenticates_by_its_own_means() {
    assert!(matches!(CloudAuth::detect(Some(Ok(())), Ok(None)), Ok(CloudAuth::Oidc)));
    assert!(CloudAuth::detect(Some(Err("no permission".to_string())), Ok(None)).is_err());
    let bearer = CloudAuth::detect(None, Ok(Some(with_token("t")))).ok().unwrap();
    assert!(bearer.is_bearer());
    assert!(CloudAuth::detect(None, Ok(None)).is_err());
}

#[test]
fn a_login_of_another_scope_is_asked_for_again() {
    let loaded: Result<Option<Credential>, String> = Ok(Some(with_token("t")));
    assert_eq!(consented_scope(&loaded), Some("mcp".to_string()));
    assert!(relogin_hint(false, &loaded).is_some());
    assert_eq!(relogin_hint(true, &loaded), None);
    assert_eq!(relogin_hint(false, &Ok(None)), None);
    let mut cli = with_token("t");
    cli.scope = Some("cli".to_string());
    assert_eq!(relogin_hint(false, &Ok(Some(cli))), None);
}

#[test]
fn the_first_scan_id_stays() {
    let mut slot = ScanSlot { id: None };
    assert_eq!(scan_id(&slot), None);
    set_scan_id(&mut slot, "first");
    set_scan_id(&mut slot, "second");
    assert_eq!(scan_id(&slot), Some("first"));
}
