//! The credential that a login wrote, and how a run authenticates with it.
//!
//! There is one reader of the credential file, so that every client agrees on
//! where it is, what shape it has and when it is refused. The types here have
//! no `Debug`: the token must not reach a log or an error.

use crate::paths::{resolve, resolved};
use crate::text::{concat3, has_prefix, is_whitespace, chars_of, same, starts_with, unicode_whitespace};
use vstd::prelude::*;
use sha2::Digest;
use vstd::utf8::encode_utf8;

verus! {

pub const API_BASE: &'static str = "https://api.carrick.tools";

/// The scope of a credential that names none.
pub const DEFAULT_SCOPE: &'static str = "mcp";

/// The scope that admits a credential to uploads and paid analysis.
pub const CLI_SCOPE: &'static str = "cli";

pub struct Credential {
    pub api_base: String,
    pub token: String,
    pub workspace_slug: Option<String>,
    pub obtained_at: String,
    /// The scope that the credential was consented under. A credential from
    /// before the scope was written, and a token of the environment, have none.
    pub scope: Option<String>,
}

/// What a [`Credential`] holds.
pub struct CredentialModel {
    pub api_base: Seq<char>,
    pub token: Seq<char>,
    pub workspace_slug: Option<Seq<char>>,
    pub obtained_at: Seq<char>,
    pub scope: Option<Seq<char>>,
}

impl DeepView for Credential {
    type V = CredentialModel;

    open spec fn deep_view(&self) -> CredentialModel {
        CredentialModel {
            api_base: self.api_base@,
            token: self.token@,
            workspace_slug: self.workspace_slug.deep_view(),
            obtained_at: self.obtained_at@,
            scope: self.scope.deep_view(),
        }
    }
}

// ---------------------------------------------------------------------------
// Where it comes from
// ---------------------------------------------------------------------------

/// What the environment says of a token.
pub enum EnvToken {
    Absent,
    /// There is a token, and it is no text.
    Malformed,
    Given(String),
}

/// A credential is for this service and its token is one word.
pub open spec fn is_valid(credential: CredentialModel) -> bool {
    &&& credential.api_base == API_BASE@
    &&& credential.token.len() > 0
    &&& forall|i: int| 0 <= i < credential.token.len() ==> !unicode_whitespace(#[trigger] credential.token[i])
}

/// The credential that a token of the environment makes.
pub open spec fn env_credential(token: Seq<char>) -> CredentialModel {
    CredentialModel {
        api_base: API_BASE@,
        token,
        workspace_slug: None,
        obtained_at: Seq::empty(),
        scope: None,
    }
}

pub open spec fn invalid_message() -> Seq<char> {
    "Carrick credentials are invalid. Run carrick login."@
}

/// What the content of the credential file gave.
pub enum FileContent {
    /// It could not be read to its end.
    Unread,
    /// It is not the JSON of a credential.
    Unparsed,
    Parsed(Credential),
}

impl Credential {
    /// The credential of this run, from the environment's token or else from
    /// what the credential file gave.
    pub fn load(token: EnvToken, file: Result<Option<Credential>, String>) -> (r: Result<Option<Credential>, String>)
        ensures
            match token {
                EnvToken::Absent => r == file,
                EnvToken::Malformed => r matches Err(m) && m@ == "CARRICK_TOKEN is malformed"@,
                EnvToken::Given(token) => if is_valid(env_credential(token@)) {
                    r matches Ok(Some(c)) && c.deep_view() == env_credential(token@)
                } else {
                    r matches Err(m) && m@ == invalid_message()
                },
            },
    {
        match token {
            EnvToken::Absent => file,
            EnvToken::Malformed => Err("CARRICK_TOKEN is malformed".to_owned()),
            EnvToken::Given(token) => {
                proof {
                    reveal_strlit("");
                }
                let credential = Credential {
                    api_base: API_BASE.to_owned(),
                    token,
                    workspace_slug: None,
                    obtained_at: "".to_owned(),
                    scope: None,
                };
                assert(credential.obtained_at@ =~= Seq::<char>::empty());
                match credential.validate() {
                    Ok(_) => Ok(Some(credential)),
                    Err(message) => Err(message),
                }
            },
        }
    }

    /// Where the credential file lies: under the configuration directory that is
    /// set, else under the one of the system, else under the home directory.
    pub fn path(config_home: Option<&str>, app_data: Option<&str>, home: Option<&str>) -> (r: Result<String, String>)
        ensures
            match config_base(config_home.deep_view(), app_data.deep_view(), home.deep_view()) {
                None => r matches Err(m) && m@ == "Could not locate Carrick credentials. Run carrick login."@,
                Some(base) => if has_prefix(base, "/"@) {
                    r matches Ok(path) && path@ == resolved(base, "carrick/credentials.json"@)
                } else {
                    r matches Err(m) && m@ == "Carrick's configuration directory must be absolute."@
                },
            },
    {
        let set = match config_home {
            Some(directory) => if directory.is_empty() {
                None
            } else {
                Some(directory.to_owned())
            },
            None => None,
        };
        let base = match set {
            Some(directory) => directory,
            None => match app_data {
                Some(directory) => directory.to_owned(),
                None => match home {
                    Some(home) => resolve(home, ".config"),
                    None => {
                        return Err("Could not locate Carrick credentials. Run carrick login.".to_owned());
                    },
                },
            },
        };
        if !starts_with(base.as_str(), "/") {
            return Err("Carrick's configuration directory must be absolute.".to_owned());
        }
        Ok(resolve(base.as_str(), "carrick/credentials.json"))
    }

    /// What a credential file that did not open gives: nothing where there is
    /// none.
    pub fn unopened(not_found: bool) -> (r: Result<Option<Credential>, String>)
        ensures
            not_found ==> r matches Ok(None),
            !not_found ==> (r matches Err(m) && m@ == "Could not read Carrick credentials. Run carrick login."@),
    {
        if not_found {
            Ok(None)
        } else {
            Err("Could not read Carrick credentials. Run carrick login.".to_owned())
        }
    }

    /// Whether the open file may be read: it is a regular file, and where the
    /// system tells permissions nobody but the owner has any.
    pub fn check_file(regular: bool, mode: Option<u32>) -> (r: Result<(), String>)
        ensures
            if !regular {
                r matches Err(m) && m@ == "Carrick credentials must be a private regular file."@
            } else if mode matches Some(mode) && mode & 0o077 != 0 {
                r matches Err(m) && m@ == "Carrick credentials are not private. Run carrick login."@
            } else {
                r is Ok
            },
    {
        if !regular {
            return Err("Carrick credentials must be a private regular file.".to_owned());
        }
        match mode {
            Some(mode) => {
                if mode & 0o077 != 0 {
                    return Err("Carrick credentials are not private. Run carrick login.".to_owned());
                }
            },
            None => {},
        }
        Ok(())
    }

    /// The credential that the file's content gives.
    pub fn accept(content: FileContent) -> (r: Result<Option<Credential>, String>)
        ensures
            match content {
                FileContent::Unread => r matches Err(m) && m@ == "Could not read Carrick credentials"@,
                FileContent::Unparsed => r matches Err(m) && m@ == invalid_message(),
                FileContent::Parsed(credential) => if is_valid(credential.deep_view()) {
                    r == Ok::<Option<Credential>, String>(Some(credential))
                } else {
                    r matches Err(m) && m@ == invalid_message()
                },
            },
    {
        match content {
            FileContent::Unread => Err("Could not read Carrick credentials".to_owned()),
            FileContent::Unparsed => Err("Carrick credentials are invalid. Run carrick login.".to_owned()),
            FileContent::Parsed(credential) => match credential.validate() {
                Ok(_) => Ok(Some(credential)),
                Err(message) => Err(message),
            },
        }
    }

    /// Refuses a credential for another service, and a token that is empty or
    /// holds white space.
    pub fn validate(&self) -> (r: Result<(), String>)
        ensures
            is_valid(self.deep_view()) ==> r is Ok,
            !is_valid(self.deep_view()) ==> (r matches Err(m) && m@ == invalid_message()),
    {
        if !same(self.api_base.as_str(), API_BASE) || !one_word(self.token.as_str()) {
            return Err("Carrick credentials are invalid. Run carrick login.".to_owned());
        }
        Ok(())
    }

    /// The scope of the credential.
    pub fn scope(&self) -> (r: &str)
        ensures
            r@ == scope_of(self.deep_view()),
    {
        match &self.scope {
            Some(scope) => scope.as_str(),
            None => DEFAULT_SCOPE,
        }
    }

    /// A stable identity of the credential that does not give the token away: a
    /// digest of the service and the token.
    pub fn identity(&self) -> (r: String)
        ensures
            r@ == identity_of(self.deep_view()),
            r@.len() == 64,
    {
        let mut bytes: Vec<u8> = vstd::slice::slice_to_vec(self.api_base.as_str().as_bytes());
        bytes.push(0);
        let token: Vec<u8> = vstd::slice::slice_to_vec(self.token.as_str().as_bytes());
        let mut i: usize = 0;
        let ghost head = bytes@;
        assert(bytes@ =~= head + token@.take(0));
        while i < token.len()
            invariant
                i <= token.len(),
                bytes@ == head + token@.take(i as int),
            decreases token.len() - i,
        {
            bytes.push(token[i]);
            assert(token@.take(i + 1) =~= token@.take(i as int).push(token@[i as int]));
            assert(head + token@.take(i as int).push(token@[i as int]) =~= (head + token@.take(i as int)).push(
                token@[i as int],
            ));
            i += 1;
        }
        assert(token@.take(token@.len() as int) =~= token@);
        assert(bytes@ =~= identity_bytes(self.deep_view()));
        let digest = sha256(&bytes);
        proof {
            hex_length(digest@);
        }
        hex_of(&digest)
    }
}

/// The directory that holds the program's configuration directory. An empty
/// setting counts as none.
pub open spec fn config_base(
    config_home: Option<Seq<char>>,
    app_data: Option<Seq<char>>,
    home: Option<Seq<char>>,
) -> Option<Seq<char>> {
    if config_home matches Some(directory) && directory.len() > 0 {
        config_home
    } else if app_data is Some {
        app_data
    } else {
        match home {
            Some(home) => Some(resolved(home, ".config"@)),
            None => None,
        }
    }
}

fn one_word(token: &str) -> (r: bool)
    ensures
        r == (token@.len() > 0 && forall|i: int| 0 <= i < token@.len() ==> !unicode_whitespace(#[trigger] token@[i])),
{
    let v = chars_of(token);
    if v.len() == 0 {
        return false;
    }
    let mut i: usize = 0;
    while i < v.len()
        invariant
            i <= v.len(),
            v@ == token@,
            forall|j: int| 0 <= j < i ==> !unicode_whitespace(#[trigger] token@[j]),
        decreases v.len() - i,
    {
        if is_whitespace(v[i]) {
            assert(unicode_whitespace(token@[i as int]));
            return false;
        }
        i += 1;
    }
    true
}

pub open spec fn scope_of(credential: CredentialModel) -> Seq<char> {
    match credential.scope {
        Some(scope) => scope,
        None => DEFAULT_SCOPE@,
    }
}

// ---------------------------------------------------------------------------
// Identity
// ---------------------------------------------------------------------------

/// The SHA-256 digest of a sequence of bytes.
pub uninterp spec fn sha256_of(bytes: Seq<u8>) -> Seq<u8>;

/// `sha2::Sha256`, fed with the bytes and finished: the digest depends on the
/// bytes alone and has 32 bytes.
#[verifier::external_body]
fn sha256(bytes: &Vec<u8>) -> (r: Vec<u8>)
    ensures
        r@ == sha256_of(bytes@),
        r@.len() == 32,
{
    let mut hash = sha2::Sha256::new();
    hash.update(bytes);
    hash.finalize().to_vec()
}

/// What the identity is a digest of: the service, a zero byte and the token.
pub open spec fn identity_bytes(credential: CredentialModel) -> Seq<u8> {
    encode_utf8(credential.api_base).push(0u8) + encode_utf8(credential.token)
}

pub open spec fn hex_digit(n: int) -> char {
    if n < 10 {
        (48 + n) as char
    } else {
        (87 + n) as char
    }
}

/// Bytes as hexadecimal digits in lower case, two for each.
pub open spec fn hexadecimal(bytes: Seq<u8>) -> Seq<char>
    decreases bytes.len(),
{
    if bytes.len() == 0 {
        Seq::empty()
    } else {
        hexadecimal(bytes.drop_last()) + seq![hex_digit(bytes.last() as int / 16), hex_digit(bytes.last() as int % 16)]
    }
}

proof fn hex_length(bytes: Seq<u8>)
    ensures
        hexadecimal(bytes).len() == 2 * bytes.len(),
    decreases bytes.len(),
{
    if bytes.len() > 0 {
        hex_length(bytes.drop_last());
    }
}

fn digit_of(n: u8) -> (r: char)
    requires
        n < 16,
    ensures
        r == hex_digit(n as int),
{
    if n < 10 {
        (48 + n) as char
    } else {
        (87 + n) as char
    }
}

fn hex_of(bytes: &Vec<u8>) -> (r: String)
    ensures
        r@ == hexadecimal(bytes@),
{
    let mut r = String::new();
    let mut i: usize = 0;
    assert(r@ =~= hexadecimal(bytes@.take(0)));
    while i < bytes.len()
        invariant
            i <= bytes.len(),
            r@ == hexadecimal(bytes@.take(i as int)),
        decreases bytes.len() - i,
    {
        let ghost before = r@;
        assert(bytes@.take(i + 1).drop_last() =~= bytes@.take(i as int));
        assert(bytes@.take(i + 1).last() == bytes@[i as int]);
        r.push(digit_of(bytes[i] / 16));
        r.push(digit_of(bytes[i] % 16));
        assert(r@ =~= before + seq![hex_digit(bytes@[i as int] as int / 16), hex_digit(bytes@[i as int] as int % 16)]);
        i += 1;
    }
    assert(bytes@.take(bytes@.len() as int) =~= bytes@);
    r
}

pub open spec fn identity_of(credential: CredentialModel) -> Seq<char> {
    hexadecimal(sha256_of(identity_bytes(credential)))
}

/// The identity of a credential rests on the service and the token alone: a new
/// scope, another workspace or a later login with the same token keep it.
pub proof fn identity_rests_on_the_token(a: CredentialModel, b: CredentialModel)
    requires
        a.api_base == b.api_base,
        a.token == b.token,
    ensures
        identity_of(a) == identity_of(b),
{
}

// ---------------------------------------------------------------------------
// How a run authenticates
// ---------------------------------------------------------------------------

/// How this run authenticates to the cloud.
pub enum CloudAuth {
    /// A runner's own identity, which the cloud reads from signed claims.
    Oidc,
    /// A credential that a login wrote.
    Bearer(String),
}

pub open spec fn signed_out_message() -> Seq<char> {
    "Carrick is not signed in on this machine and this is not a GitHub Actions run. Run carrick login, or run the scan in Actions with `permissions: id-token: write`."@
}

impl CloudAuth {
    /// Picks the way. A runner's identity wins wherever the runner offers one,
    /// and its failure is final; else the credential decides.
    pub fn detect(runner: Option<Result<(), String>>, loaded: Result<Option<Credential>, String>) -> (r: Result<
        CloudAuth,
        String,
    >)
        ensures
            match runner {
                Some(Ok(_)) => r == Ok::<CloudAuth, String>(CloudAuth::Oidc),
                Some(Err(message)) => r == Err::<CloudAuth, String>(message),
                None => match loaded {
                    Ok(Some(credential)) => r == Ok::<CloudAuth, String>(CloudAuth::Bearer(credential.token)),
                    Err(message) => r == Err::<CloudAuth, String>(message),
                    Ok(None) => r matches Err(m) && m@ == signed_out_message(),
                },
            },
    {
        match runner {
            Some(Ok(_)) => Ok(CloudAuth::Oidc),
            Some(Err(message)) => Err(message),
            None => match loaded {
                Ok(Some(credential)) => Ok(CloudAuth::Bearer(credential.token)),
                Err(message) => Err(message),
                Ok(None) => Err(
                    "Carrick is not signed in on this machine and this is not a GitHub Actions run. Run carrick login, or run the scan in Actions with `permissions: id-token: write`.".to_owned(),
                ),
            },
        }
    }

    pub fn is_bearer(&self) -> (r: bool)
        ensures
            r == (self is Bearer),
    {
        match self {
            CloudAuth::Oidc => false,
            CloudAuth::Bearer(_) => true,
        }
    }
}

/// The scope of the credential that was loaded, when there is one.
pub open spec fn loaded_scope(loaded: Result<Option<Credential>, String>) -> Option<Seq<char>> {
    match loaded {
        Ok(Some(credential)) => Some(scope_of(credential.deep_view())),
        _ => None,
    }
}

pub fn consented_scope(loaded: &Result<Option<Credential>, String>) -> (r: Option<String>)
    ensures
        r.deep_view() == loaded_scope(*loaded),
{
    match loaded {
        Ok(Some(credential)) => Some(credential.scope().to_owned()),
        _ => None,
    }
}

pub open spec fn relogin_text(scope: Seq<char>) -> Seq<char> {
    "This credential was consented under scope '"@ + scope
        + "'; uploading and paid analysis need 'cli', which a fresh carrick login requests."@
}

/// What to say beside a refusal when the credential was consented under another
/// scope than the one that was needed. A token of the environment carries no
/// scope, so nothing is said of it.
pub fn relogin_hint(env_token: bool, loaded: &Result<Option<Credential>, String>) -> (r: Option<String>)
    ensures
        r.deep_view() == (match loaded_scope(*loaded) {
            Some(scope) => if !env_token && scope != CLI_SCOPE@ {
                Some(relogin_text(scope))
            } else {
                None
            },
            None => None,
        }),
{
    if env_token {
        return None;
    }
    match consented_scope(loaded) {
        Some(scope) => {
            if same(scope.as_str(), CLI_SCOPE) {
                None
            } else {
                Some(
                    concat3(
                        "This credential was consented under scope '",
                        scope.as_str(),
                        "'; uploading and paid analysis need 'cli', which a fresh carrick login requests.",
                    ),
                )
            }
        },
        None => None,
    }
}

// ---------------------------------------------------------------------------
// The scan slot
// ---------------------------------------------------------------------------

/// The slot that the cloud minted for this run. One run opens one scan.
pub struct ScanSlot {
    pub id: Option<String>,
}

/// Takes down the slot of this run. The first stays.
pub fn set_scan_id(slot: &mut ScanSlot, scan_id: &str)
    ensures
        final(slot).id.deep_view() == (match old(slot).id.deep_view() {
            Some(id) => Some(id),
            None => Some(scan_id@),
        }),
{
    if slot.id.is_none() {
        slot.id = Some(scan_id.to_owned());
    }
}

/// The slot of this run, when one was minted.
pub fn scan_id(slot: &ScanSlot) -> (r: Option<&str>)
    ensures
        r.deep_view() == slot.id.deep_view(),
{
    match &slot.id {
        Some(id) => Some(id.as_str()),
        None => None,
    }
}

} // verus!
