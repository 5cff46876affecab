//! Deno configuration: which manifest governs a service, whether the runtime is
//! new enough, and the files whose change can change a service's types.
//!
//! What lies on disk and what the runtime prints come in as plain values.

use crate::json::{get_member, items_model, items_model_places, json_model, member, Json, JsonModel};
use crate::paths::{
    a_parent_is_shorter, as_paths, as_texts, equal_paths, has_name, is_named, is_under, lies_under, order_paths,
    ordered_paths, parent, parent_of, paths_of_one_rank_are_the_same, resolve, resolved, same_path, FilePathModel,
};
use crate::sorting::{by_rank_once, by_rank_once_sorts, same_rank};
use crate::text::{
    after_prefix, before_suffix, chars_of, concat, concat3, contains, copy_list, first_cut, has_prefix, has_text, is_whitespace,
    split_once, starts_with, strip_prefix, strip_suffix, text_of, trim, trimmed, unicode_whitespace,
};
use vstd::prelude::*;

verus! {

/// The manifest of a directory, given which of the two files are there.
pub fn manifest_at(directory: &str, has_json: bool, has_jsonc: bool) -> (r: Option<String>)
    ensures
        r.deep_view() == (if has_json {
            Some(resolved(directory@, "deno.json"@))
        } else if has_jsonc {
            Some(resolved(directory@, "deno.jsonc"@))
        } else {
            None
        }),
{
    if has_json {
        Some(resolve(directory, "deno.json"))
    } else if has_jsonc {
        Some(resolve(directory, "deno.jsonc"))
    } else {
        None
    }
}

/// A path names a Deno manifest.
pub open spec fn names_manifest(path: Seq<char>) -> bool {
    is_named(path, "deno.json"@) || is_named(path, "deno.jsonc"@)
}

pub fn is_manifest(path: &str) -> (r: bool)
    ensures
        r == names_manifest(path@),
{
    has_name(path, "deno.json") || has_name(path, "deno.jsonc")
}

/// The directory of a service: the root, where it names none.
pub fn service_directory(root: &str, directory: Option<&str>) -> (r: String)
    ensures
        r@ == resolved(root@, match directory.deep_view() {
            Some(directory) => directory,
            None => "."@,
        }),
{
    match directory {
        Some(directory) => resolve(root, directory),
        None => resolve(root, "."),
    }
}

/// A directory and the directories above it that lie in the root, from the
/// directory upwards, each spelled as it is in the first.
pub open spec fn directories_up(directory: Seq<char>, root: Seq<char>) -> Seq<Seq<char>>
    decreases directory.len(),
{
    if !lies_under(directory, root) {
        Seq::empty()
    } else {
        proof {
            a_parent_is_shorter(directory);
        }
        seq![directory] + match parent_of(directory) {
            Some(above) => directories_up(above, root),
            None => Seq::empty(),
        }
    }
}

/// The directories in which a manifest is looked for, the nearest first.
pub fn search_directories(directory: &str, root: &str) -> (r: Vec<String>)
    ensures
        r.deep_view() == directories_up(directory@, root@),
{
    let ghost all = directories_up(directory@, root@);
    let mut r: Vec<String> = Vec::new();
    let mut here: String = directory.to_owned();
    assert(r.deep_view() + directories_up(here@, root@) =~= all);
    while is_under(here.as_str(), root)
        invariant
            all == directories_up(directory@, root@),
            r.deep_view() + directories_up(here@, root@) == all,
        ensures
            r.deep_view() == all,
        decreases here@.len(),
    {
        let ghost before = r.deep_view();
        let ghost at = here@;
        let above = parent(here.as_str());
        proof {
            a_parent_is_shorter(here@);
        }
        r.push(here);
        assert(r.deep_view() =~= before.push(at));
        match above {
            Some(above) => {
                assert(r.deep_view() + directories_up(above@, root@) =~= all);
                here = above;
            },
            None => {
                assert(r.deep_view() =~= all);
                return r;
            },
        }
    }
    r
}

/// A manifest that was found for a service, and where the members that it
/// declares really lie, where they could be followed.
#[derive(Debug, Clone, PartialEq, Eq)]
pub struct FoundManifest {
    pub path: String,
    pub members: Vec<Option<String>>,
}

/// What a [`FoundManifest`] holds.
pub struct FoundManifestModel {
    pub path: Seq<char>,
    pub members: Seq<Option<Seq<char>>>,
}

impl DeepView for FoundManifest {
    type V = FoundManifestModel;

    open spec fn deep_view(&self) -> FoundManifestModel {
        FoundManifestModel {
            path: self.path@,
            members: self.members.deep_view(),
        }
    }
}

/// The manifest declares a member that the directory lies in.
pub open spec fn declares(manifest: FoundManifestModel, directory: Option<Seq<char>>) -> bool {
    exists|i: int|
        0 <= i < manifest.members.len() && (#[trigger] manifest.members[i] matches Some(member) && directory matches Some(
            directory,
        ) && lies_under(directory, member))
}

fn is_declared(manifest: &FoundManifest, directory: &Option<String>) -> (r: bool)
    ensures
        r == declares(manifest.deep_view(), directory.deep_view()),
{
    let ghost members = manifest.members.deep_view();
    let mut i: usize = 0;
    while i < manifest.members.len()
        invariant
            i <= manifest.members.len(),
            members == manifest.members.deep_view(),
            forall|j: int|
                0 <= j < i ==> !(#[trigger] members[j] matches Some(member) && directory.deep_view() matches Some(directory)
                    && lies_under(directory, member)),
        decreases manifest.members.len() - i,
    {
        assert(members[i as int] == manifest.members@[i as int].deep_view());
        match (&manifest.members[i], directory) {
            (Some(member), Some(directory)) => {
                if is_under(directory.as_str(), member.as_str()) {
                    assert(manifest.deep_view().members[i as int] == members[i as int]);
                    return true;
                }
            },
            _ => {},
        }
        i += 1;
    }
    false
}

/// The manifest that governs a service. A configuration that the service names
/// decides alone, whether or not it is a manifest. Else it is the nearest of
/// those found; one above a service with a package of its own counts only where
/// one of them declares the service as a member of its workspace.
pub open spec fn governing_manifest(
    directory: Seq<char>,
    tsconfig: Option<Seq<char>>,
    found: Seq<FoundManifestModel>,
    has_package: bool,
    real_directory: Option<Seq<char>>,
) -> Option<Seq<char>> {
    match tsconfig {
        Some(config) => if names_manifest(resolved(directory, config)) {
            Some(resolved(directory, config))
        } else {
            None
        },
        None => if found.len() == 0 {
            None
        } else if has_package && !lies_directly_in(found[0].path, directory) && !(exists|i: int|
            0 <= i < found.len() && declares(#[trigger] found[i], real_directory)) {
            None
        } else {
            Some(found[0].path)
        },
    }
}

/// The parent of a path is this directory.
pub open spec fn lies_directly_in(path: Seq<char>, directory: Seq<char>) -> bool {
    parent_of(path) matches Some(parent) && same_path(parent, directory)
}

pub fn service_manifest(
    directory: &str,
    tsconfig: Option<&str>,
    found: &Vec<FoundManifest>,
    has_package: bool,
    real_directory: &Option<String>,
) -> (r: Option<String>)
    ensures
        r.deep_view() == governing_manifest(
            directory@,
            tsconfig.deep_view(),
            found.deep_view(),
            has_package,
            real_directory.deep_view(),
        ),
{
    match tsconfig {
        Some(config) => {
            let path = resolve(directory, config);
            if is_manifest(path.as_str()) {
                Some(path)
            } else {
                None
            }
        },
        None => {
            let ghost all = found.deep_view();
            assert(all.len() == found@.len());
            if found.len() == 0 {
                return None;
            }
            assert(all[0] == found@[0].deep_view());
            let own = match parent(found[0].path.as_str()) {
                Some(parent) => equal_paths(parent.as_str(), directory),
                None => false,
            };
            if has_package && !own {
                let mut declared = false;
                let mut i: usize = 0;
                while i < found.len() && !declared
                    invariant
                        i <= found.len(),
                        all == found.deep_view(),
                        all.len() == found@.len(),
                        declared == exists|j: int| 0 <= j < i && declares(#[trigger] all[j], real_directory.deep_view()),
                    decreases found.len() - i,
                {
                    assert(all[i as int] == found@[i as int].deep_view());
                    declared = is_declared(&found[i], real_directory);
                    i += 1;
                }
                if !declared {
                    return None;
                }
            }
            Some(found[0].path.clone())
        },
    }
}

/// The texts among the values of a list.
pub open spec fn texts_among(items: Seq<JsonModel>) -> Seq<Seq<char>>
    decreases items.len(),
{
    if items.len() == 0 {
        Seq::empty()
    } else {
        let before = texts_among(items.drop_last());
        match items.last() {
            JsonModel::Text(s) => before.push(s),
            _ => before,
        }
    }
}

/// The members that a manifest's workspace lists, from the manifest's directory.
pub open spec fn member_paths(config: Seq<char>, json: JsonModel) -> Seq<Seq<char>> {
    match member(json, "workspace"@) {
        Some(JsonModel::List(items)) => texts_among(items).map_values(
            |m: Seq<char>| resolved(directory_of(config), m),
        ),
        _ => Seq::empty(),
    }
}

/// The directory that a configuration lies in, or else the current one.
pub open spec fn directory_of(config: Seq<char>) -> Seq<char> {
    match parent_of(config) {
        Some(directory) => directory,
        None => "."@,
    }
}

fn directory_holding(config: &str) -> (r: String)
    ensures
        r@ == directory_of(config@),
{
    match parent(config) {
        Some(directory) => directory,
        None => ".".to_owned(),
    }
}

/// Where the members of a manifest's workspace lie.
pub fn member_roots(config: &str, json: &Json) -> (r: Vec<String>)
    ensures
        r.deep_view() == member_paths(config@, json.deep_view()),
{
    let mut r: Vec<String> = Vec::new();
    assert(r.deep_view() =~= Seq::<Seq<char>>::empty());
    let directory = directory_holding(config);
    match get_member(json, "workspace") {
        Some(Json::List(items)) => {
            let ghost all = items_model(items@);
            let ghost at = |m: Seq<char>| resolved(directory_of(config@), m);
            let mut i: usize = 0;
            proof {
                items_model_places(items@);
                assert(r.deep_view() =~= texts_among(all.take(0)).map_values(at));
            }
            while i < items.len()
                invariant
                    i <= items.len(),
                    directory@ == directory_of(config@),
                    all == items_model(items@),
                    all.len() == items@.len(),
                    at == (|m: Seq<char>| resolved(directory_of(config@), m)),
                    r.deep_view() == texts_among(all.take(i as int)).map_values(at),
                decreases items.len() - i,
            {
                let ghost before = r.deep_view();
                proof {
                    items_model_places(items@);
                    assert(all.take(i + 1).drop_last() =~= all.take(i as int));
                    assert(all.take(i + 1).last() == json_model(items@[i as int]));
                }
                match &items[i] {
                    Json::Text(m) => {
                        let root = resolve(directory.as_str(), m.as_str());
                        r.push(root);
                        assert(r.deep_view() =~= before.push(root@));
                        assert(texts_among(all.take(i + 1)).map_values(at) =~= texts_among(all.take(i as int)).map_values(
                            at,
                        ).push(at(m@)));
                    },
                    _ => {},
                }
                i += 1;
            }
            assert(all.take(all.len() as int) =~= all);
            r
        },
        _ => {
            r
        },
    }
}

// ---------------------------------------------------------------------------
// The runtime
// ---------------------------------------------------------------------------

/// The numbers and the pre-release of a semantic version; nothing when the text
/// is none.
pub uninterp spec fn version_in(text: Seq<char>) -> Option<(u64, u64, u64, Seq<char>)>;

/// `semver::Version::parse`: the version's three numbers and its pre-release
/// text, which is empty for a release. They depend on the text alone. What a
/// version says of its build is left out.
#[verifier::external_body]
fn parse_version(text: &str) -> (r: Option<(u64, u64, u64, String)>)
    ensures
        r.deep_view() == version_in(text@),
{
    let version = semver::Version::parse(text).ok()?;
    Some((version.major, version.minor, version.patch, version.pre.as_str().to_string()))
}

/// A version that is 2.9.4 or newer. A pre-release comes before its release.
pub open spec fn new_enough(version: (u64, u64, u64, Seq<char>)) -> bool {
    let (major, minor, patch, pre) = version;
    major > 2 || major == 2 && (minor > 9 || minor == 9 && (patch > 4 || patch == 4 && pre.len() == 0))
}

/// Whether what was read as the runtime's version is 2.9.4 or newer.
pub fn version_suffices(version: Option<(u64, u64, u64, String)>) -> (r: bool)
    ensures
        r == (version.deep_view() matches Some(version) && new_enough(version)),
{
    match version {
        Some((major, minor, patch, pre)) => major > 2 || major == 2 && (minor > 9 || minor == 9 && (patch > 4 || patch == 4
            && pre.as_str().is_empty())),
        None => false,
    }
}

/// The first line of a text, without what ends it. An empty text has no line.
pub open spec fn first_line(text: Seq<char>) -> Option<Seq<char>> {
    if text.len() == 0 {
        None
    } else {
        match first_cut(text, "\n"@) {
            Some((line, _)) => match before_suffix(line, "\r"@) {
                Some(bare) => Some(bare),
                None => Some(line),
            },
            None => Some(text),
        }
    }
}

fn line_of(text: &str) -> (r: Option<String>)
    ensures
        r.deep_view() == first_line(text@),
{
    if text.is_empty() {
        return None;
    }
    match split_once(text, "\n") {
        Some((line, _)) => match strip_suffix(line.as_str(), "\r") {
            Some(bare) => Some(bare),
            None => Some(line),
        },
        None => Some(text.to_owned()),
    }
}

/// What stands before the first white space.
pub open spec fn until_space(s: Seq<char>) -> Seq<char>
    decreases s.len(),
{
    if s.len() == 0 || unicode_whitespace(s[0]) {
        Seq::empty()
    } else {
        seq![s[0]] + until_space(s.skip(1))
    }
}

proof fn until_space_takes(s: Seq<char>, i: int)
    requires
        0 <= i <= s.len(),
        forall|j: int| 0 <= j < i ==> !unicode_whitespace(#[trigger] s[j]),
        i < s.len() ==> unicode_whitespace(s[i]),
    ensures
        until_space(s) == s.take(i),
    decreases i,
{
    if i == 0 {
        assert(s.take(0) =~= Seq::<char>::empty());
    } else {
        let t = s.skip(1);
        assert forall|j: int| 0 <= j < i - 1 implies !unicode_whitespace(#[trigger] t[j]) by {
            assert(t[j] == s[j + 1]);
        }
        until_space_takes(t, i - 1);
        assert(!unicode_whitespace(s[0]));
        assert(s.take(i) =~= seq![s[0]] + t.take(i - 1));
    }
}

/// The first word of a text: a run of characters that are no white space.
pub open spec fn first_word(text: Seq<char>) -> Option<Seq<char>> {
    if trimmed(text).len() == 0 {
        None
    } else {
        Some(until_space(trimmed(text)))
    }
}

fn word_of(text: &str) -> (r: Option<String>)
    ensures
        r.deep_view() == first_word(text@),
{
    let t = trim(text);
    let v = chars_of(t.as_str());
    if v.len() == 0 {
        return None;
    }
    let mut i: usize = 0;
    while i < v.len() && !is_whitespace(v[i])
        invariant
            i <= v.len(),
            forall|j: int| 0 <= j < i ==> !unicode_whitespace(#[trigger] v@[j]),
        decreases v.len() - i,
    {
        i += 1;
    }
    proof {
        until_space_takes(t@, i as int);
        assert(v@.subrange(0, i as int) =~= t@.take(i as int));
    }
    Some(text_of(&v, 0, i))
}

/// The word that names the runtime's version in what it printed: the first one
/// behind the runtime's name on the first line.
pub open spec fn printed_version(printed: Seq<char>) -> Option<Seq<char>> {
    match first_line(printed) {
        Some(line) => match after_prefix(line, "deno "@) {
            Some(rest) => first_word(rest),
            None => None,
        },
        None => None,
    }
}

pub fn version_word(printed: &str) -> (r: Option<String>)
    ensures
        r.deep_view() == printed_version(printed@),
{
    match line_of(printed) {
        Some(line) => match strip_prefix(line.as_str(), "deno ") {
            Some(rest) => word_of(rest.as_str()),
            None => None,
        },
        None => None,
    }
}

/// What the runtime printed names a version that is 2.9.4 or newer.
pub open spec fn supported(printed: Seq<char>) -> bool {
    printed_version(printed) matches Some(word) && version_in(word) matches Some(version) && new_enough(version)
}

pub fn runtime_supported(printed: &str) -> (r: bool)
    ensures
        r == supported(printed@),
{
    match version_word(printed) {
        Some(word) => version_suffices(parse_version(word.as_str())),
        None => false,
    }
}

pub open spec fn runtime_message(config: Seq<char>) -> Seq<char> {
    "Deno is required to scan "@ + config
        + ". Install or upgrade to Deno 2.9.4 or newer and make `deno` available on PATH. Carrick reads the existing Deno configuration; no generated tsconfig is required."@
}

/// The first manifest that governs a service.
pub open spec fn first_manifest(manifests: Seq<Option<Seq<char>>>) -> Option<Seq<char>>
    decreases manifests.len(),
{
    if manifests.len() == 0 {
        None
    } else {
        match first_manifest(manifests.drop_last()) {
            Some(first) => Some(first),
            None => manifests.last(),
        }
    }
}

fn first_of(manifests: &Vec<Option<String>>) -> (r: Option<String>)
    ensures
        r.deep_view() == first_manifest(manifests.deep_view()),
{
    let ghost all = manifests.deep_view();
    let mut r: Option<String> = None;
    let mut i: usize = 0;
    while i < manifests.len()
        invariant
            i <= manifests.len(),
            all == manifests.deep_view(),
            r.deep_view() == first_manifest(all.take(i as int)),
        decreases manifests.len() - i,
    {
        assert(all.take(i + 1).drop_last() == all.take(i as int));
        assert(all.take(i + 1).last() == manifests@[i as int].deep_view());
        if r.is_none() {
            match &manifests[i] {
                Some(manifest) => {
                    r = Some(manifest.clone());
                },
                None => {},
            }
        }
        i += 1;
    }
    assert(all.take(all.len() as int) == all);
    r
}

/// Refuses to scan services that a manifest governs where the runtime did not
/// run, or is not new enough. Without such a service the runtime is not needed.
pub fn require_runtime(manifests: &Vec<Option<String>>, printed: Option<&str>) -> (r: Result<(), String>)
    ensures
        match first_manifest(manifests.deep_view()) {
            None => r is Ok,
            Some(config) => if printed.deep_view() matches Some(printed) && supported(printed) {
                r is Ok
            } else {
                r matches Err(message) && message@ == runtime_message(config)
            },
        },
{
    match first_of(manifests) {
        None => Ok(()),
        Some(config) => {
            let supported = match printed {
                Some(printed) => runtime_supported(printed),
                None => false,
            };
            if supported {
                Ok(())
            } else {
                Err(
                    concat3(
                        "Deno is required to scan ",
                        config.as_str(),
                        ". Install or upgrade to Deno 2.9.4 or newer and make `deno` available on PATH. Carrick reads the existing Deno configuration; no generated tsconfig is required.",
                    ),
                )
            }
        },
    }
}

// ---------------------------------------------------------------------------
// The files that types rest on
// ---------------------------------------------------------------------------

/// The import map of a configuration, from its directory: a local file, or none.
pub open spec fn import_map_of(config: Seq<char>, json: JsonModel) -> Result<Option<Seq<char>>, Seq<char>> {
    match member(json, "importMap"@) {
        None => Ok(None),
        Some(JsonModel::Text(path)) => if has_text(path, "://"@) || has_prefix(path, "data:"@) {
            Err(
                config
                    + ": Carrick requires a local importMap file so dependency changes can invalidate its cache"@,
            )
        } else {
            Ok(Some(resolved(directory_of(config), path)))
        },
        Some(_) => Err(config + ": importMap must be a local file path"@),
    }
}

pub fn import_map_path(config: &str, json: &Json) -> (r: Result<Option<String>, String>)
    ensures
        match import_map_of(config@, json.deep_view()) {
            Ok(path) => r matches Ok(p) && p.deep_view() == path,
            Err(message) => r matches Err(m) && m@ == message,
        },
{
    match get_member(json, "importMap") {
        None => Ok(None),
        Some(Json::Text(path)) => {
            if contains(path.as_str(), "://") || starts_with(path.as_str(), "data:") {
                Err(
                    concat(
                        config,
                        ": Carrick requires a local importMap file so dependency changes can invalidate its cache",
                    ),
                )
            } else {
                Ok(Some(resolve(directory_holding(config).as_str(), path.as_str())))
            }
        },
        Some(_) => Err(concat(config, ": importMap must be a local file path")),
    }
}

/// The lock file of a configuration, from its directory: none where it is
/// switched off.
pub open spec fn lock_of(config: Seq<char>, json: JsonModel) -> Option<Seq<char>> {
    match member(json, "lock"@) {
        Some(JsonModel::Bool(false)) => None,
        Some(JsonModel::Text(path)) => Some(resolved(directory_of(config), path)),
        Some(JsonModel::Object(_)) => match member(member(json, "lock"@)->0, "path"@) {
            Some(JsonModel::Text(path)) => Some(resolved(directory_of(config), path)),
            _ => Some(resolved(directory_of(config), "deno.lock"@)),
        },
        _ => Some(resolved(directory_of(config), "deno.lock"@)),
    }
}

fn lock_path(config: &str, json: &Json) -> (r: Option<String>)
    ensures
        r.deep_view() == lock_of(config@, json.deep_view()),
{
    let directory = directory_holding(config);
    match get_member(json, "lock") {
        Some(lock) => match lock {
            Json::Bool(on) => if *on {
                Some(resolve(directory.as_str(), "deno.lock"))
            } else {
                None
            },
            Json::Text(path) => Some(resolve(directory.as_str(), path.as_str())),
            Json::Object(_) => match get_member(lock, "path") {
                Some(Json::Text(path)) => Some(resolve(directory.as_str(), path.as_str())),
                _ => Some(resolve(directory.as_str(), "deno.lock")),
            },
            _ => Some(resolve(directory.as_str(), "deno.lock")),
        },
        None => Some(resolve(directory.as_str(), "deno.lock")),
    }
}

/// What reading a configuration gave: its content, or why there is none.
pub enum ConfigContent {
    Read(Json),
    Unreadable(String),
}

/// A configuration that was read.
pub struct ReadConfig {
    pub path: String,
    pub content: ConfigContent,
}

/// What a [`ReadConfig`] holds.
pub struct ReadConfigModel {
    pub path: Seq<char>,
    pub content: Result<JsonModel, Seq<char>>,
}

impl DeepView for ReadConfig {
    type V = ReadConfigModel;

    open spec fn deep_view(&self) -> ReadConfigModel {
        ReadConfigModel {
            path: self.path@,
            content: match self.content {
                ConfigContent::Read(json) => Ok(json_model(json)),
                ConfigContent::Unreadable(message) => Err(message@),
            },
        }
    }
}

pub open spec fn listed(path: Option<Seq<char>>) -> Seq<Seq<char>> {
    match path {
        Some(path) => seq![path],
        None => Seq::empty(),
    }
}

/// The files that one configuration brings in: its import map, its lock file
/// and itself.
pub open spec fn config_files(config: Seq<char>, json: JsonModel) -> Result<Seq<Seq<char>>, Seq<char>> {
    match import_map_of(config, json) {
        Ok(map) => Ok(listed(map) + listed(lock_of(config, json)) + seq![config]),
        Err(message) => Err(message),
    }
}

/// The manifests and the files of every configuration; the first configuration
/// that cannot be read, or whose import map is refused, fails it all.
pub open spec fn gathered(manifests: Seq<Seq<char>>, configs: Seq<ReadConfigModel>) -> Result<Seq<Seq<char>>, Seq<char>>
    decreases configs.len(),
{
    if configs.len() == 0 {
        Ok(manifests)
    } else {
        match gathered(manifests, configs.drop_last()) {
            Err(message) => Err(message),
            Ok(files) => match configs.last().content {
                Err(message) => Err(message),
                Ok(json) => match config_files(configs.last().path, json) {
                    Ok(more) => Ok(files + more),
                    Err(message) => Err(message),
                },
            },
        }
    }
}

pub open spec fn names_some_manifest(manifests: Seq<Seq<char>>) -> bool {
    exists|i: int| 0 <= i < manifests.len() && names_manifest(#[trigger] manifests[i])
}

/// The files whose change can change a service's types, in path order, each
/// once. Where no manifest is a Deno one, the manifests are all there is.
pub open spec fn inputs_of(manifests: Seq<Seq<char>>, configs: Seq<ReadConfigModel>) -> Result<Seq<Seq<char>>, Seq<char>> {
    if names_some_manifest(manifests) {
        match gathered(manifests, configs) {
            Ok(files) => Ok(ordered_paths(files)),
            Err(message) => Err(message),
        }
    } else {
        Ok(manifests)
    }
}

/// The configurations to read, in the order in which they are read: those that
/// a workspace declares and those that were found above a manifest.
pub fn config_order(declared: &Vec<String>, found: &Vec<String>) -> (r: Vec<String>)
    ensures
        r.deep_view() == ordered_paths(declared.deep_view() + found.deep_view()),
{
    let mut both = copy_list(declared);
    append_list(&mut both, found);
    order_paths(&both)
}

fn append_list(list: &mut Vec<String>, more: &Vec<String>)
    ensures
        final(list).deep_view() == old(list).deep_view() + more.deep_view(),
{
    let ghost first = list.deep_view();
    let ghost second = more.deep_view();
    let mut i: usize = 0;
    assert(list.deep_view() =~= first + second.take(0));
    while i < more.len()
        invariant
            i <= more.len(),
            first == old(list).deep_view(),
            second == more.deep_view(),
            list.deep_view() == first + second.take(i as int),
        decreases more.len() - i,
    {
        let ghost before = list.deep_view();
        list.push(more[i].clone());
        assert(list.deep_view() =~= before.push(more@[i as int]@));
        assert(second.take(i + 1) =~= second.take(i as int).push(more@[i as int]@));
        assert(first + second.take(i as int).push(more@[i as int]@) =~= (first + second.take(i as int)).push(
            more@[i as int]@,
        ));
        i += 1;
    }
    assert(second.take(second.len() as int) =~= second);
}

fn any_manifest(manifests: &Vec<String>) -> (r: bool)
    ensures
        r == names_some_manifest(manifests.deep_view()),
{
    let ghost all = manifests.deep_view();
    let mut i: usize = 0;
    while i < manifests.len()
        invariant
            i <= manifests.len(),
            all == manifests.deep_view(),
            forall|j: int| 0 <= j < i ==> !names_manifest(#[trigger] all[j]),
        decreases manifests.len() - i,
    {
        assert(all[i as int] == manifests@[i as int]@);
        if is_manifest(manifests[i].as_str()) {
            return true;
        }
        i += 1;
    }
    false
}

/// The files whose change can change a service's types: the manifests given,
/// and for each configuration its import map, its lock file and itself. Every
/// configuration lies in a directory.
pub fn resolution_inputs(manifests: &Vec<String>, configs: &Vec<ReadConfig>) -> (r: Result<Vec<String>, String>)
    requires
        forall|i: int| 0 <= i < configs@.len() ==> parent_of((#[trigger] configs@[i]).path@) is Some,
    ensures
        match inputs_of(manifests.deep_view(), configs.deep_view()) {
            Ok(files) => r matches Ok(list) && list.deep_view() == files,
            Err(message) => r matches Err(m) && m@ == message,
        },
{
    if !any_manifest(manifests) {
        return Ok(copy_list(manifests));
    }
    let ghost first = manifests.deep_view();
    let ghost all = configs.deep_view();
    let mut files = copy_list(manifests);
    let mut i: usize = 0;
    while i < configs.len()
        invariant
            i <= configs.len(),
            first == manifests.deep_view(),
            all == configs.deep_view(),
            names_some_manifest(first),
            gathered(first, all.take(i as int)) == Ok::<Seq<Seq<char>>, Seq<char>>(files.deep_view()),
        decreases configs.len() - i,
    {
        let ghost before = files.deep_view();
        assert(all.take(i + 1).drop_last() =~= all.take(i as int));
        assert(all.take(i + 1).last() == configs@[i as int].deep_view());
        let config = configs[i].path.as_str();
        match &configs[i].content {
            ConfigContent::Unreadable(message) => {
                proof {
                    failure_stays(first, all, i + 1);
                }
                return Err(message.clone());
            },
            ConfigContent::Read(json) => {
                match import_map_path(config, json) {
                    Err(message) => {
                        proof {
                            failure_stays(first, all, i + 1);
                        }
                        return Err(message);
                    },
                    Ok(map) => {
                        let lock = lock_path(config, json);
                        let ghost a = listed(map.deep_view());
                        let ghost b = listed(lock.deep_view());
                        match map {
                            Some(map) => {
                                files.push(map);
                            },
                            None => {},
                        }
                        assert(files.deep_view() =~= before + a);
                        match lock {
                            Some(lock) => {
                                files.push(lock);
                            },
                            None => {},
                        }
                        assert(files.deep_view() =~= before + a + b);
                        files.push(config.to_owned());
                        assert(files.deep_view() =~= before + (a + b + seq![config@]));
                    },
                }
            },
        }
        i += 1;
    }
    assert(all.take(all.len() as int) =~= all);
    Ok(order_paths(&files))
}

proof fn failure_stays(manifests: Seq<Seq<char>>, configs: Seq<ReadConfigModel>, n: int)
    requires
        0 <= n <= configs.len(),
        gathered(manifests, configs.take(n)) is Err,
    ensures
        gathered(manifests, configs) == gathered(manifests, configs.take(n)),
    decreases configs.len(),
{
    if n == configs.len() {
        assert(configs.take(n) =~= configs);
    } else {
        assert(configs.drop_last().take(n) =~= configs.take(n));
        failure_stays(manifests, configs.drop_last(), n);
    }
}

proof fn gathered_holds(manifests: Seq<Seq<char>>, configs: Seq<ReadConfigModel>)
    requires
        gathered(manifests, configs) is Ok,
    ensures
        forall|i: int| 0 <= i < manifests.len() ==> gathered(manifests, configs)->Ok_0.contains(#[trigger] manifests[i]),
        forall|i: int| 0 <= i < configs.len() ==> gathered(manifests, configs)->Ok_0.contains((#[trigger] configs[i]).path),
    decreases configs.len(),
{
    let files = gathered(manifests, configs)->Ok_0;
    if configs.len() == 0 {
        assert forall|i: int| 0 <= i < manifests.len() implies files.contains(#[trigger] manifests[i]) by {}
    } else {
        let init = configs.drop_last();
        gathered_holds(manifests, init);
        let before = gathered(manifests, init)->Ok_0;
        let more = config_files(configs.last().path, configs.last().content->Ok_0)->Ok_0;
        assert(files == before + more);
        assert forall|x: Seq<char>| before.contains(x) implies #[trigger] files.contains(x) by {
            let k = choose|k: int| 0 <= k < before.len() && before[k] == x;
            assert(files[k] == x);
        }
        assert forall|i: int| 0 <= i < configs.len() implies files.contains((#[trigger] configs[i]).path) by {
            if i < init.len() {
                assert(init[i] == configs[i]);
            } else {
                assert(more.last() == configs.last().path);
                assert(files[files.len() - 1] == configs.last().path);
            }
        }
    }
}

/// Where Deno governs, every manifest and every configuration is among the
/// inputs: a change of any of them is seen.
pub proof fn every_configuration_is_an_input(manifests: Seq<Seq<char>>, configs: Seq<ReadConfigModel>, path: Seq<char>)
    requires
        names_some_manifest(manifests),
        inputs_of(manifests, configs) is Ok,
        manifests.contains(path) || exists|i: int| 0 <= i < configs.len() && (#[trigger] configs[i]).path == path,
    ensures
        exists|k: int|
            0 <= k < (inputs_of(manifests, configs)->Ok_0).len() && same_path(
                #[trigger] (inputs_of(manifests, configs)->Ok_0)[k],
                path,
            ),
{
    gathered_holds(manifests, configs);
    let files = gathered(manifests, configs)->Ok_0;
    if manifests.contains(path) {
        let i = choose|i: int| 0 <= i < manifests.len() && manifests[i] == path;
        assert(files.contains(manifests[i]));
    }
    assert(files.contains(path));
    let n = choose|n: int| 0 <= n < files.len() && files[n] == path;
    let paths = as_paths(files);
    let x = FilePathModel { text: path };
    assert(paths[n] == x);
    assert(paths.contains(x));
    by_rank_once_sorts(paths);
    let sorted = by_rank_once(paths);
    let y = choose|y: FilePathModel| #[trigger] sorted.contains(y) && same_rank(y, x);
    let k = choose|k: int| 0 <= k < sorted.len() && sorted[k] == y;
    paths_of_one_rank_are_the_same(y, x);
    assert(as_texts(sorted)[k] == y.text);
    assert(same_path((inputs_of(manifests, configs)->Ok_0)[k], path));
}

} // verus!
