//! Machine paths out of served type text.
//!
//! A compiler prints a type of a module that the use site does not import with
//! the module's absolute path, which tells where the module lay on the scanning
//! machine. [`PathScrub::text`] rewrites the path tokens of a text and leaves
//! the rest as it is:
//!
//! - a path into an installed package becomes `<name>@<version>`, or `<name>`
//!   where no version is known, whatever layout put it there;
//! - a path under the checkout root becomes relative to it;
//! - any other path under the home directory is reported from `~`.
//!
//! The layouts are recognised by their directory shape, never by a name.

use crate::json::{get_member, json_model, member, Json, JsonModel};
use crate::ordered::TextMap;
use crate::patterns::{
    captures, find_all, group_pair, groups_in, interleave, interleaved, matches_in, pieces_in, split_by, two_groups,
};
use crate::text::{
    after_prefix, chars_of, concat, concat3, contains_char, first_cut, first_cut_shortens, has_prefix, has_text,
    is_lighter, lighter, replace_char, same, separators, separators_add_up, slashes_for_backslashes, split_once, starts_with, strip_prefix, text_of, trim_end_char, trimmed_end_of, weight, weights_add_up, with_char_replaced,
};
use vstd::prelude::*;

verus! {

/// A run of path characters that holds at least one slash. Quotes, brackets and
/// separators bound it; a group in round brackets with no separator inside stays
/// a part of it, for that is how an isolated store writes peer dependencies.
pub const PATH_TOKEN: &'static str = r#"(?:[^\s"'`()<>\[\]{},;|&=]|\([^\s"'`()<>/]+\))*/(?:[^\s"'`()<>\[\]{},;|&=]|\([^\s"'`()<>/]+\))*"#;

/// An entry of an isolated store, and the package in it.
pub const ISOLATED_STORE: &'static str = r"(?:^|/)\.(?:pnpm|deno)/([^/]+)/node_modules/((?:@[^/]+/)?[^/]+)";

/// A package and its version in a runtime's package cache. The registry host
/// has a dot and the version starts with a digit.
pub const NPM_CACHE: &'static str = r"(?:^|/)npm/[^/]+\.[^/]+/((?:@[^/]+/)?[^/]+)/(\d[^/]*)(?:/|$)";

/// The innermost flat install of a path, and the package in it.
pub const FLAT_NODE_MODULES: &'static str = r"^(.*(?:^|/)node_modules/)((?:@[^/]+/)?[^/.][^/]*)";

/// What the rewriting of paths knows of the machine.
pub struct PathScrub {
    /// The checkout root with a slash behind it; empty when it is unknown.
    pub root_prefix: String,
    /// The home directory with a slash behind it, when one is known.
    pub home_prefix: Option<String>,
    /// The versions that installed packages declare, by package directory.
    pub versions: TextMap<String>,
}

/// What a [`PathScrub`] holds.
pub struct PathScrubModel {
    pub root_prefix: Seq<char>,
    pub home_prefix: Option<Seq<char>>,
    pub versions: Map<Seq<char>, Seq<char>>,
}

impl DeepView for PathScrub {
    type V = PathScrubModel;

    open spec fn deep_view(&self) -> PathScrubModel {
        PathScrubModel {
            root_prefix: self.root_prefix@,
            home_prefix: self.home_prefix.deep_view(),
            versions: self.versions.deep_view(),
        }
    }
}

/// A directory as a prefix of what lies in it: with forward slashes and exactly
/// one slash at its end. The root of all, the current directory and an empty
/// path are no prefix.
pub open spec fn prefix_of(path: Seq<char>) -> Seq<char> {
    let path = trimmed_end_of(with_char_replaced(path, '\\', "/"@), '/');
    if path.len() == 0 || path == "."@ {
        Seq::empty()
    } else {
        path + "/"@
    }
}

fn prefix(path: &str) -> (r: String)
    ensures
        r@ == prefix_of(path@),
{
    let path = trim_end_char(replace_char(path, '\\', "/").as_str(), '/');
    if path.as_str().is_empty() || same(path.as_str(), ".") {
        proof {
            reveal_strlit("");
        }
        "".to_owned()
    } else {
        concat(path.as_str(), "/")
    }
}

/// What stands before the first underscore or opening bracket.
pub open spec fn before_peers(s: Seq<char>) -> Seq<char>
    decreases s.len(),
{
    if s.len() == 0 || s[0] == '_' || s[0] == '(' {
        Seq::empty()
    } else {
        seq![s[0]] + before_peers(s.skip(1))
    }
}

/// What stands before the peers ends at the first character that begins them.
pub proof fn before_peers_takes(s: Seq<char>, i: int)
    requires
        0 <= i <= s.len(),
        forall|j: int| 0 <= j < i ==> s[j] != '_' && s[j] != '(',
        i < s.len() ==> s[i] == '_' || s[i] == '(',
    ensures
        before_peers(s) == s.take(i),
    decreases i,
{
    if i == 0 {
        assert(s.take(0) =~= Seq::<char>::empty());
    } else {
        let t = s.skip(1);
        assert forall|j: int| 0 <= j < i - 1 implies t[j] != '_' && t[j] != '(' by {
            assert(t[j] == s[j + 1]);
        }
        before_peers_takes(t, i - 1);
        assert(s.take(i) =~= seq![s[0]] + t.take(i - 1));
    }
}

fn cut_peers(s: &str) -> (r: String)
    ensures
        r@ == before_peers(s@),
{
    let v = chars_of(s);
    let mut i: usize = 0;
    while i < v.len() && v[i] != '_' && v[i] != '('
        invariant
            i <= v.len(),
            forall|j: int| 0 <= j < i ==> v@[j] != '_' && v@[j] != '(',
        decreases v.len() - i,
    {
        i += 1;
    }
    proof {
        before_peers_takes(s@, i as int);
        assert(v@.subrange(0, i as int) =~= s@.take(i as int));
    }
    text_of(&v, 0, i)
}

/// The version that the name of a store entry carries for a package: what
/// follows the package's name and an at sign, up to the peers.
pub open spec fn entry_version(entry: Seq<char>, name: Seq<char>) -> Option<Seq<char>> {
    match after_prefix(entry, with_char_replaced(name, '/', "+"@) + "@"@) {
        Some(rest) => if before_peers(rest).len() == 0 {
            None
        } else {
            Some(before_peers(rest))
        },
        None => None,
    }
}

pub fn version_of_entry(entry: &str, name: &str) -> (r: Option<String>)
    ensures
        r.deep_view() == entry_version(entry@, name@),
{
    let start = concat(replace_char(name, '/', "+").as_str(), "@");
    match strip_prefix(entry, start.as_str()) {
        Some(rest) => {
            let version = cut_peers(rest.as_str());
            if version.as_str().is_empty() {
                None
            } else {
                Some(version)
            }
        },
        None => None,
    }
}

pub open spec fn labelled(name: Seq<char>, version: Option<Seq<char>>) -> Seq<char> {
    match version {
        Some(version) => name + "@"@ + version,
        None => name,
    }
}

/// A package's name, with its version where that is known.
pub fn label(name: &str, version: Option<String>) -> (r: String)
    ensures
        r@ == labelled(name@, version.deep_view()),
{
    match version {
        Some(version) => concat3(name, "@", version.as_str()),
        None => name.to_owned(),
    }
}

/// The label of a path, from what the three layouts find in it: an isolated
/// store's entry and package, a cache's package and version, a flat install's
/// directory and package. The first layout that fits decides. A flat install's
/// version is what the package declares; a relative directory names none.
pub open spec fn layout_label(
    store: Option<(Seq<char>, Seq<char>)>,
    cache: Option<(Seq<char>, Seq<char>)>,
    flat: Option<(Seq<char>, Seq<char>)>,
    versions: Map<Seq<char>, Seq<char>>,
) -> Option<Seq<char>> {
    match store {
        Some((entry, name)) => Some(labelled(name, entry_version(entry, name))),
        None => match cache {
            Some((name, version)) => Some(labelled(name, Some(version))),
            None => match flat {
                Some((directory, name)) => Some(labelled(name, known_version(directory + name, versions))),
                None => None,
            },
        },
    }
}

/// The version that the package in a directory declares, as far as one is known.
pub open spec fn known_version(directory: Seq<char>, versions: Map<Seq<char>, Seq<char>>) -> Option<Seq<char>> {
    if has_prefix(directory, "/"@) && versions.contains_key(directory) {
        Some(versions[directory])
    } else {
        None
    }
}

/// The label that what the layouts found in a path gives it.
pub fn label_of_layouts(
    store: Option<(String, String)>,
    cache: Option<(String, String)>,
    flat: Option<(String, String)>,
    versions: &TextMap<String>,
) -> (r: Option<String>)
    ensures
        r.deep_view() == layout_label(store.deep_view(), cache.deep_view(), flat.deep_view(), versions.deep_view()),
{
    match store {
        Some((entry, name)) => Some(
            label(name.as_str(), version_of_entry(entry.as_str(), name.as_str())),
        ),
        None => match cache {
            Some((name, version)) => Some(label(name.as_str(), Some(version))),
            None => match flat {
                Some((directory, name)) => {
                    let package = concat(directory.as_str(), name.as_str());
                    Some(label(name.as_str(), installed_version(package.as_str(), versions)))
                },
                None => None,
            },
        },
    }
}

/// The version that a package's manifest declares.
pub open spec fn manifest_version(manifest: JsonModel) -> Option<Seq<char>> {
    match member(manifest, "version"@) {
        Some(JsonModel::Text(version)) => Some(version),
        _ => None,
    }
}

pub fn declared_version(manifest: &Json) -> (r: Option<String>)
    ensures
        r.deep_view() == manifest_version(json_model(*manifest)),
{
    match get_member(manifest, "version") {
        Some(Json::Text(version)) => Some(version.clone()),
        _ => None,
    }
}

fn installed_version(package: &str, versions: &TextMap<String>) -> (r: Option<String>)
    ensures
        r.deep_view() == known_version(package@, versions.deep_view()),
{
    if !starts_with(package, "/") {
        return None;
    }
    match versions.get(package) {
        Some(version) => {
            assert(versions.deep_view()[package@] == version@);
            Some(version.clone())
        },
        None => None,
    }
}

/// What the layouts find in a path with forward slashes.
pub open spec fn path_label(path: Seq<char>, versions: Map<Seq<char>, Seq<char>>) -> Option<Seq<char>> {
    layout_label(
        group_pair(groups_in(ISOLATED_STORE@, path), 1, 2),
        group_pair(groups_in(NPM_CACHE@, path), 1, 2),
        group_pair(groups_in(FLAT_NODE_MODULES@, path), 1, 2),
        versions,
    )
}

fn label_with(path: &str, versions: &TextMap<String>) -> (r: Option<String>)
    ensures
        r.deep_view() == path_label(path@, versions.deep_view()),
{
    label_of_layouts(
        two_groups(captures(ISOLATED_STORE, path), 1, 2),
        two_groups(captures(NPM_CACHE, path), 1, 2),
        two_groups(captures(FLAT_NODE_MODULES, path), 1, 2),
        versions,
    )
}

/// A path token, rewritten once: its label where it has one; else what follows the
/// checkout root in it; else what follows the home directory, from `~`; else
/// the token as it is.
pub open spec fn rewritten_token(
    token: Seq<char>,
    label: Option<Seq<char>>,
    root_prefix: Seq<char>,
    home_prefix: Option<Seq<char>>,
) -> Seq<char> {
    let path = with_char_replaced(token, '\\', "/"@);
    if label is Some {
        label->0
    } else if root_prefix.len() > 0 && first_cut(path, root_prefix) is Some {
        (first_cut(path, root_prefix)->0).1
    } else if home_prefix is Some && first_cut(path, home_prefix->0) is Some {
        "~/"@ + (first_cut(path, home_prefix->0)->0).1
    } else {
        token
    }
}

/// Rewrites a path token once, given the label of its path.
pub fn rewrite_token(token: &str, label: Option<String>, root_prefix: &str, home_prefix: &Option<String>) -> (r: String)
    ensures
        r@ == rewritten_token(token@, label.deep_view(), root_prefix@, home_prefix.deep_view()),
{
    match label {
        Some(label) => label,
        None => {
            let path = replace_char(token, '\\', "/");
            if !root_prefix.is_empty() {
                match split_once(path.as_str(), root_prefix) {
                    Some((_, rest)) => {
                        return rest;
                    },
                    None => {},
                }
            }
            match home_prefix {
                Some(home) => match split_once(path.as_str(), home.as_str()) {
                    Some((_, rest)) => {
                        return concat("~/", rest.as_str());
                    },
                    None => {},
                },
                None => {},
            }
            token.to_owned()
        },
    }
}

/// A path token, rewritten once by what a scrub knows.
pub open spec fn token_step(scrub: PathScrubModel, token: Seq<char>) -> Seq<char> {
    rewritten_token(
        token,
        path_label(with_char_replaced(token, '\\', "/"@), scrub.versions),
        scrub.root_prefix,
        scrub.home_prefix,
    )
}

/// Rewriting once leaves every path token of a text as it is. A text without a
/// slash has none.
pub open spec fn is_settled(scrub: PathScrubModel, text: Seq<char>) -> bool {
    text.contains('/') ==> (matches_in(PATH_TOKEN@, text) matches Some(tokens) ==> forall|i: int|
        0 <= i < tokens.len() ==> token_step(scrub, #[trigger] tokens[i]) == tokens[i])
}

/// What a scrub knows without the versions that packages declare.
pub open spec fn without_versions(scrub: PathScrubModel) -> PathScrubModel {
    PathScrubModel { versions: Map::empty(), ..scrub }
}

/// A path token, rewritten until nothing is left to rewrite in it: a token can
/// name the checkout root or the home directory more than once. A label loses a
/// declared version that would itself be rewritten. What is rewritten further
/// loses a separator, or a name to a tilde.
pub open spec fn scrubbed_token(scrub: PathScrubModel, token: Seq<char>) -> Seq<char>
    decreases separators(token), weight(token),
{
    let once = token_step(scrub, token);
    let plain = token_step(without_versions(scrub), token);
    if is_settled(scrub, token) {
        token
    } else if is_settled(scrub, once) {
        once
    } else if is_lighter(plain, token) {
        scrubbed_token(scrub, plain)
    } else {
        token
    }
}

pub open spec fn scrubbed_tokens(scrub: PathScrubModel, tokens: Seq<Seq<char>>) -> Seq<Seq<char>> {
    tokens.map_values(|token: Seq<char>| scrubbed_token(scrub, token))
}

/// A text with each of its path tokens rewritten and the rest as it was. A text
/// without a slash has none.
pub open spec fn text_pass(scrub: PathScrubModel, text: Seq<char>) -> Seq<char> {
    if text.contains('/') && matches_in(PATH_TOKEN@, text) is Some && pieces_in(PATH_TOKEN@, text) is Some {
        interleaved(pieces_in(PATH_TOKEN@, text)->0, scrubbed_tokens(scrub, matches_in(PATH_TOKEN@, text)->0))
    } else {
        text
    }
}

/// A text in which every path token is rewritten, those too that begin where
/// others were shortened.
pub open spec fn scrubbed_text(scrub: PathScrubModel, text: Seq<char>) -> Seq<char>
    decreases separators(text), weight(text),
{
    let once = text_pass(scrub, text);
    if is_settled(scrub, text) {
        text
    } else if is_settled(scrub, once) {
        once
    } else if is_lighter(once, text) {
        scrubbed_text(scrub, once)
    } else {
        text
    }
}

/// The rewriting leaves every path token of a text as it is.
pub open spec fn tokens_untouched(scrub: PathScrubModel, text: Seq<char>) -> bool {
    matches_in(PATH_TOKEN@, text) matches Some(tokens) ==> forall|i: int|
        0 <= i < tokens.len() ==> scrubbed_token(scrub, #[trigger] tokens[i]) == tokens[i]
}

/// The package directory whose declared version a token's label rests on: an
/// absolute flat install that neither of the other layouts covers.
pub open spec fn token_package(token: Seq<char>) -> Option<Seq<char>> {
    let path = with_char_replaced(token, '\\', "/"@);
    if group_pair(groups_in(ISOLATED_STORE@, path), 1, 2) is Some || group_pair(
        groups_in(NPM_CACHE@, path),
        1,
        2,
    ) is Some {
        None
    } else {
        match group_pair(groups_in(FLAT_NODE_MODULES@, path), 1, 2) {
            Some((directory, name)) => if has_prefix(directory + name, "/"@) {
                Some(directory + name)
            } else {
                None
            },
            None => None,
        }
    }
}

pub open spec fn token_packages(tokens: Seq<Seq<char>>) -> Seq<Seq<char>>
    decreases tokens.len(),
{
    if tokens.len() == 0 {
        Seq::empty()
    } else {
        let before = token_packages(tokens.drop_last());
        match token_package(tokens.last()) {
            Some(package) => before.push(package),
            None => before,
        }
    }
}

/// The package directories whose declared versions the rewriting of a text
/// rests on.
pub open spec fn text_packages(text: Seq<char>) -> Seq<Seq<char>> {
    match matches_in(PATH_TOKEN@, text) {
        Some(tokens) => if text.contains('/') {
            token_packages(tokens)
        } else {
            Seq::empty()
        },
        None => Seq::empty(),
    }
}

fn package_of_token(token: &str) -> (r: Option<String>)
    ensures
        r.deep_view() == token_package(token@),
{
    let path = replace_char(token, '\\', "/");
    if two_groups(captures(ISOLATED_STORE, path.as_str()), 1, 2).is_some() || two_groups(
        captures(NPM_CACHE, path.as_str()),
        1,
        2,
    ).is_some() {
        return None;
    }
    match two_groups(captures(FLAT_NODE_MODULES, path.as_str()), 1, 2) {
        Some((directory, name)) => {
            let package = concat(directory.as_str(), name.as_str());
            if starts_with(package.as_str(), "/") {
                Some(package)
            } else {
                None
            }
        },
        None => None,
    }
}

/// The package directories whose declared versions [`PathScrub::text`] wants to
/// know for a text, in the order of the text.
pub fn packages_in(text: &str) -> (r: Vec<String>)
    ensures
        r.deep_view() == text_packages(text@),
{
    let mut r: Vec<String> = Vec::new();
    assert(r.deep_view() =~= Seq::<Seq<char>>::empty());
    if !contains_char(text, '/') {
        return r;
    }
    let tokens = match find_all(PATH_TOKEN, text) {
        Some(tokens) => tokens,
        None => {
            return r;
        },
    };
    let ghost all = tokens.deep_view();
    let mut i: usize = 0;
    while i < tokens.len()
        invariant
            i <= tokens.len(),
            all == tokens.deep_view(),
            r.deep_view() == token_packages(all.take(i as int)),
        decreases tokens.len() - i,
    {
        let ghost before = r.deep_view();
        assert(all.take(i + 1).drop_last() == all.take(i as int));
        assert(all.take(i + 1).last() == tokens@[i as int]@);
        match package_of_token(tokens[i].as_str()) {
            Some(package) => {
                r.push(package);
                assert(r.deep_view() =~= before.push(package@));
            },
            None => {},
        }
        i += 1;
    }
    assert(all.take(all.len() as int) == all);
    r
}

impl PathScrub {
    /// The rewriting for a checkout root and the home directory of the account,
    /// where it is known. No package's version is known yet.
    pub fn new(repo_root: &str, home: Option<&str>) -> (r: Self)
        ensures
            r.deep_view().root_prefix == prefix_of(repo_root@),
            r.deep_view().home_prefix == (match home.deep_view() {
                Some(home) => if prefix_of(home).len() == 0 {
                    None
                } else {
                    Some(prefix_of(home))
                },
                None => None,
            }),
            r.deep_view().versions == Map::<Seq<char>, Seq<char>>::empty(),
    {
        let home_prefix = match home {
            Some(home) => {
                let p = prefix(home);
                if p.as_str().is_empty() {
                    None
                } else {
                    Some(p)
                }
            },
            None => None,
        };
        let r = PathScrub { root_prefix: prefix(repo_root), home_prefix, versions: TextMap::new() };
        assert(r.versions.deep_view() =~= Map::<Seq<char>, Seq<char>>::empty());
        r
    }

    /// Takes down the version that the package in a directory declares.
    pub fn record_version(&mut self, directory: String, version: String)
        ensures
            final(self).deep_view() == (PathScrubModel {
                versions: old(self).deep_view().versions.insert(directory@, version@),
                ..old(self).deep_view()
            }),
    {
        let ghost before = self.versions@;
        self.versions.insert(directory, version);
        assert(self.versions.deep_view() =~= before.map_values(|v: String| v.deep_view()).insert(directory@, version@));
    }

    /// The text with every machine path token rewritten. A text all of whose
    /// tokens stay as they are is unchanged.
    pub fn text(&self, text: &str) -> (r: String)
        ensures
            r@ == scrubbed_text(self.deep_view(), text@),
            tokens_untouched(self.deep_view(), text@) ==> r@ == text@,
    {
        let ghost scrub = self.deep_view();
        let mut out: String = text.to_owned();
        loop
            invariant
                scrub == self.deep_view(),
                scrubbed_text(scrub, out@) == scrubbed_text(scrub, text@),
                tokens_untouched(scrub, text@) ==> out@ == text@,
            decreases separators(out@), weight(out@),
        {
            if self.is_done(out.as_str()) {
                return out;
            }
            let once = self.pass(out.as_str());
            if self.is_done(once.as_str()) {
                return once;
            }
            if !lighter(once.as_str(), out.as_str()) {
                return out;
            }
            out = once;
        }
    }

    fn pass(&self, text: &str) -> (r: String)
        ensures
            r@ == text_pass(self.deep_view(), text@),
            tokens_untouched(self.deep_view(), text@) ==> r@ == text@,
    {
        if !contains_char(text, '/') {
            return text.to_owned();
        }
        match (split_by(PATH_TOKEN, text), find_all(PATH_TOKEN, text)) {
            (Some(pieces), Some(tokens)) => {
                let rewritten = self.tokens(&tokens);
                proof {
                    assert(pieces.deep_view().len() == pieces.len());
                    assert(rewritten.deep_view().len() == rewritten.len());
                    if tokens_untouched(self.deep_view(), text@) {
                        assert(rewritten.deep_view() =~= tokens.deep_view());
                    }
                }
                interleave(&pieces, &rewritten)
            },
            _ => text.to_owned(),
        }
    }

    fn tokens(&self, tokens: &Vec<String>) -> (r: Vec<String>)
        ensures
            r.deep_view() == scrubbed_tokens(self.deep_view(), tokens.deep_view()),
    {
        let ghost all = scrubbed_tokens(self.deep_view(), tokens.deep_view());
        let mut r: Vec<String> = Vec::new();
        let mut i: usize = 0;
        assert(r.deep_view() =~= all.take(0));
        while i < tokens.len()
            invariant
                i <= tokens.len(),
                all == scrubbed_tokens(self.deep_view(), tokens.deep_view()),
                r.deep_view() == all.take(i as int),
            decreases tokens.len() - i,
        {
            let ghost before = r.deep_view();
            let token = self.token(tokens[i].as_str());
            assert(tokens.deep_view()[i as int] == tokens@[i as int]@);
            assert(all[i as int] == token@);
            r.push(token);
            assert(r.deep_view() =~= before.push(token@));
            assert(all.take(i + 1) =~= all.take(i as int).push(all[i as int]));
            i += 1;
        }
        assert(all.take(all.len() as int) =~= all);
        r
    }

    /// One path token, rewritten.
    fn token(&self, token: &str) -> (r: String)
        ensures
            r@ == scrubbed_token(self.deep_view(), token@),
    {
        let ghost scrub = self.deep_view();
        let unknown: TextMap<String> = TextMap::new();
        assert(unknown.deep_view() =~= Map::<Seq<char>, Seq<char>>::empty());
        let mut out: String = token.to_owned();
        loop
            invariant
                scrub == self.deep_view(),
                unknown.deep_view() == Map::<Seq<char>, Seq<char>>::empty(),
                scrubbed_token(scrub, out@) == scrubbed_token(scrub, token@),
            decreases separators(out@), weight(out@),
        {
            if self.is_done(out.as_str()) {
                return out;
            }
            let once = self.step(out.as_str(), &self.versions);
            if self.is_done(once.as_str()) {
                return once;
            }
            let plain = self.step(out.as_str(), &unknown);
            if !lighter(plain.as_str(), out.as_str()) {
                return out;
            }
            out = plain;
        }
    }

    /// A path token, rewritten once with these versions.
    fn step(&self, token: &str, versions: &TextMap<String>) -> (r: String)
        ensures
            r@ == token_step(
                (PathScrubModel { versions: versions.deep_view(), ..self.deep_view() }),
                token@,
            ),
    {
        let path = replace_char(token, '\\', "/");
        let label = label_with(path.as_str(), versions);
        rewrite_token(token, label, self.root_prefix.as_str(), &self.home_prefix)
    }

    /// Rewriting once changes no path token of a text.
    fn is_done(&self, text: &str) -> (r: bool)
        ensures
            r == is_settled(self.deep_view(), text@),
    {
        if !contains_char(text, '/') {
            return true;
        }
        let tokens = match find_all(PATH_TOKEN, text) {
            Some(tokens) => tokens,
            None => {
                return true;
            },
        };
        let ghost all = tokens.deep_view();
        let mut i: usize = 0;
        while i < tokens.len()
            invariant
                i <= tokens.len(),
                all == tokens.deep_view(),
                all.len() == tokens@.len(),
                text@.contains('/'),
                matches_in(PATH_TOKEN@, text@) == Some(all),
                forall|j: int| 0 <= j < i ==> token_step(self.deep_view(), #[trigger] all[j]) == all[j],
            decreases tokens.len() - i,
        {
            assert(all[i as int] == tokens@[i as int]@);
            let once = self.step(tokens[i].as_str(), &self.versions);
            if !same(once.as_str(), tokens[i].as_str()) {
                proof {
                    let scrub = self.deep_view();
                    assert(PathScrubModel { versions: self.versions.deep_view(), ..scrub } == scrub);
                    let found = matches_in(PATH_TOKEN@, text@)->0;
                    assert(token_step(scrub, found[i as int]) != found[i as int]);
                }
                return false;
            }
            i += 1;
        }
        assert(all.len() == tokens@.len());
        true
    }

    /// The label of a path into an installed package.
    pub fn package_label(&self, path: &str) -> (r: Option<String>)
        ensures
            r.deep_view() == path_label(path@, self.deep_view().versions),
    {
        label_with(path, &self.versions)
    }

    /// Rewrites a text in its place.
    pub fn in_place(&self, text: &mut String)
        ensures
            final(text)@ == scrubbed_text(self.deep_view(), old(text)@),
    {
        let rewritten = self.text(text.as_str());
        if !same(rewritten.as_str(), text.as_str()) {
            *text = rewritten;
        }
    }
}

/// A token that no layout labels and that names neither the checkout root nor
/// the home directory stays as it is, backslashes and all; without a home
/// directory nothing is reported from `~`.
pub proof fn foreign_token_is_untouched(token: Seq<char>, root_prefix: Seq<char>, home_prefix: Option<Seq<char>>)
    requires
        root_prefix.len() > 0 ==> first_cut(with_char_replaced(token, '\\', "/"@), root_prefix) is None,
        home_prefix matches Some(home) ==> first_cut(with_char_replaced(token, '\\', "/"@), home) is None,
    ensures
        rewritten_token(token, None, root_prefix, home_prefix) == token,
{
}

/// Rewriting a token again changes nothing: a label, a path relative to the root
/// and a path from `~` are all left as they are.
pub proof fn a_rewritten_token_is_left_alone(scrub: PathScrubModel, token: Seq<char>)
    ensures
        scrubbed_token(scrub, scrubbed_token(scrub, token)) == scrubbed_token(scrub, token),
    decreases separators(token), weight(token),
{
    let plain = token_step(without_versions(scrub), token);
    if is_lighter(plain, token) {
        a_rewritten_token_is_left_alone(scrub, plain);
    }
}

/// Scrubbing a scrubbed text changes nothing.
pub proof fn a_scrubbed_text_is_left_alone(scrub: PathScrubModel, text: Seq<char>)
    ensures
        scrubbed_text(scrub, scrubbed_text(scrub, text)) == scrubbed_text(scrub, text),
    decreases separators(text), weight(text),
{
    let once = text_pass(scrub, text);
    if is_lighter(once, text) {
        a_scrubbed_text_is_left_alone(scrub, once);
    }
}

/// A token that names the checkout root or the home directory is rewritten: what
/// the rewriting gives is lighter, so it is taken. Only what is reported from `~`
/// already stays, where the home directory itself is called so.
pub proof fn places_are_rewritten_away(token: Seq<char>, root: Seq<char>, home: Seq<char>)
    ensures
        ({
            let path = with_char_replaced(token, '\\', "/"@);
            let root_prefix = prefix_of(root);
            let home_prefix = prefix_of(home);
            &&& root_prefix.len() > 0 && has_text(path, root_prefix) ==> is_lighter(
                rewritten_token(token, None, root_prefix, Some(home_prefix)),
                token,
            )
            &&& home_prefix.len() > 0 && has_text(path, home_prefix) && !(root_prefix.len() > 0 && has_text(
                path,
                root_prefix,
            )) ==> ({
                let out = rewritten_token(token, None, root_prefix, Some(home_prefix));
                is_lighter(out, token) || out == path && home_prefix == "~/"@
            })
        }),
{
    let path = with_char_replaced(token, '\\', "/"@);
    let root_prefix = prefix_of(root);
    let home_prefix = prefix_of(home);
    reveal_strlit("/");
    reveal_strlit("~/");
    slashes_for_backslashes(token);
    if root_prefix.len() > 0 && has_text(path, root_prefix) {
        let (before, rest) = first_cut(path, root_prefix)->0;
        first_cut_shortens(path, root_prefix);
        a_prefix_ends_with_a_slash(root);
        separators_add_up(before + root_prefix, rest);
        separators_add_up(before, root_prefix);
    } else if home_prefix.len() > 0 && has_text(path, home_prefix) {
        let (before, rest) = first_cut(path, home_prefix)->0;
        let h = home_prefix.drop_last();
        let out = "~/"@ + rest;
        first_cut_shortens(path, home_prefix);
        a_prefix_ends_with_a_slash(home);
        separators_add_up(before + home_prefix, rest);
        separators_add_up(before, home_prefix);
        separators_add_up("~/"@, rest);
        weights_add_up(before + home_prefix, rest);
        weights_add_up(before, home_prefix);
        weights_add_up("~/"@, rest);
        assert("~/"@.drop_last() =~= seq!['~']);
        assert(seq!['~'].drop_last() =~= Seq::<char>::empty());
        assert(separators("~/"@) == 1 && weight("~/"@) == 3) by {
            assert(separators(seq!['~'].drop_last()) == 0);
            assert(weight(seq!['~'].drop_last()) == 0);
            assert(separators(seq!['~']) == 0);
            assert(weight(seq!['~']) == 1);
        }
        a_text_weighs(before);
        a_text_weighs(h);
        if !is_lighter(out, token) {
            assert(before.len() == 0);
            assert(h.len() == 1 && h[0] == '~') by {
                assert(h.drop_last().len() == h.len() - 1);
                a_text_weighs(h.drop_last());
            }
            assert(home_prefix =~= "~/"@);
            assert(path =~= out);
        }
    }
}

proof fn a_prefix_ends_with_a_slash(path: Seq<char>)
    ensures
        prefix_of(path).len() > 0 ==> {
            &&& prefix_of(path).len() > 1
            &&& prefix_of(path).last() == '/'
            &&& separators(prefix_of(path)) == separators(prefix_of(path).drop_last()) + 1
            &&& weight(prefix_of(path)) == weight(prefix_of(path).drop_last()) + 2
        },
{
    reveal_strlit("/");
}

proof fn a_text_weighs(s: Seq<char>)
    ensures
        weight(s) >= s.len(),
    decreases s.len(),
{
    if s.len() > 0 {
        a_text_weighs(s.drop_last());
    }
}

} // verus!
