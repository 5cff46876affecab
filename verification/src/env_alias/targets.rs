//! Call targets whose base is a binding of the file.

use crate::ordered::{text_at, TextMap};
use crate::text::{
    after_prefix, before_suffix, chars_of, concat, concat3, first_cut, has_prefix, last_cut, quotes, rsplit_once, same, split_once, starts_with,
    strip_prefix, strip_suffix, text_of, trim, trim_back, trim_end_char, trim_end_quotes, trim_front, trim_front_leaves_the_end,
    trim_start_quotes, trimmed, trimmed_end_of,
};
use vstd::prelude::*;

verus! {

/// What a target begins with: the quotes before it, the name that its first
/// interpolation holds, and what follows that. The base of a URL stands there
/// and nowhere else.
pub open spec fn leading_slot(target: Seq<char>) -> Option<(Seq<char>, Seq<char>, Seq<char>)> {
    let bare = trim_front(target, quotes());
    match after_prefix(bare, "${"@) {
        Some(rest) => match first_cut(rest, "}"@) {
            Some((name, behind)) => Some((target.take(target.len() - bare.len()), name, behind)),
            None => None,
        },
        None => None,
    }
}

fn read_slot(target: &str) -> (r: Option<(String, String, String)>)
    ensures
        r.deep_view() == leading_slot(target@),
{
    let bare = trim_start_quotes(target);
    match strip_prefix(bare.as_str(), "${") {
        Some(rest) => match split_once(rest.as_str(), "}") {
            Some((name, behind)) => {
                let v = chars_of(target);
                let w = chars_of(bare.as_str());
                proof {
                    trim_front_leaves_the_end(target@, quotes());
                    assert(v@.subrange(0, v@.len() - w@.len()) =~= target@.take(target@.len() - bare@.len()));
                }
                Some((text_of(&v, 0, v.len() - w.len()), name, behind))
            },
            None => None,
        },
        None => None,
    }
}

/// A target with its leading binding written as the environment variable that
/// the binding reads; nothing where it reads none.
pub open spec fn env_target(target: Seq<char>, aliases: Map<Seq<char>, Seq<char>>) -> Option<Seq<char>> {
    match leading_slot(target) {
        Some((front, name, behind)) => if aliases.contains_key(name) {
            Some(front + "${process.env."@ + aliases[name] + "}"@ + behind)
        } else {
            None
        },
        None => None,
    }
}

pub fn resolve_target_env_alias(target: &str, aliases: &TextMap<String>) -> (r: Option<String>)
    ensures
        r.deep_view() == env_target(target@, aliases.deep_view()),
{
    match read_slot(target) {
        Some((front, name, behind)) => match text_at(aliases, name.as_str()) {
            Some(env_name) => {
                let mut r = concat3(front.as_str(), "${process.env.", env_name.as_str());
                r.append("}");
                r.append(behind.as_str());
                Some(r)
            },
            None => None,
        },
        None => None,
    }
}

/// A target with its leading binding written as the URL that the binding holds,
/// with one slash at the join; nothing where it holds none.
pub open spec fn literal_target(target: Seq<char>, bases: Map<Seq<char>, Seq<char>>) -> Option<Seq<char>> {
    match leading_slot(target) {
        Some((front, name, behind)) => if bases.contains_key(name) {
            Some(
                front + (if has_prefix(behind, "/"@) {
                    trimmed_end_of(bases[name], '/')
                } else {
                    bases[name]
                }) + behind,
            )
        } else {
            None
        },
        None => None,
    }
}

pub fn resolve_target_literal_base(target: &str, bases: &TextMap<String>) -> (r: Option<String>)
    ensures
        r.deep_view() == literal_target(target@, bases.deep_view()),
{
    match read_slot(target) {
        Some((front, name, behind)) => match text_at(bases, name.as_str()) {
            Some(base) => {
                if starts_with(behind.as_str(), "/") {
                    Some(concat3(front.as_str(), trim_end_char(base.as_str(), '/').as_str(), behind.as_str()))
                } else {
                    Some(concat3(front.as_str(), base.as_str(), behind.as_str()))
                }
            },
            None => None,
        },
        None => None,
    }
}

// ---------------------------------------------------------------------------
// URL literals
// ---------------------------------------------------------------------------

/// What follows the scheme of an absolute URL.
pub open spec fn after_scheme(literal: Seq<char>) -> Option<Seq<char>> {
    match after_prefix(literal, "http://"@) {
        Some(rest) => Some(rest),
        None => after_prefix(literal, "https://"@),
    }
}

fn strip_scheme(literal: &str) -> (r: Option<String>)
    ensures
        r.deep_view() == after_scheme(literal@),
{
    match strip_prefix(literal, "http://") {
        Some(rest) => Some(rest),
        None => strip_prefix(literal, "https://"),
    }
}

/// The path of an absolute URL, empty where it states none or only the root.
/// Another literal has no path.
pub open spec fn url_path(literal: Seq<char>) -> Option<Seq<char>> {
    match after_scheme(literal) {
        Some(rest) => match first_cut(rest, "/"@) {
            Some((_, path)) => if path.len() == 0 {
                Some(Seq::empty())
            } else {
                Some("/"@ + path)
            },
            None => Some(Seq::empty()),
        },
        None => None,
    }
}

pub fn url_literal_path(literal: &str) -> (r: Option<String>)
    ensures
        r.deep_view() == url_path(literal@),
{
    match strip_scheme(literal) {
        Some(rest) => match split_once(rest.as_str(), "/") {
            Some((_, path)) => {
                if path.as_str().is_empty() {
                    Some(String::new())
                } else {
                    Some(concat("/", path.as_str()))
                }
            },
            None => Some(String::new()),
        },
        None => None,
    }
}

/// What a text holds before the first of the characters that end an authority.
pub open spec fn authority(s: Seq<char>) -> Seq<char>
    decreases s.len(),
{
    if s.len() == 0 || s[0] == '/' || s[0] == '?' || s[0] == '#' {
        Seq::empty()
    } else {
        seq![s[0]] + authority(s.skip(1))
    }
}

proof fn authority_takes(s: Seq<char>, i: int)
    requires
        0 <= i <= s.len(),
        forall|j: int| 0 <= j < i ==> s[j] != '/' && s[j] != '?' && s[j] != '#',
        i < s.len() ==> s[i] == '/' || s[i] == '?' || s[i] == '#',
    ensures
        authority(s) == s.take(i),
    decreases i,
{
    if i == 0 {
        assert(s.take(0) =~= Seq::<char>::empty());
    } else {
        let t = s.skip(1);
        assert forall|j: int| 0 <= j < i - 1 implies t[j] != '/' && t[j] != '?' && t[j] != '#' by {
            assert(t[j] == s[j + 1]);
        }
        authority_takes(t, i - 1);
        assert(s.take(i) =~= seq![s[0]] + t.take(i - 1));
    }
}

fn read_authority(s: &str) -> (r: String)
    ensures
        r@ == authority(s@),
{
    let v = chars_of(s);
    let mut i: usize = 0;
    while i < v.len() && v[i] != '/' && v[i] != '?' && v[i] != '#'
        invariant
            i <= v.len(),
            forall|j: int| 0 <= j < i ==> v@[j] != '/' && v@[j] != '?' && v@[j] != '#',
        decreases v.len() - i,
    {
        i += 1;
    }
    proof {
        authority_takes(s@, i as int);
        assert(v@.subrange(0, i as int) =~= s@.take(i as int));
    }
    text_of(&v, 0, i)
}

/// What stands before a text's first occurrence of another, or all of it.
pub open spec fn up_to(s: Seq<char>, end: Seq<char>) -> Seq<char> {
    match first_cut(s, end) {
        Some((before, _)) => before,
        None => s,
    }
}

fn cut_at(s: &str, end: &str) -> (r: String)
    ensures
        r@ == up_to(s@, end@),
{
    match split_once(s, end) {
        Some((before, _)) => before,
        None => s.to_owned(),
    }
}

/// The host of an authority: behind the user, before the port, and without the
/// brackets of a numeric address.
pub open spec fn host_of(authority: Seq<char>) -> Seq<char> {
    let behind = match last_cut(authority, '@') {
        Some((_, behind)) => behind,
        None => authority,
    };
    match after_prefix(behind, "["@) {
        Some(rest) => up_to(rest, "]"@),
        None => up_to(behind, ":"@),
    }
}

fn read_host(authority: &str) -> (r: String)
    ensures
        r@ == host_of(authority@),
{
    let behind = match rsplit_once(authority, '@') {
        Some((_, behind)) => behind,
        None => authority.to_owned(),
    };
    match strip_prefix(behind.as_str(), "[") {
        Some(rest) => cut_at(rest.as_str(), "]"),
        None => cut_at(behind.as_str(), ":"),
    }
}

/// The spellings of this machine.
pub open spec fn is_loopback_host(host: Seq<char>) -> bool {
    host == "localhost"@ || host == "127.0.0.1"@ || host == "0.0.0.0"@ || host == "::1"@
}

/// An absolute URL on this machine.
pub open spec fn is_loopback(literal: Seq<char>) -> bool {
    after_scheme(literal) matches Some(rest) && is_loopback_host(host_of(authority(rest)))
}

pub fn is_loopback_origin(literal: &str) -> (r: bool)
    ensures
        r == is_loopback(literal@),
{
    match strip_scheme(literal) {
        Some(rest) => {
            let host = read_host(read_authority(rest.as_str()).as_str());
            same(host.as_str(), "localhost") || same(host.as_str(), "127.0.0.1") || same(host.as_str(), "0.0.0.0") || same(
                host.as_str(),
                "::1",
            )
        },
        None => false,
    }
}

// ---------------------------------------------------------------------------
// Targets that are a whole URL
// ---------------------------------------------------------------------------

/// The name that a target consists of: without quotes and white space, and out
/// of an interpolation that is all there is.
pub open spec fn whole_name(target: Seq<char>) -> Seq<char> {
    let bare = trimmed(trim_back(trim_front(trimmed(target), quotes()), quotes()));
    trimmed(
        match after_prefix(bare, "${"@) {
            Some(rest) => match before_suffix(rest, "}"@) {
                Some(name) => name,
                None => bare,
            },
            None => bare,
        },
    )
}

fn read_name(target: &str) -> (r: String)
    ensures
        r@ == whole_name(target@),
{
    let unquoted = trim_end_quotes(trim_start_quotes(trim(target).as_str()).as_str());
    let bare = trim(unquoted.as_str());
    match strip_prefix(bare.as_str(), "${") {
        Some(rest) => match strip_suffix(rest.as_str(), "}") {
            Some(name) => trim(name.as_str()),
            None => trim(bare.as_str()),
        },
        None => trim(bare.as_str()),
    }
}

/// The environment variable behind a target that is nothing but a binding or a
/// read of the environment, and the URL that its declaration falls back to.
pub open spec fn whole_url(
    target: Seq<char>,
    aliases: Map<Seq<char>, Seq<char>>,
    fallbacks: Map<Seq<char>, Seq<char>>,
) -> Option<(Seq<char>, Seq<char>)> {
    let name = whole_name(target);
    let variable = match after_prefix(name, "process.env."@) {
        Some(variable) => Some(variable),
        None => if aliases.contains_key(name) {
            Some(aliases[name])
        } else {
            None
        },
    };
    match variable {
        Some(variable) => if fallbacks.contains_key(name) {
            Some((variable, fallbacks[name]))
        } else if fallbacks.contains_key(variable) {
            Some((variable, fallbacks[variable]))
        } else {
            None
        },
        None => None,
    }
}

fn whole_url_binding(target: &str, aliases: &TextMap<String>, fallbacks: &TextMap<String>) -> (r: Option<(String, String)>)
    ensures
        r.deep_view() == whole_url(target@, aliases.deep_view(), fallbacks.deep_view()),
{
    let name = read_name(target);
    let variable = match strip_prefix(name.as_str(), "process.env.") {
        Some(variable) => variable,
        None => match text_at(aliases, name.as_str()) {
            Some(variable) => variable.clone(),
            None => {
                return None;
            },
        },
    };
    match text_at(fallbacks, name.as_str()) {
        Some(fallback) => Some((variable, fallback.clone())),
        None => match text_at(fallbacks, variable.as_str()) {
            Some(fallback) => {
                let fallback = fallback.clone();
                Some((variable, fallback))
            },
            None => None,
        },
    }
}

/// The target of a whole-URL binding: the variable supplies the origin, the
/// fallback the path.
pub open spec fn whole_url_target(
    target: Seq<char>,
    aliases: Map<Seq<char>, Seq<char>>,
    fallbacks: Map<Seq<char>, Seq<char>>,
) -> Option<Seq<char>> {
    match whole_url(target, aliases, fallbacks) {
        Some((variable, fallback)) => match url_path(fallback) {
            Some(path) => Some("${process.env."@ + variable + "}"@ + path),
            None => None,
        },
        None => None,
    }
}

pub fn resolve_whole_url_target(target: &str, aliases: &TextMap<String>, fallbacks: &TextMap<String>) -> (r: Option<String>)
    ensures
        r.deep_view() == whole_url_target(target@, aliases.deep_view(), fallbacks.deep_view()),
{
    match whole_url_binding(target, aliases, fallbacks) {
        Some((variable, fallback)) => match url_literal_path(fallback.as_str()) {
            Some(path) => {
                let mut r = concat3("${process.env.", variable.as_str(), "}");
                r.append(path.as_str());
                Some(r)
            },
            None => None,
        },
        None => None,
    }
}

/// The URL that a whole-URL call falls back to, where that is on this machine.
pub fn whole_url_local_default(target: &str, aliases: &TextMap<String>, fallbacks: &TextMap<String>) -> (r: Option<String>)
    ensures
        r.deep_view() == (match whole_url(target@, aliases.deep_view(), fallbacks.deep_view()) {
            Some((_, fallback)) => if is_loopback(fallback) {
                Some(fallback)
            } else {
                None
            },
            None => None,
        }),
{
    match whole_url_binding(target, aliases, fallbacks) {
        Some((_, fallback)) => {
            if is_loopback_origin(fallback.as_str()) {
                Some(fallback)
            } else {
                None
            }
        },
        None => None,
    }
}

} // verus!
