//! Printed TypeScript types: which of them state a shape, and what a receiver's type says.

use crate::sidecar::{InferredType, InferredTypeModel, TypeProvenanceModel};
use crate::text::{
    after_prefix, ascii_lowercase, chars_of, concat3, first_cut, has_prefix, is_ascii_digit, is_ascii_letter, occurs,
    occurs_at, same, same_ignoring_case, split_once, starts_with, strip_prefix, text_of_all, trim, trim_end_char,
    trimmed, trimmed_end_of,
};
use vstd::prelude::*;

verus! {

// ---------------------------------------------------------------------------
// Top types
// ---------------------------------------------------------------------------

/// Whether a scan stands inside a quoted literal, and behind an escape in it.
pub enum LiteralPlace {
    Outside,
    Inside { quote: char, escaped: bool },
}

/// A scan of printed type text: what it keeps and where it stands.
pub struct LiteralScan {
    pub kept: Seq<char>,
    pub place: LiteralPlace,
}

pub open spec fn is_quote(c: char) -> bool {
    c == '\'' || c == '"' || c == '`'
}

pub open spec fn literal_step(before: LiteralScan, c: char) -> LiteralScan {
    match before.place {
        LiteralPlace::Outside => LiteralScan {
            kept: before.kept.push(c),
            place: if is_quote(c) {
                LiteralPlace::Inside { quote: c, escaped: false }
            } else {
                LiteralPlace::Outside
            },
        },
        LiteralPlace::Inside { quote, escaped } => if escaped {
            LiteralScan { kept: before.kept, place: LiteralPlace::Inside { quote, escaped: false } }
        } else if c == '\\' {
            LiteralScan { kept: before.kept, place: LiteralPlace::Inside { quote, escaped: true } }
        } else if c == quote {
            LiteralScan { kept: before.kept.push(quote), place: LiteralPlace::Outside }
        } else {
            before
        },
    }
}

pub open spec fn literal_scan(s: Seq<char>) -> LiteralScan
    decreases s.len(),
{
    if s.len() == 0 {
        LiteralScan { kept: Seq::empty(), place: LiteralPlace::Outside }
    } else {
        literal_step(literal_scan(s.drop_last()), s.last())
    }
}

/// Type text with its string literals emptied; the quotes stay.
pub open spec fn without_literal_contents(s: Seq<char>) -> Seq<char> {
    literal_scan(s).kept
}

/// Replaces the contents of string-literal types with nothing, keeping the
/// quotes.
pub fn strip_string_literal_contents(text: &str) -> (r: String)
    ensures
        r@ == without_literal_contents(text@),
{
    let v = chars_of(text);
    let mut out: Vec<char> = Vec::new();
    let mut quote: Option<char> = None;
    let mut escaped: bool = false;
    let mut i: usize = 0;
    while i < v.len()
        invariant
            i <= v.len(),
            literal_scan(v@.take(i as int)) == (LiteralScan {
                kept: out@,
                place: match quote {
                    None => LiteralPlace::Outside,
                    Some(q) => LiteralPlace::Inside { quote: q, escaped },
                },
            }),
        decreases v.len() - i,
    {
        assert(v@.take(i + 1).drop_last() == v@.take(i as int));
        let c = v[i];
        match quote {
            None => {
                out.push(c);
                if c == '\'' || c == '"' || c == '`' {
                    quote = Some(c);
                    escaped = false;
                }
            },
            Some(q) => {
                if escaped {
                    escaped = false;
                } else if c == '\\' {
                    escaped = true;
                } else if c == q {
                    out.push(q);
                    quote = None;
                }
            },
        }
        i += 1;
    }
    assert(v@.take(v@.len() as int) == v@);
    text_of_all(&out)
}

/// A character an identifier can hold.
pub open spec fn is_identifier_char(c: char) -> bool {
    is_ascii_letter(c) || is_ascii_digit(c) || c == '_' || c == '$'
}

/// What stands at `end` makes the word before it a property name: a colon, or
/// a question mark and a colon.
pub open spec fn names_property(s: Seq<char>, end: int) -> bool {
    let colon = if end < s.len() && s[end] == '?' {
        end + 1
    } else {
        end
    };
    colon < s.len() && s[colon] == ':'
}

/// The word stands at `i` as a type: not inside a longer identifier and not as
/// a property name.
pub open spec fn stands_as_type(s: Seq<char>, word: Seq<char>, i: int) -> bool {
    let end = i + word.len();
    &&& occurs_at(s, word, i)
    &&& i == 0 || !is_identifier_char(s[i - 1])
    &&& end == s.len() || !is_identifier_char(s[end])
    &&& !names_property(s, end)
}

pub open spec fn mentions_type(s: Seq<char>, word: Seq<char>) -> bool {
    exists|i: int| stands_as_type(s, word, i)
}

/// `any` or `unknown` stands as a type somewhere in the text, outside string
/// literals.
pub open spec fn has_top_type(text: Seq<char>) -> bool {
    let scrubbed = without_literal_contents(text);
    mentions_type(scrubbed, "any"@) || mentions_type(scrubbed, "unknown"@)
}

fn identifier_char(c: char) -> (r: bool)
    ensures
        r == is_identifier_char(c),
{
    ('a' <= c && c <= 'z') || ('A' <= c && c <= 'Z') || ('0' <= c && c <= '9') || c == '_' || c == '$'
}

fn word_as_type(v: &Vec<char>, word: &str) -> (r: bool)
    ensures
        r == mentions_type(v@, word@),
{
    let w = chars_of(word);
    let mut i: usize = 0;
    while i <= v.len()
        invariant
            i <= v.len() + 1,
            w@ == word@,
            forall|j: int| 0 <= j < i ==> !stands_as_type(v@, word@, j),
        decreases v.len() + 1 - i,
    {
        if occurs(v, &w, i) {
            let end: usize = i + w.len();
            let inside = (i > 0 && identifier_char(v[i - 1])) || (end < v.len() && identifier_char(v[end]));
            let colon: usize = if end < v.len() && v[end] == '?' {
                end + 1
            } else {
                end
            };
            let property = colon < v.len() && v[colon] == ':';
            if !inside && !property {
                assert(stands_as_type(v@, word@, i as int));
                return true;
            }
        }
        if i == v.len() {
            assert forall|j: int| !stands_as_type(v@, word@, j) by {
                if j > v.len() {
                    assert(!occurs_at(v@, word@, j));
                }
            }
            return false;
        }
        i += 1;
    }
    false
}

/// Whether printed type text carries `any` or `unknown` as a type at any
/// position: the whole text, an element, a type argument, a member or an index
/// signature. Such text must never anchor a literal capture, because `any`
/// agrees with every counterparty. String literals and property names do not
/// count.
pub fn contains_disqualifying_top_type(text: &str) -> (r: bool)
    ensures
        r == has_top_type(text@),
{
    let scrubbed = chars_of(strip_string_literal_contents(text).as_str());
    word_as_type(&scrubbed, "any") || word_as_type(&scrubbed, "unknown")
}

// ---------------------------------------------------------------------------
// Receivers
// ---------------------------------------------------------------------------

/// What a call site's receiver says the site is.
#[derive(Debug, Clone, Copy, PartialEq, Eq, Structural)]
pub enum ReceiverRole {
    /// An instance of a package that detection named a server framework: the
    /// site registers a route.
    Server,
    /// An instance of a package that detection named a data fetcher: the site
    /// issues a request.
    Client,
}

/// A list of detected packages names this one, ignoring case and the space
/// around an entry.
pub open spec fn list_names(list: Seq<Seq<char>>, package: Seq<char>) -> bool {
    exists|i: int| 0 <= i < list.len() && ascii_lowercase(trimmed(#[trigger] list[i])) == ascii_lowercase(package)
}

/// The package whose types a declaring package holds: `@types/express` types
/// `express`, and `@types/hapi__hapi` types `@hapi/hapi`.
pub open spec fn typed_package(package: Seq<char>) -> Seq<char> {
    match after_prefix(package, "@types/"@) {
        None => package,
        Some(rest) => match first_cut(rest, "__"@) {
            Some((scope, name)) => "@"@ + scope + "/"@ + name,
            None => rest,
        },
    }
}

pub open spec fn receiver_role(
    type_string: Seq<char>,
    declaring_package: Option<Seq<char>>,
    frameworks: Seq<Seq<char>>,
    data_fetchers: Seq<Seq<char>>,
) -> Option<ReceiverRole> {
    if has_top_type(type_string) {
        None
    } else {
        match declaring_package {
            None => None,
            Some(declared) => {
                let package = typed_package(declared);
                let server = list_names(frameworks, package);
                let client = list_names(data_fetchers, package);
                if server && !client {
                    Some(ReceiverRole::Server)
                } else if client && !server {
                    Some(ReceiverRole::Client)
                } else {
                    None
                }
            },
        }
    }
}

pub fn normalize_declaring_package(package: &str) -> (r: String)
    ensures
        r@ == typed_package(package@),
{
    match strip_prefix(package, "@types/") {
        None => package.to_owned(),
        Some(rest) => match split_once(rest.as_str(), "__") {
            Some((scope, name)) => {
                let mut r = concat3("@", scope.as_str(), "/");
                r.append(name.as_str());
                r
            },
            None => rest,
        },
    }
}

fn names_package(list: &Vec<String>, package: &str) -> (r: bool)
    ensures
        r == list_names(list.deep_view(), package@),
{
    let mut i: usize = 0;
    while i < list.len()
        invariant
            i <= list.len(),
            forall|j: int|
                0 <= j < i ==> ascii_lowercase(trimmed(#[trigger] list.deep_view()[j])) != ascii_lowercase(package@),
        decreases list.len() - i,
    {
        let entry = trim(list[i].as_str());
        assert(list.deep_view()[i as int] == list@[i as int]@);
        if same_ignoring_case(entry.as_str(), package) {
            return true;
        }
        i += 1;
    }
    false
}

/// Maps a receiver's type, as the sidecar resolved it, onto a role. A type
/// with a top type in it states none, nor does one that the workspace itself
/// declares; otherwise the declaring package decides against the two detected
/// lists, and a package in both is ambiguous.
pub fn classify_receiver(
    type_string: &str,
    declaring_package: Option<&str>,
    frameworks: &Vec<String>,
    data_fetchers: &Vec<String>,
) -> (r: Option<ReceiverRole>)
    ensures
        r == receiver_role(
            type_string@,
            declaring_package.deep_view(),
            frameworks.deep_view(),
            data_fetchers.deep_view(),
        ),
{
    if contains_disqualifying_top_type(type_string) {
        return None;
    }
    match declaring_package {
        None => None,
        Some(declared) => {
            let package = normalize_declaring_package(declared);
            let server = names_package(frameworks, package.as_str());
            let client = names_package(data_fetchers, package.as_str());
            if server && !client {
                Some(ReceiverRole::Server)
            } else if client && !server {
                Some(ReceiverRole::Client)
            } else {
                None
            }
        },
    }
}

// ---------------------------------------------------------------------------
// Inferred texts
// ---------------------------------------------------------------------------

/// Type text without the space and the closing semicolons around it.
pub open spec fn bare_text(text: Seq<char>) -> Seq<char> {
    trimmed(trimmed_end_of(trimmed(text), ';'))
}

/// The text of an inference that states a shape.
pub open spec fn usable_text(text: Seq<char>) -> Option<Seq<char>> {
    let bare = bare_text(text);
    if bare.len() == 0 || has_top_type(bare) {
        None
    } else {
        Some(bare)
    }
}

fn bare(text: &str) -> (r: String)
    ensures
        r@ == bare_text(text@),
{
    trim(trim_end_char(trim(text).as_str(), ';').as_str())
}

/// An inferred text is usable as a literal anchor when it carries a shape
/// without a top type in it.
pub fn usable_inferred_text(text: &str) -> (r: Option<String>)
    ensures
        r.deep_view() == usable_text(text@),
{
    let trimmed = bare(text);
    if trimmed.as_str().is_empty() || contains_disqualifying_top_type(trimmed.as_str()) {
        None
    } else {
        Some(trimmed)
    }
}

/// The text is a top type and nothing else.
pub open spec fn is_bare_top_type(text: Seq<char>) -> bool {
    bare_text(text) == "any"@ || bare_text(text) == "unknown"@
}

/// Whether a printed type carries no shape whatever: it is a top type, rather
/// than a shape with one somewhere inside it.
pub fn text_is_bare_top_type(text: &str) -> (r: bool)
    ensures
        r == is_bare_top_type(text@),
{
    let trimmed = bare(text);
    same(trimmed.as_str(), "any") || same(trimmed.as_str(), "unknown")
}

/// The inference saw nothing at the use site: no symbol, no array depth, no
/// shape.
pub open spec fn is_blind(inf: InferredTypeModel) -> bool {
    inf.primary_type_symbol is None && inf.array_depth is None && is_bare_top_type(inf.type_string)
}

pub fn inference_was_blind(inf: &InferredType) -> (r: bool)
    ensures
        r == is_blind(inf.deep_view()),
{
    inf.primary_type_symbol.is_none() && inf.array_depth.is_none() && text_is_bare_top_type(inf.type_string.as_str())
}

/// The reasons with which an inferrer decides that a payload has no contract,
/// as opposed to failing to see one.
pub open spec fn is_abstain_reason(reason: Seq<char>) -> bool {
    reason == "no_success_payload"@ || reason == "no_request_body"@ || reason == "projected_value_only"@
}

/// A finding at the root of a type that decides there is no contract.
pub open spec fn decides_abstain(p: TypeProvenanceModel) -> bool {
    p.path.len() == 0 && is_abstain_reason(p.reason)
}

pub open spec fn is_decided(inf: InferredTypeModel) -> bool {
    is_bare_top_type(inf.type_string) && exists|i: int|
        0 <= i < inf.any_provenance.len() && decides_abstain(#[trigger] inf.any_provenance[i])
}

/// Whether an inference answered a top type because the inferrer read the use
/// site and decided that nothing there is a contract. That answer is final.
pub fn inference_decided_no_contract(inf: &InferredType) -> (r: bool)
    ensures
        r == is_decided(inf.deep_view()),
{
    if !text_is_bare_top_type(inf.type_string.as_str()) {
        return false;
    }
    let list = &inf.any_provenance;
    let mut i: usize = 0;
    while i < list.len()
        invariant
            i <= list.len(),
            list == inf.any_provenance,
            is_bare_top_type(inf.type_string@),
            forall|j: int| 0 <= j < i ==> !decides_abstain(#[trigger] inf.deep_view().any_provenance[j]),
        decreases list.len() - i,
    {
        let reason = list[i].reason.as_str();
        assert(inf.deep_view().any_provenance[i as int] == list@[i as int].deep_view());
        if list[i].path.as_str().is_empty() && (same(reason, "no_success_payload") || same(reason, "no_request_body")
            || same(reason, "projected_value_only")) {
            assert(decides_abstain(inf.deep_view().any_provenance[i as int]));
            return true;
        }
        i += 1;
    }
    false
}

/// The text begins a declaration, so it cannot stand behind `export type A =`.
pub open spec fn is_declaration(text: Seq<char>) -> bool {
    ||| has_prefix(text, "interface "@)
    ||| has_prefix(text, "type "@)
    ||| has_prefix(text, "class "@)
    ||| has_prefix(text, "enum "@)
    ||| has_prefix(text, "namespace "@)
    ||| has_prefix(text, "declare "@)
    ||| has_prefix(text, "export "@)
    ||| has_prefix(text, "abstract "@)
    ||| has_prefix(text, "function "@)
}

/// The text that can replace a demoted anchor.
pub open spec fn backfill_text(text: Seq<char>) -> Option<Seq<char>> {
    match usable_text(text) {
        Some(bare) if !is_declaration(bare) => Some(bare),
        _ => None,
    }
}

/// A held text is usable for a backfill when it is a type expression with a
/// shape: no top type at any position, and not a whole declaration.
pub fn usable_backfill_text(text: &str) -> (r: Option<String>)
    ensures
        r.deep_view() == backfill_text(text@),
{
    match usable_inferred_text(text) {
        None => None,
        Some(bare) => {
            let t = bare.as_str();
            if starts_with(t, "interface ") || starts_with(t, "type ") || starts_with(t, "class ") || starts_with(t, "enum ") || starts_with(
                t,
                "namespace ",
            ) || starts_with(t, "declare ") || starts_with(t, "export ") || starts_with(t, "abstract ") || starts_with(
                t,
                "function ",
            ) {
                None
            } else {
                Some(bare)
            }
        },
    }
}

} // verus!
