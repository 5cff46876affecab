//! What the printed types of a program are read for.

use crate::engine::type_texts::{
    has_top_type, list_names, literal_scan, mentions_type, receiver_role, stands_as_type, typed_package, usable_text,
    without_literal_contents, LiteralPlace, ReceiverRole,
};
use crate::laws::pairs::{lowercase_words, same_word};
use crate::laws::texts::a_prefix_is_taken_off;
use crate::text::{
    ascii_lowercase, first_at, first_index_is, has_prefix, has_text, occurs_at, trimmed, trimmed_end_of, trimmed_stays,
};
use vstd::prelude::*;

verus! {

// ---------------------------------------------------------------------------
// Literals
// ---------------------------------------------------------------------------

pub open spec fn quotes_text(c: char) -> bool {
    c == '\'' || c == '"' || c == '`'
}

proof fn what_follows_outside_is_read_alone(a: Seq<char>, t: Seq<char>)
    requires
        literal_scan(a).place is Outside,
    ensures
        literal_scan(a + t).kept == literal_scan(a).kept + literal_scan(t).kept,
        literal_scan(a + t).place == literal_scan(t).place,
    decreases t.len(),
{
    if t.len() == 0 {
        assert(a + t =~= a);
        assert(literal_scan(a).kept + Seq::<char>::empty() =~= literal_scan(a).kept);
    } else {
        let init = t.drop_last();
        what_follows_outside_is_read_alone(a, init);
        assert((a + t).drop_last() =~= a + init);
        assert((a + t).last() == t.last());
        let kept = literal_scan(a).kept;
        let c = t.last();
        assert((kept + literal_scan(init).kept).push(c) =~= kept + literal_scan(init).kept.push(c));
        match literal_scan(init).place {
            LiteralPlace::Inside { quote, escaped } => {
                assert((kept + literal_scan(init).kept).push(quote) =~= kept + literal_scan(init).kept.push(quote));
            },
            LiteralPlace::Outside => {},
        }
    }
}

proof fn a_text_without_quotes_is_kept(s: Seq<char>)
    requires
        forall|i: int| 0 <= i < s.len() ==> !quotes_text(#[trigger] s[i]),
    ensures
        literal_scan(s).kept == s,
        literal_scan(s).place is Outside,
    decreases s.len(),
{
    if s.len() > 0 {
        let init = s.drop_last();
        assert forall|i: int| 0 <= i < init.len() implies !quotes_text(#[trigger] init[i]) by {
            assert(init[i] == s[i]);
        }
        a_text_without_quotes_is_kept(init);
        assert(!quotes_text(s[s.len() - 1]));
        assert(init.push(s.last()) =~= s);
    }
}

proof fn a_literal_is_emptied(quote: char, inner: Seq<char>)
    requires
        quotes_text(quote),
        !inner.contains(quote),
        !inner.contains('\\'),
    ensures
        literal_scan(seq![quote] + inner).kept == seq![quote],
        literal_scan(seq![quote] + inner).place == (LiteralPlace::Inside { quote, escaped: false }),
    decreases inner.len(),
{
    let s = seq![quote] + inner;
    if inner.len() == 0 {
        assert(s =~= seq![quote]);
        assert(s.drop_last() =~= Seq::<char>::empty());
        assert(literal_scan(s.drop_last()).kept =~= Seq::<char>::empty());
        assert(literal_scan(s).kept =~= seq![quote]);
    } else {
        let init = inner.drop_last();
        assert(inner.contains(inner.last()));
        assert forall|i: int| 0 <= i < init.len() implies init[i] != quote && init[i] != '\\' by {
            assert(inner.contains(inner[i]));
        }
        a_literal_is_emptied(quote, init);
        assert(s.drop_last() =~= seq![quote] + init);
        assert(s.last() == inner.last());
    }
}

/// What a string literal says does not count: a text reads as if the literal
/// were empty.
pub proof fn what_a_literal_says_does_not_count(before: Seq<char>, quote: char, inner: Seq<char>, behind: Seq<char>)
    requires
        forall|i: int| 0 <= i < before.len() ==> !quotes_text(#[trigger] before[i]),
        quotes_text(quote),
        !inner.contains(quote),
        !inner.contains('\\'),
    ensures
        without_literal_contents(before + (seq![quote] + inner + seq![quote]) + behind) == before + seq![quote, quote]
            + without_literal_contents(behind),
{
    let literal = seq![quote] + inner + seq![quote];
    a_text_without_quotes_is_kept(before);
    a_literal_is_emptied(quote, inner);
    assert(literal.drop_last() =~= seq![quote] + inner);
    assert(literal.last() == quote);
    assert(literal_scan(literal).kept =~= seq![quote, quote]);
    assert(literal_scan(literal).place is Outside);
    what_follows_outside_is_read_alone(before, literal);
    what_follows_outside_is_read_alone(before + literal, behind);
}

// ---------------------------------------------------------------------------
// Top types
// ---------------------------------------------------------------------------

/// A word stands at a place of a text as a type: no letter, digit, underscore or
/// dollar sign touches it, and it is not the name of a property.
pub open spec fn is_type_at(s: Seq<char>, word: Seq<char>, i: int) -> bool {
    let end = i + word.len();
    &&& 0 <= i
    &&& end <= s.len()
    &&& s.subrange(i, end) == word
    &&& i > 0 ==> !in_word(s[i - 1])
    &&& end < s.len() ==> !in_word(s[end]) && s[end] != ':'
    &&& end + 1 < s.len() ==> !(s[end] == '?' && s[end + 1] == ':')
}

pub open spec fn in_word(c: char) -> bool {
    ('a' <= c <= 'z') || ('A' <= c <= 'Z') || ('0' <= c <= '9') || c == '_' || c == '$'
}

proof fn words_stand_as_types(s: Seq<char>, word: Seq<char>, i: int)
    ensures
        stands_as_type(s, word, i) <==> is_type_at(s, word, i),
{
}

/// A text without literals has a top type exactly where `any` or `unknown` stands
/// in it as a type.
pub proof fn a_top_type_is_any_or_unknown(text: Seq<char>)
    requires
        forall|i: int| 0 <= i < text.len() ==> !quotes_text(#[trigger] text[i]),
    ensures
        has_top_type(text) <==> has_type(text, "any"@) || has_type(text, "unknown"@),
{
    a_text_without_quotes_is_kept(text);
    types_are_mentioned(text, "any"@);
    types_are_mentioned(text, "unknown"@);
}

pub open spec fn has_type(s: Seq<char>, word: Seq<char>) -> bool {
    exists|i: int| is_type_at(s, word, i)
}

proof fn types_are_mentioned(s: Seq<char>, word: Seq<char>)
    ensures
        mentions_type(s, word) <==> has_type(s, word),
{
    if mentions_type(s, word) {
        let i = choose|i: int| stands_as_type(s, word, i);
        words_stand_as_types(s, word, i);
        assert(is_type_at(s, word, i));
    }
    if has_type(s, word) {
        let i = choose|i: int| is_type_at(s, word, i);
        words_stand_as_types(s, word, i);
        assert(stands_as_type(s, word, i));
    }
}

/// A text is usable as it is where there is nothing around it and no top type in
/// it, and what is usable of a text has neither.
pub proof fn a_usable_text_says_something(text: Seq<char>)
    ensures
        usable_text(text) matches Some(bare) ==> bare.len() > 0 && !has_top_type(bare) && trimmed(bare) == bare,
        text.len() > 0 && trimmed(text) == text && text.last() != ';' && !has_top_type(text) ==> usable_text(text) == Some(text),
        text.len() > 0 && trimmed(text) == text && text.last() != ';' && has_top_type(text) ==> usable_text(text) is None,
{
    trimmed_stays(trimmed_end_of(trimmed(text), ';'));
}

// ---------------------------------------------------------------------------
// Receivers
// ---------------------------------------------------------------------------

/// A list names a package, in either case and with space around it or not.
pub open spec fn names_package(list: Seq<Seq<char>>, package: Seq<char>) -> bool {
    exists|i: int| 0 <= i < list.len() && same_word(trimmed(#[trigger] list[i]), package)
}

proof fn lists_name_packages(list: Seq<Seq<char>>, package: Seq<char>)
    ensures
        list_names(list, package) <==> names_package(list, package),
{
    if list_names(list, package) {
        let i = choose|i: int|
            0 <= i < list.len() && ascii_lowercase(trimmed(#[trigger] list[i])) == ascii_lowercase(package);
        lowercase_words(trimmed(list[i]), package);
        assert(same_word(trimmed(list[i]), package));
    }
    if names_package(list, package) {
        let i = choose|i: int| 0 <= i < list.len() && same_word(trimmed(#[trigger] list[i]), package);
        lowercase_words(trimmed(list[i]), package);
        assert(ascii_lowercase(trimmed(list[i])) == ascii_lowercase(package));
    }
}

/// A receiver serves where its package is named a framework and no data fetcher,
/// fetches where it is the other way round, and is neither in any other case,
/// or where its type says nothing.
pub proof fn a_receiver_is_what_its_package_is(
    type_string: Seq<char>,
    package: Seq<char>,
    frameworks: Seq<Seq<char>>,
    data_fetchers: Seq<Seq<char>>,
)
    ensures
        receiver_role(type_string, None, frameworks, data_fetchers) is None,
        has_top_type(type_string) ==> receiver_role(type_string, Some(package), frameworks, data_fetchers) is None,
        !has_top_type(type_string) ==> {
            let role = receiver_role(type_string, Some(package), frameworks, data_fetchers);
            let typed = typed_package(package);
            &&& role == Some(ReceiverRole::Server) <==> names_package(frameworks, typed) && !names_package(data_fetchers, typed)
            &&& role == Some(ReceiverRole::Client) <==> names_package(data_fetchers, typed) && !names_package(frameworks, typed)
        },
{
    lists_name_packages(frameworks, typed_package(package));
    lists_name_packages(data_fetchers, typed_package(package));
}

/// The types of a package stand for the package, the types of a scoped one for
/// the package in its scope, and any other package for itself.
pub proof fn types_stand_for_their_package(scope: Seq<char>, name: Seq<char>)
    ensures
        !has_text(name, "__"@) ==> typed_package("@types/"@ + name) == name,
        (forall|j: int| 0 <= j < scope.len() ==> !occurs_at(scope + "__"@ + name, "__"@, j)) ==> typed_package(
            "@types/"@ + (scope + "__"@ + name),
        ) == "@"@ + scope + "/"@ + name,
        !has_prefix(name, "@types/"@) ==> typed_package(name) == name,
{
    a_prefix_is_taken_off("@types/"@, name);
    let whole = scope + "__"@ + name;
    a_prefix_is_taken_off("@types/"@, whole);
    if forall|j: int| 0 <= j < scope.len() ==> !occurs_at(whole, "__"@, j) {
        let i = scope.len() as int;
        assert(whole.subrange(i, i + "__"@.len()) =~= "__"@);
        assert(first_at(whole, "__"@, 0, i));
        first_index_is(whole, "__"@, i);
        assert(whole.take(i) =~= scope);
        assert(whole.skip(i + "__"@.len()) =~= name);
    }
}

} // verus!
