//! Text as sequences of characters: the operations the analyses are written in.

use vstd::prelude::*;

verus! {

// ---------------------------------------------------------------------------
// Trusted standard-library functions
// ---------------------------------------------------------------------------

/// `String::push` appends one character at the end of the string.
pub assume_specification[ String::push ](s: &mut String, c: char)
    ensures
        final(s)@ == old(s)@.push(c),
;

/// The Unicode lowercase form of a text, as `str::to_lowercase` computes it.
pub uninterp spec fn unicode_lowercase(s: Seq<char>) -> Seq<char>;

/// The Unicode uppercase form of a text, as `str::to_uppercase` computes it.
pub uninterp spec fn unicode_uppercase(s: Seq<char>) -> Seq<char>;

/// Whether a character has the Unicode `White_Space` property.
pub uninterp spec fn unicode_whitespace(c: char) -> bool;

/// Whether a character is a Unicode letter or number.
pub uninterp spec fn unicode_alphanumeric(c: char) -> bool;

/// `str::to_lowercase`: the result depends on the text alone, and on a text
/// made of ASCII characters it lowers `A` to `Z` and keeps everything else.
#[verifier::external_body]
pub(crate) fn to_lowercase(s: &str) -> (r: String)
    ensures
        r@ == unicode_lowercase(s@),
        is_ascii_text(s@) ==> r@ == ascii_lowercase(s@),
{
    s.to_lowercase()
}

/// `str::to_uppercase`: the result depends on the text alone, and on a text
/// made of ASCII characters it raises `a` to `z` and keeps everything else.
#[verifier::external_body]
pub(crate) fn to_uppercase(s: &str) -> (r: String)
    ensures
        r@ == unicode_uppercase(s@),
        is_ascii_text(s@) ==> r@ == ascii_uppercase(s@),
{
    s.to_uppercase()
}

/// `char::is_whitespace`: a fixed property of the character; among the ASCII
/// characters exactly the space and the five control characters from tab to
/// carriage return have it.
#[verifier::external_body]
pub(crate) fn is_whitespace(c: char) -> (b: bool)
    ensures
        b == unicode_whitespace(c),
        is_ascii_char(c) ==> b == (c == ' ' || '\t' <= c <= '\r'),
{
    c.is_whitespace()
}

/// `char::is_alphanumeric`: a fixed property of the character; among the ASCII
/// characters exactly the letters and the digits have it.
#[verifier::external_body]
pub(crate) fn is_alphanumeric(c: char) -> (b: bool)
    ensures
        b == unicode_alphanumeric(c),
        is_ascii_char(c) ==> b == (is_ascii_letter(c) || is_ascii_digit(c)),
{
    c.is_alphanumeric()
}

// ---------------------------------------------------------------------------
// Characters
// ---------------------------------------------------------------------------

pub open spec fn is_ascii_char(c: char) -> bool {
    c <= '\x7f'
}

pub open spec fn is_ascii_upper(c: char) -> bool {
    'A' <= c <= 'Z'
}

pub open spec fn is_ascii_lower(c: char) -> bool {
    'a' <= c <= 'z'
}

pub open spec fn is_ascii_letter(c: char) -> bool {
    is_ascii_upper(c) || is_ascii_lower(c)
}

pub open spec fn is_ascii_digit(c: char) -> bool {
    '0' <= c <= '9'
}

pub open spec fn lower_char(c: char) -> char {
    if is_ascii_upper(c) {
        (c as u8 + 32) as char
    } else {
        c
    }
}

pub open spec fn upper_char(c: char) -> char {
    if is_ascii_lower(c) {
        (c as u8 - 32) as char
    } else {
        c
    }
}

pub open spec fn is_ascii_text(s: Seq<char>) -> bool {
    forall|i: int| 0 <= i < s.len() ==> is_ascii_char(#[trigger] s[i])
}

pub open spec fn ascii_lowercase(s: Seq<char>) -> Seq<char> {
    s.map_values(|c: char| lower_char(c))
}

pub open spec fn ascii_uppercase(s: Seq<char>) -> Seq<char> {
    s.map_values(|c: char| upper_char(c))
}

// ---------------------------------------------------------------------------
// Building and taking apart
// ---------------------------------------------------------------------------

/// The characters of a text, in order.
pub fn chars_of(s: &str) -> (v: Vec<char>)
    ensures
        v@ == s@,
{
    let mut v: Vec<char> = Vec::new();
    for c in it: s.chars()
        invariant
            it.seq() == s@,
            v@ == s@.take(it.index()),
    {
        v.push(c);
    }
    v
}

/// The text made of the characters from `from` up to `to`.
pub fn text_of(v: &Vec<char>, from: usize, to: usize) -> (s: String)
    requires
        from <= to <= v.len(),
    ensures
        s@ == v@.subrange(from as int, to as int),
{
    let mut s: String = String::new();
    let mut i: usize = from;
    while i < to
        invariant
            from <= i <= to <= v.len(),
            s@ == v@.subrange(from as int, i as int),
        decreases to - i,
    {
        s.push(v[i]);
        assert(v@.subrange(from as int, i + 1) == v@.subrange(from as int, i as int).push(v@[i as int]));
        i += 1;
    }
    s
}

/// Whether two texts are the same.
pub fn same(a: &str, b: &str) -> (r: bool)
    ensures
        r == (a@ == b@),
{
    let x: String = a.to_owned();
    let y: String = b.to_owned();
    x == y
}


/// The text of two texts, one behind the other.
pub fn concat(a: &str, b: &str) -> (r: String)
    ensures
        r@ == a@ + b@,
{
    let mut r: String = a.to_owned();
    r.append(b);
    r
}

/// The text of three texts, one behind the other.
pub fn concat3(a: &str, b: &str, c: &str) -> (r: String)
    ensures
        r@ == a@ + b@ + c@,
{
    let mut r: String = a.to_owned();
    r.append(b);
    r.append(c);
    r
}

/// The text of the characters in a vector.
pub fn text_of_all(v: &Vec<char>) -> (s: String)
    ensures
        s@ == v@,
{
    let s = text_of(v, 0, v.len());
    assert(v@.subrange(0, v@.len() as int) == v@);
    s
}

// ---------------------------------------------------------------------------
// Searching
// ---------------------------------------------------------------------------

/// `p` stands in `s` at position `i`.
pub open spec fn occurs_at(s: Seq<char>, p: Seq<char>, i: int) -> bool {
    0 <= i && i + p.len() <= s.len() && s.subrange(i, i + p.len()) == p
}

/// `p` stands somewhere in `s`.
pub open spec fn has_text(s: Seq<char>, p: Seq<char>) -> bool {
    exists|i: int| occurs_at(s, p, i)
}

pub open spec fn has_prefix(s: Seq<char>, p: Seq<char>) -> bool {
    occurs_at(s, p, 0)
}

pub open spec fn has_suffix(s: Seq<char>, p: Seq<char>) -> bool {
    occurs_at(s, p, s.len() - p.len())
}

/// `i` is the first position, counting from `from`, where `p` stands in `s`.
pub open spec fn first_at(s: Seq<char>, p: Seq<char>, from: int, i: int) -> bool {
    &&& from <= i
    &&& occurs_at(s, p, i)
    &&& forall|j: int| from <= j < i ==> !occurs_at(s, p, j)
}

pub fn occurs(v: &Vec<char>, p: &Vec<char>, i: usize) -> (r: bool)
    ensures
        r == occurs_at(v@, p@, i as int),
{
    if p.len() > v.len() || i > v.len() - p.len() {
        return false;
    }
    let mut k: usize = 0;
    while k < p.len()
        invariant
            k <= p.len(),
            i + p.len() <= v.len(),
            forall|j: int| 0 <= j < k ==> v@[i + j] == p@[j],
        decreases p.len() - k,
    {
        if v[i + k] != p[k] {
            assert(v@.subrange(i as int, i + p.len())[k as int] == v@[i + k]);
            return false;
        }
        k += 1;
    }
    assert(v@.subrange(i as int, i + p.len()) =~= p@);
    true
}

/// The first position at or behind `from` where `p` stands.
pub fn find_from(v: &Vec<char>, p: &Vec<char>, from: usize) -> (r: Option<usize>)
    ensures
        match r {
            Some(i) => first_at(v@, p@, from as int, i as int),
            None => forall|j: int| from <= j ==> !occurs_at(v@, p@, j),
        },
{
    if from > v.len() {
        return None;
    }
    let mut i: usize = from;
    while i < v.len()
        invariant
            from <= i <= v.len(),
            forall|j: int| from <= j < i ==> !occurs_at(v@, p@, j),
        decreases v.len() - i,
    {
        if occurs(v, p, i) {
            return Some(i);
        }
        i += 1;
    }
    if occurs(v, p, i) {
        Some(i)
    } else {
        None
    }
}

pub fn starts_with(s: &str, p: &str) -> (r: bool)
    ensures
        r == has_prefix(s@, p@),
{
    occurs(&chars_of(s), &chars_of(p), 0)
}

pub fn ends_with(s: &str, p: &str) -> (r: bool)
    ensures
        r == has_suffix(s@, p@),
{
    let v = chars_of(s);
    let w = chars_of(p);
    if w.len() > v.len() {
        return false;
    }
    occurs(&v, &w, v.len() - w.len())
}

pub fn contains(s: &str, p: &str) -> (r: bool)
    ensures
        r == has_text(s@, p@),
{
    match find_from(&chars_of(s), &chars_of(p), 0) {
        Some(_) => true,
        None => {
            assert forall|j: int| !occurs_at(s@, p@, j) by {
                if j < 0 {
                }
            }
            false
        },
    }
}

pub fn contains_char(s: &str, c: char) -> (r: bool)
    ensures
        r == s@.contains(c),
{
    let v = chars_of(s);
    let mut i: usize = 0;
    while i < v.len()
        invariant
            i <= v.len(),
            v@ == s@,
            forall|j: int| 0 <= j < i ==> v@[j] != c,
        decreases v.len() - i,
    {
        if v[i] == c {
            return true;
        }
        i += 1;
    }
    false
}

/// What follows `p` in a text that begins with it.
pub open spec fn after_prefix(s: Seq<char>, p: Seq<char>) -> Option<Seq<char>> {
    if has_prefix(s, p) {
        Some(s.skip(p.len() as int))
    } else {
        None
    }
}

pub fn strip_prefix(s: &str, p: &str) -> (r: Option<String>)
    ensures
        r.deep_view() == after_prefix(s@, p@),
{
    let v = chars_of(s);
    let w = chars_of(p);
    if occurs(&v, &w, 0) {
        let rest = text_of(&v, w.len(), v.len());
        assert(v@.subrange(w@.len() as int, v@.len() as int) == v@.skip(w@.len() as int));
        Some(rest)
    } else {
        None
    }
}

/// What stands before `p` in a text that ends with it.
pub open spec fn before_suffix(s: Seq<char>, p: Seq<char>) -> Option<Seq<char>> {
    if has_suffix(s, p) {
        Some(s.take(s.len() - p.len()))
    } else {
        None
    }
}

pub fn strip_suffix(s: &str, p: &str) -> (r: Option<String>)
    ensures
        r.deep_view() == before_suffix(s@, p@),
{
    let v = chars_of(s);
    let w = chars_of(p);
    if w.len() <= v.len() && occurs(&v, &w, v.len() - w.len()) {
        let rest = text_of(&v, 0, v.len() - w.len());
        assert(v@.subrange(0, v@.len() - w@.len()) == v@.take(v@.len() - w@.len()));
        Some(rest)
    } else {
        None
    }
}

// ---------------------------------------------------------------------------
// Splitting and joining
// ---------------------------------------------------------------------------

/// The pieces of a text between the occurrences of a separator character.
pub open spec fn split_at_char(s: Seq<char>, c: char) -> Seq<Seq<char>>
    decreases s.len(),
{
    if s.len() == 0 {
        seq![Seq::<char>::empty()]
    } else {
        let before = split_at_char(s.drop_last(), c);
        if s.last() == c {
            before.push(Seq::<char>::empty())
        } else {
            before.update(before.len() - 1, before.last().push(s.last()))
        }
    }
}

/// The texts of a list with a separator between each two of them.
pub open spec fn joined(parts: Seq<Seq<char>>, sep: Seq<char>) -> Seq<char>
    decreases parts.len(),
{
    if parts.len() == 0 {
        Seq::<char>::empty()
    } else if parts.len() == 1 {
        parts[0]
    } else {
        joined(parts.drop_last(), sep) + sep + parts.last()
    }
}

/// Splitting gives at least one piece, no piece holds the separator, and
/// joining the pieces with the separator gives the text back.
pub proof fn split_then_join(s: Seq<char>, c: char)
    ensures
        split_at_char(s, c).len() >= 1,
        forall|i: int| 0 <= i < split_at_char(s, c).len() ==> !(#[trigger] split_at_char(s, c)[i]).contains(c),
        joined(split_at_char(s, c), seq![c]) == s,
    decreases s.len(),
{
    if s.len() == 0 {
    } else {
        let init = s.drop_last();
        let before = split_at_char(init, c);
        split_then_join(init, c);
        let all = split_at_char(s, c);
        if s.last() == c {
            assert(all.drop_last() == before);
            assert(joined(all, seq![c]) =~= init + seq![c]);
            assert(s =~= init + seq![c]);
        } else {
            assert(all.drop_last() =~= before.drop_last());
            assert(s =~= init.push(s.last()));
            assert forall|i: int| 0 <= i < all.len() implies !(#[trigger] all[i]).contains(c) by {
                if i < all.len() - 1 {
                    assert(all[i] == before[i]);
                } else {
                    let grown = before.last().push(s.last());
                    assert forall|k: int| 0 <= k < grown.len() implies grown[k] != c by {
                        if k < grown.len() - 1 {
                            assert(before[before.len() - 1][k] == grown[k]);
                            assert(!before[before.len() - 1].contains(c));
                        }
                    }
                }
            }
            if before.len() == 1 {
                assert(joined(all, seq![c]) =~= s);
            } else {
                assert(joined(all, seq![c]) =~= joined(before.drop_last(), seq![c]) + seq![c] + before.last().push(s.last()));
                assert(joined(before, seq![c]) =~= joined(before.drop_last(), seq![c]) + seq![c] + before.last());
                assert(joined(all, seq![c]) =~= init.push(s.last()));
            }
        }
    }
}

proof fn split_of_more(s: Seq<char>, t: Seq<char>, c: char)
    requires
        !t.contains(c),
    ensures
        split_at_char(s + t, c) == split_at_char(s, c).update(
            split_at_char(s, c).len() - 1,
            split_at_char(s, c).last() + t,
        ),
    decreases t.len(),
{
    let before = split_at_char(s, c);
    split_then_join(s, c);
    if t.len() == 0 {
        assert(s + t =~= s);
        assert(before.last() + t =~= before.last());
        assert(before.update(before.len() - 1, before.last()) =~= before);
    } else {
        let init = t.drop_last();
        assert forall|i: int| 0 <= i < init.len() implies init[i] != c by {
            assert(t[i] == init[i]);
            assert(t.contains(t[i]));
        }
        split_of_more(s, init, c);
        assert((s + t).drop_last() =~= s + init);
        assert(t.last() != c) by {
            assert(t.contains(t.last()));
        }
        let grown = before.update(before.len() - 1, before.last() + init);
        assert((before.last() + init).push(t.last()) =~= before.last() + t);
        assert(grown.update(grown.len() - 1, grown.last().push(t.last())) =~= before.update(
            before.len() - 1,
            before.last() + t,
        ));
    }
}

/// Pieces that do not hold the separator are found again once they are joined
/// with it.
pub proof fn join_then_split(parts: Seq<Seq<char>>, c: char)
    requires
        parts.len() > 0,
        forall|i: int| 0 <= i < parts.len() ==> !(#[trigger] parts[i]).contains(c),
    ensures
        split_at_char(joined(parts, seq![c]), c) == parts,
    decreases parts.len(),
{
    let last = parts[parts.len() - 1];
    if parts.len() == 1 {
        assert(Seq::<char>::empty() + last =~= last);
        split_of_more(Seq::empty(), last, c);
        assert(split_at_char(Seq::<char>::empty(), c) =~= seq![Seq::<char>::empty()]);
        assert(split_at_char(last, c) =~= parts);
    } else {
        let init = parts.drop_last();
        assert forall|i: int| 0 <= i < init.len() implies !(#[trigger] init[i]).contains(c) by {
            assert(parts[i] == init[i]);
        }
        join_then_split(init, c);
        let before = joined(init, seq![c]);
        assert((before + seq![c]).drop_last() =~= before);
        assert(split_at_char(before + seq![c], c) == init.push(Seq::empty()));
        split_of_more(before + seq![c], last, c);
        assert(Seq::<char>::empty() + last =~= last);
        assert(init.push(Seq::empty()).update(init.len() as int, last) =~= parts);
    }
}

pub fn split_char(s: &str, c: char) -> (r: Vec<String>)
    ensures
        r.deep_view() == split_at_char(s@, c),
{
    let v = chars_of(s);
    let mut done: Vec<String> = Vec::new();
    let mut current: String = String::new();
    let mut i: usize = 0;
    while i < v.len()
        invariant
            i <= v.len(),
            split_at_char(v@.take(i as int), c) == done.deep_view().push(current@),
        decreases v.len() - i,
    {
        assert(v@.take(i + 1).drop_last() == v@.take(i as int));
        assert(done.deep_view().push(current@).last() == current@);
        if v[i] == c {
            let ghost old_done = done.deep_view();
            done.push(current);
            assert(done.deep_view() == old_done.push(current@));
            current = String::new();
        } else {
            let ghost before = current@;
            current.push(v[i]);
            assert(done.deep_view().push(before).update(done.deep_view().len() as int, current@)
                == done.deep_view().push(current@));
        }
        i += 1;
    }
    assert(v@.take(v@.len() as int) == v@);
    let ghost old_done = done.deep_view();
    done.push(current);
    assert(done.deep_view() == old_done.push(current@));
    done
}

pub open spec fn nonempty(parts: Seq<Seq<char>>) -> Seq<Seq<char>> {
    parts.filter(|p: Seq<char>| p.len() > 0)
}

/// The pieces that hold at least one character, in order.
pub fn keep_nonempty(parts: &Vec<String>) -> (r: Vec<String>)
    ensures
        r.deep_view() == nonempty(parts.deep_view()),
{
    let mut r: Vec<String> = Vec::new();
    let mut i: usize = 0;
    let ghost keep = |p: Seq<char>| p.len() > 0;
    while i < parts.len()
        invariant
            i <= parts.len(),
            keep == (|p: Seq<char>| p.len() > 0),
            r.deep_view() == parts.deep_view().take(i as int).filter(keep),
        decreases parts.len() - i,
    {
        let ghost all = parts.deep_view();
        assert(all.take(i + 1).drop_last() == all.take(i as int));
        assert(all.take(i + 1).last() == parts@[i as int]@);
        reveal(Seq::filter);
        if !parts[i].as_str().is_empty() {
            let ghost before = r.deep_view();
            r.push(parts[i].clone());
            assert(r.deep_view() == before.push(parts@[i as int]@));
        }
        i += 1;
    }
    assert(parts.deep_view().take(parts@.len() as int) == parts.deep_view());
    r
}

pub fn join(parts: &Vec<String>, sep: &str) -> (r: String)
    ensures
        r@ == joined(parts.deep_view(), sep@),
{
    let mut r: String = String::new();
    let mut i: usize = 0;
    while i < parts.len()
        invariant
            i <= parts.len(),
            r@ == joined(parts.deep_view().take(i as int), sep@),
        decreases parts.len() - i,
    {
        let ghost all = parts.deep_view();
        assert(all.take(i + 1).drop_last() == all.take(i as int));
        assert(all.take(i + 1).last() == parts@[i as int]@);
        if i > 0 {
            r.append(sep);
        }
        r.append(parts[i].as_str());
        i += 1;
    }
    assert(parts.deep_view().take(parts@.len() as int) == parts.deep_view());
    r
}


/// The pieces of a text between the occurrences of a nonempty separator, found
/// from left to right.
pub open spec fn split_at_text(s: Seq<char>, sep: Seq<char>) -> Seq<Seq<char>>
    decreases s.len(),
{
    match first_cut(s, sep) {
        Some((before, behind)) => if sep.len() > 0 && behind.len() < s.len() {
            seq![before] + split_at_text(behind, sep)
        } else {
            seq![s]
        },
        None => seq![s],
    }
}

pub fn split_text(s: &str, sep: &str) -> (r: Vec<String>)
    requires
        sep@.len() > 0,
    ensures
        r.deep_view() == split_at_text(s@, sep@),
{
    let mut r: Vec<String> = Vec::new();
    let mut rest: String = s.to_owned();
    assert(r.deep_view() + split_at_text(s@, sep@) =~= split_at_text(s@, sep@));
    loop
        invariant
            sep@.len() > 0,
            r.deep_view() + split_at_text(rest@, sep@) == split_at_text(s@, sep@),
        decreases rest@.len(),
    {
        let ghost done = r.deep_view();
        let ghost now = rest@;
        match split_once(rest.as_str(), sep) {
            Some((before, behind)) => {
                proof {
                    first_cut_shortens(now, sep@);
                }
                r.push(before);
                assert(r.deep_view() =~= done.push(before@));
                assert(r.deep_view() + split_at_text(behind@, sep@) =~= done + split_at_text(now, sep@));
                rest = behind;
            },
            None => {
                r.push(rest);
                assert(r.deep_view() =~= done + seq![now]);
                return r;
            },
        }
    }
}

/// What stands behind the first occurrence of a nonempty text is shorter than
/// the whole.
pub proof fn first_cut_shortens(s: Seq<char>, p: Seq<char>)
    requires
        p.len() > 0,
    ensures
        first_cut(s, p) matches Some((before, behind)) ==> behind.len() < s.len() && s == before + p + behind,
{
    if has_text(s, p) {
        let i = first_occurrence(s, p);
        first_index_is(s, p, i);
        assert(s =~= s.take(i) + s.subrange(i, i + p.len()) + s.skip(i + p.len()));
    }
}

/// A text that occurs has a first occurrence.
pub proof fn first_occurrence(s: Seq<char>, p: Seq<char>) -> (i: int)
    requires
        has_text(s, p),
    ensures
        first_at(s, p, 0, i),
{
    let k = choose|k: int| occurs_at(s, p, k);
    earliest(s, p, k)
}

proof fn earliest(s: Seq<char>, p: Seq<char>, k: int) -> (i: int)
    requires
        occurs_at(s, p, k),
    ensures
        first_at(s, p, 0, i),
    decreases k,
{
    if exists|j: int| 0 <= j < k && occurs_at(s, p, j) {
        let j = choose|j: int| 0 <= j < k && occurs_at(s, p, j);
        earliest(s, p, j)
    } else {
        k
    }
}

/// What stands before and behind the last occurrence of a character.
pub open spec fn last_cut(s: Seq<char>, c: char) -> Option<(Seq<char>, Seq<char>)>
    decreases s.len(),
{
    if s.len() == 0 {
        None
    } else if s.last() == c {
        Some((s.drop_last(), Seq::<char>::empty()))
    } else {
        match last_cut(s.drop_last(), c) {
            Some((before, behind)) => Some((before, behind.push(s.last()))),
            None => None,
        }
    }
}

pub proof fn last_cut_cuts_at_the_last(s: Seq<char>, c: char)
    ensures
        match last_cut(s, c) {
            Some((before, behind)) => s == before.push(c) + behind && !behind.contains(c),
            None => !s.contains(c),
        },
    decreases s.len(),
{
    if s.len() > 0 {
        let init = s.drop_last();
        assert(s =~= init.push(s.last()));
        if s.last() != c {
            last_cut_cuts_at_the_last(init, c);
            match last_cut(init, c) {
                Some((before, behind)) => {
                    let grown = behind.push(s.last());
                    assert(s =~= before.push(c) + grown);
                    assert forall|k: int| 0 <= k < grown.len() implies grown[k] != c by {
                        if k < behind.len() {
                            assert(behind[k] == grown[k]);
                        }
                    }
                },
                None => {
                    assert forall|k: int| 0 <= k < s.len() implies s[k] != c by {
                        if k < init.len() {
                            assert(init[k] == s[k]);
                        }
                    }
                },
            }
        } else {
            assert(s =~= init.push(c) + Seq::<char>::empty());
        }
    }
}

pub fn rsplit_once(s: &str, c: char) -> (r: Option<(String, String)>)
    ensures
        r.deep_view() == last_cut(s@, c),
{
    let v = chars_of(s);
    let mut i: usize = v.len();
    while i > 0
        invariant
            i <= v.len(),
            v@ == s@,
            forall|j: int| i <= j < v.len() ==> v@[j] != c,
        decreases i,
    {
        i -= 1;
        if v[i] == c {
            let before = text_of(&v, 0, i);
            let behind = text_of(&v, i + 1, v.len());
            proof {
                cut_at_last(s@, c, i as int);
                assert(v@.subrange(0, i as int) == v@.take(i as int));
                assert(v@.subrange(i + 1, v@.len() as int) == v@.skip(i + 1));
            }
            return Some((before, behind));
        }
    }
    proof {
        last_cut_cuts_at_the_last(s@, c);
        if let Some((before, behind)) = last_cut(s@, c) {
            assert(s@[before.len() as int] == c);
        }
    }
    None
}

proof fn cut_at_last(s: Seq<char>, c: char, i: int)
    requires
        0 <= i < s.len(),
        s[i] == c,
        forall|j: int| i < j < s.len() ==> s[j] != c,
    ensures
        last_cut(s, c) == Some((s.take(i), s.skip(i + 1))),
    decreases s.len(),
{
    if i == s.len() - 1 {
        assert(s.take(i) =~= s.drop_last());
        assert(s.skip(i + 1) =~= Seq::<char>::empty());
    } else {
        let init = s.drop_last();
        cut_at_last(init, c, i);
        assert(init.take(i) =~= s.take(i));
        assert(init.skip(i + 1).push(s.last()) =~= s.skip(i + 1));
    }
}

/// The first position at which `p` stands in a text that holds it.
pub open spec fn first_index(s: Seq<char>, p: Seq<char>) -> int {
    choose|i: int| first_at(s, p, 0, i)
}

/// What stands before and behind the first occurrence of a text.
pub open spec fn first_cut(s: Seq<char>, p: Seq<char>) -> Option<(Seq<char>, Seq<char>)> {
    if has_text(s, p) {
        let i = first_index(s, p);
        Some((s.take(i), s.skip(i + p.len())))
    } else {
        None
    }
}

/// There is one first position.
pub proof fn first_index_is(s: Seq<char>, p: Seq<char>, i: int)
    requires
        first_at(s, p, 0, i),
    ensures
        has_text(s, p),
        first_index(s, p) == i,
{
    let j = first_index(s, p);
    assert(first_at(s, p, 0, j));
    if j < i {
        assert(!occurs_at(s, p, j));
    } else if i < j {
        assert(!occurs_at(s, p, i));
    }
}

pub fn split_once(s: &str, p: &str) -> (r: Option<(String, String)>)
    ensures
        r.deep_view() == first_cut(s@, p@),
{
    let v = chars_of(s);
    let w = chars_of(p);
    match find_from(&v, &w, 0) {
        Some(i) => {
            let end: usize = v.len();
            assert(i + w@.len() <= end);
            let before = text_of(&v, 0, i);
            let behind = text_of(&v, i + w.len(), end);
            proof {
                first_index_is(s@, p@, i as int);
                assert(v@.subrange(0, i as int) == v@.take(i as int));
                assert(v@.subrange(i + w@.len(), v@.len() as int) == v@.skip(i + w@.len()));
            }
            Some((before, behind))
        },
        None => {
            assert forall|j: int| !occurs_at(s@, p@, j) by {
                if j < 0 {
                }
            }
            None
        },
    }
}

// ---------------------------------------------------------------------------
// Trimming and replacing
// ---------------------------------------------------------------------------

/// A text without the leading run of characters that satisfy `drop`.
pub open spec fn trim_front(s: Seq<char>, drop: spec_fn(char) -> bool) -> Seq<char>
    decreases s.len(),
{
    if s.len() > 0 && drop(s[0]) {
        trim_front(s.skip(1), drop)
    } else {
        s
    }
}

/// A text without the trailing run of characters that satisfy `drop`.
pub open spec fn trim_back(s: Seq<char>, drop: spec_fn(char) -> bool) -> Seq<char>
    decreases s.len(),
{
    if s.len() > 0 && drop(s.last()) {
        trim_back(s.drop_last(), drop)
    } else {
        s
    }
}

/// The characters that count as whitespace.
pub open spec fn whitespace() -> spec_fn(char) -> bool {
    |c: char| unicode_whitespace(c)
}

/// The characters equal to one.
pub open spec fn equal_to(c: char) -> spec_fn(char) -> bool {
    |d: char| d == c
}

/// A text without the whitespace at both ends.
pub open spec fn trimmed(s: Seq<char>) -> Seq<char> {
    trim_back(trim_front(s, whitespace()), whitespace())
}

/// A text without the runs of one character at both ends.
pub open spec fn trimmed_of(s: Seq<char>, c: char) -> Seq<char> {
    trimmed_end_of(trimmed_start_of(s, c), c)
}

pub open spec fn trimmed_start_of(s: Seq<char>, c: char) -> Seq<char> {
    trim_front(s, equal_to(c))
}

pub open spec fn trimmed_end_of(s: Seq<char>, c: char) -> Seq<char> {
    trim_back(s, equal_to(c))
}

proof fn trim_back_ends(s: Seq<char>, drop: spec_fn(char) -> bool)
    ensures
        trim_back(s, drop).len() > 0 ==> !drop(trim_back(s, drop).last()) && s.len() > 0 && trim_back(s, drop)[0] == s[0],
    decreases s.len(),
{
    if s.len() > 0 && drop(s.last()) {
        trim_back_ends(s.drop_last(), drop);
    }
}

proof fn trim_front_ends(s: Seq<char>, drop: spec_fn(char) -> bool)
    ensures
        trim_front(s, drop).len() > 0 ==> !drop(trim_front(s, drop)[0]),
    decreases s.len(),
{
    if s.len() > 0 && drop(s[0]) {
        trim_front_ends(s.skip(1), drop);
    }
}

/// A trimmed text has nothing left to trim.
pub proof fn trimmed_stays(s: Seq<char>)
    ensures
        trimmed(trimmed(s)) == trimmed(s),
{
    let front = trim_front(s, whitespace());
    trim_front_ends(s, whitespace());
    trim_back_ends(front, whitespace());
}

pub fn trim(s: &str) -> (r: String)
    ensures
        r@ == trimmed(s@),
{
    let v = chars_of(s);
    let mut from: usize = 0;
    assert(v@.skip(0) == v@);
    while from < v.len() && is_whitespace(v[from])
        invariant
            from <= v.len(),
            v@ == s@,
            trim_front(s@, whitespace()) == trim_front(v@.skip(from as int), whitespace()),
        decreases v.len() - from,
    {
        assert(v@.skip(from as int).skip(1) == v@.skip(from + 1));
        from += 1;
    }
    assert(trim_front(s@, whitespace()) == v@.skip(from as int)) by {
        if from < v.len() {
            assert(v@.skip(from as int)[0] == v@[from as int]);
        }
    }
    let mut to: usize = v.len();
    assert(v@.subrange(from as int, to as int) == v@.skip(from as int));
    while to > from && is_whitespace(v[to - 1])
        invariant
            from <= to <= v.len(),
            trimmed(s@) == trim_back(v@.subrange(from as int, to as int), whitespace()),
        decreases to,
    {
        assert(v@.subrange(from as int, to as int).drop_last() == v@.subrange(from as int, to - 1));
        to -= 1;
    }
    assert(to > from ==> v@.subrange(from as int, to as int).last() == v@[to - 1]);
    text_of(&v, from, to)
}

/// The characters that quote a text in source code.
pub open spec fn quotes() -> spec_fn(char) -> bool {
    |c: char| c == '`' || c == '"' || c == '\''
}

fn is_quote(c: char) -> (r: bool)
    ensures
        r == quotes()(c),
{
    c == '`' || c == '"' || c == '\''
}

pub fn trim_start_quotes(s: &str) -> (r: String)
    ensures
        r@ == trim_front(s@, quotes()),
{
    let v = chars_of(s);
    let mut from: usize = 0;
    assert(v@.skip(0) == v@);
    while from < v.len() && is_quote(v[from])
        invariant
            from <= v.len(),
            v@ == s@,
            trim_front(s@, quotes()) == trim_front(v@.skip(from as int), quotes()),
        decreases v.len() - from,
    {
        assert(v@.skip(from as int).skip(1) == v@.skip(from + 1));
        from += 1;
    }
    assert(from < v.len() ==> v@.skip(from as int)[0] == v@[from as int]);
    let r = text_of(&v, from, v.len());
    assert(v@.subrange(from as int, v@.len() as int) == v@.skip(from as int));
    r
}

pub fn trim_end_quotes(s: &str) -> (r: String)
    ensures
        r@ == trim_back(s@, quotes()),
{
    let v = chars_of(s);
    let mut to: usize = v.len();
    assert(v@.take(to as int) == v@);
    while to > 0 && is_quote(v[to - 1])
        invariant
            to <= v.len(),
            trim_back(s@, quotes()) == trim_back(v@.take(to as int), quotes()),
        decreases to,
    {
        assert(v@.take(to as int).drop_last() == v@.take(to - 1));
        to -= 1;
    }
    assert(to > 0 ==> v@.take(to as int).last() == v@[to - 1]);
    let r = text_of(&v, 0, to);
    assert(v@.subrange(0, to as int) == v@.take(to as int));
    r
}

/// Trimming the front leaves an end of the text.
pub proof fn trim_front_leaves_the_end(s: Seq<char>, drop: spec_fn(char) -> bool)
    ensures
        trim_front(s, drop).len() <= s.len(),
        trim_front(s, drop) == s.skip(s.len() - trim_front(s, drop).len()),
    decreases s.len(),
{
    if s.len() > 0 && drop(s[0]) {
        trim_front_leaves_the_end(s.skip(1), drop);
        let t = trim_front(s.skip(1), drop);
        assert(s.skip(1).skip(s.skip(1).len() - t.len()) =~= s.skip(s.len() - t.len()));
    } else {
        assert(s.skip(0) =~= s);
    }
}

pub fn trim_start_char(s: &str, c: char) -> (r: String)
    ensures
        r@ == trimmed_start_of(s@, c),
{
    let v = chars_of(s);
    let mut from: usize = 0;
    assert(v@.skip(0) == v@);
    while from < v.len() && v[from] == c
        invariant
            from <= v.len(),
            v@ == s@,
            trimmed_start_of(s@, c) == trim_front(v@.skip(from as int), equal_to(c)),
        decreases v.len() - from,
    {
        assert(v@.skip(from as int).skip(1) == v@.skip(from + 1));
        from += 1;
    }
    assert(from < v.len() ==> v@.skip(from as int)[0] == v@[from as int]);
    let r = text_of(&v, from, v.len());
    assert(v@.subrange(from as int, v@.len() as int) == v@.skip(from as int));
    r
}

pub fn trim_end_char(s: &str, c: char) -> (r: String)
    ensures
        r@ == trimmed_end_of(s@, c),
{
    let v = chars_of(s);
    let mut to: usize = v.len();
    assert(v@.take(to as int) == v@);
    while to > 0 && v[to - 1] == c
        invariant
            to <= v.len(),
            trimmed_end_of(s@, c) == trim_back(v@.take(to as int), equal_to(c)),
        decreases to,
    {
        assert(v@.take(to as int).drop_last() == v@.take(to - 1));
        to -= 1;
    }
    assert(to > 0 ==> v@.take(to as int).last() == v@[to - 1]);
    let r = text_of(&v, 0, to);
    assert(v@.subrange(0, to as int) == v@.take(to as int));
    r
}

pub fn trim_char(s: &str, c: char) -> (r: String)
    ensures
        r@ == trimmed_of(s@, c),
{
    trim_end_char(trim_start_char(s, c).as_str(), c)
}

/// A text without the leading repetitions of a nonempty text.
pub open spec fn trimmed_start_text(s: Seq<char>, p: Seq<char>) -> Seq<char>
    decreases s.len(),
{
    if p.len() > 0 && has_prefix(s, p) {
        trimmed_start_text(s.skip(p.len() as int), p)
    } else {
        s
    }
}

pub fn trim_start_text(s: &str, p: &str) -> (r: String)
    requires
        p@.len() > 0,
    ensures
        r@ == trimmed_start_text(s@, p@),
{
    let v = chars_of(s);
    let w = chars_of(p);
    let mut from: usize = 0;
    assert(v@.skip(0) == v@);
    while occurs(&v, &w, from)
        invariant
            from <= v.len(),
            w@.len() > 0,
            w@ == p@,
            trimmed_start_text(s@, p@) == trimmed_start_text(v@.skip(from as int), w@),
        decreases v.len() - from,
    {
        proof {
            let rest = v@.skip(from as int);
            assert(rest.subrange(0, w@.len() as int) == v@.subrange(from as int, from + w@.len()));
            assert(rest.skip(w@.len() as int) == v@.skip(from + w@.len()));
        }
        from += w.len();
    }
    proof {
        let rest = v@.skip(from as int);
        if has_prefix(rest, w@) {
            assert(rest.subrange(0, w@.len() as int) == v@.subrange(from as int, from + w@.len()));
        }
        assert(v@.subrange(from as int, v@.len() as int) == rest);
    }
    text_of(&v, from, v.len())
}

/// A text with every occurrence of a character replaced by a text.
pub open spec fn with_char_replaced(s: Seq<char>, c: char, by: Seq<char>) -> Seq<char>
    decreases s.len(),
{
    if s.len() == 0 {
        Seq::<char>::empty()
    } else {
        with_char_replaced(s.drop_last(), c, by) + if s.last() == c {
            by
        } else {
            seq![s.last()]
        }
    }
}

pub fn replace_char(s: &str, c: char, by: &str) -> (r: String)
    ensures
        r@ == with_char_replaced(s@, c, by@),
{
    let v = chars_of(s);
    let mut r: String = String::new();
    let mut i: usize = 0;
    while i < v.len()
        invariant
            i <= v.len(),
            r@ == with_char_replaced(v@.take(i as int), c, by@),
        decreases v.len() - i,
    {
        assert(v@.take(i + 1).drop_last() == v@.take(i as int));
        let ghost before = r@;
        if v[i] == c {
            r.append(by);
        } else {
            r.push(v[i]);
            assert(r@ == before + seq![v@[i as int]]);
        }
        i += 1;
    }
    assert(v@.take(v@.len() as int) == v@);
    r
}

/// A text with the occurrences of a nonempty text replaced, found from left to
/// right without overlap.
pub open spec fn with_text_replaced(s: Seq<char>, p: Seq<char>, by: Seq<char>) -> Seq<char>
    decreases s.len(),
{
    if s.len() == 0 || p.len() == 0 {
        s
    } else if has_prefix(s, p) {
        by + with_text_replaced(s.skip(p.len() as int), p, by)
    } else {
        seq![s[0]] + with_text_replaced(s.skip(1), p, by)
    }
}

pub fn replace_text(s: &str, p: &str, by: &str) -> (r: String)
    requires
        p@.len() > 0,
    ensures
        r@ == with_text_replaced(s@, p@, by@),
{
    let v = chars_of(s);
    let w = chars_of(p);
    let mut r: String = String::new();
    let mut i: usize = 0;
    assert(v@.skip(0) == v@);
    assert(r@ + with_text_replaced(v@, w@, by@) == with_text_replaced(v@, w@, by@));
    while i < v.len()
        invariant
            i <= v.len(),
            w@.len() > 0,
            r@ + with_text_replaced(v@.skip(i as int), w@, by@) == with_text_replaced(s@, w@, by@),
        decreases v.len() - i,
    {
        let ghost rest = v@.skip(i as int);
        let ghost before = r@;
        proof {
            if i + w@.len() <= v@.len() {
                assert(rest.subrange(0, w@.len() as int) == v@.subrange(i as int, i + w@.len()));
                assert(rest.skip(w@.len() as int) == v@.skip(i + w@.len()));
            }
            assert(rest.skip(1) == v@.skip(i + 1));
        }
        if occurs(&v, &w, i) {
            r.append(by);
            assert(r@ + with_text_replaced(v@.skip(i + w@.len()), w@, by@) == before + with_text_replaced(rest, w@, by@));
            i += w.len();
        } else {
            r.push(v[i]);
            assert(r@ + with_text_replaced(v@.skip(i + 1), w@, by@) == before + with_text_replaced(rest, w@, by@));
            i += 1;
        }
    }
    assert(r@ + with_text_replaced(v@.skip(v@.len() as int), w@, by@) == r@);
    r
}


// ---------------------------------------------------------------------------
// Numbers
// ---------------------------------------------------------------------------

/// A count that stops at the largest number that fits.
pub open spec fn counted(n: nat) -> usize {
    if n > usize::MAX {
        usize::MAX
    } else {
        n as usize
    }
}

pub open spec fn digit_char(d: int) -> char {
    (48 + d) as char
}

/// The decimal digits of a number, without leading zeros.
pub open spec fn decimal(n: nat) -> Seq<char>
    decreases n,
{
    if n < 10 {
        seq![digit_char(n as int)]
    } else {
        decimal(n / 10).push(digit_char((n % 10) as int))
    }
}

pub fn print_number(n: u64) -> (r: String)
    ensures
        r@ == decimal(n as nat),
    decreases n,
{
    let mut r: String = if n < 10 {
        String::new()
    } else {
        print_number(n / 10)
    };
    let d: u8 = 48 + (n % 10) as u8;
    r.push(d as char);
    assert(n < 10 ==> r@ =~= seq![digit_char(n as int)]);
    r
}

// ---------------------------------------------------------------------------
// Order
// ---------------------------------------------------------------------------

/// The order of texts: the first position at which they differ decides, and a
/// text comes before every longer text that begins with it.
pub open spec fn text_less(a: Seq<char>, b: Seq<char>) -> bool
    decreases a.len(),
{
    if b.len() == 0 {
        false
    } else if a.len() == 0 {
        true
    } else if a[0] == b[0] {
        text_less(a.skip(1), b.skip(1))
    } else {
        a[0] < b[0]
    }
}

pub proof fn text_less_irreflexive(a: Seq<char>)
    ensures
        !text_less(a, a),
    decreases a.len(),
{
    if a.len() > 0 {
        text_less_irreflexive(a.skip(1));
    }
}

pub proof fn text_less_transitive(a: Seq<char>, b: Seq<char>, c: Seq<char>)
    requires
        text_less(a, b),
        text_less(b, c),
    ensures
        text_less(a, c),
    decreases a.len(),
{
    if a.len() > 0 && a[0] == b[0] && b[0] == c[0] {
        text_less_transitive(a.skip(1), b.skip(1), c.skip(1));
    }
}

pub proof fn text_less_total(a: Seq<char>, b: Seq<char>)
    ensures
        a == b || text_less(a, b) || text_less(b, a),
    decreases a.len(),
{
    if a.len() > 0 && b.len() > 0 && a[0] == b[0] {
        text_less_total(a.skip(1), b.skip(1));
        if a.skip(1) == b.skip(1) {
            assert(a =~= seq![a[0]] + a.skip(1));
            assert(b =~= seq![b[0]] + b.skip(1));
        }
    } else if a.len() == 0 && b.len() == 0 {
        assert(a =~= b);
    }
}

/// At most one of "before", "same", "behind" holds of two texts.
pub proof fn text_less_asymmetric(a: Seq<char>, b: Seq<char>)
    ensures
        text_less(a, b) ==> !text_less(b, a) && a != b,
{
    if text_less(a, b) {
        text_less_irreflexive(a);
        if text_less(b, a) {
            text_less_transitive(a, b, a);
        }
    }
}

pub fn less(a: &str, b: &str) -> (r: bool)
    ensures
        r == text_less(a@, b@),
{
    let x = chars_of(a);
    let y = chars_of(b);
    let mut i: usize = 0;
    assert(x@.skip(0) == x@);
    assert(y@.skip(0) == y@);
    while i < x.len() && i < y.len() && x[i] == y[i]
        invariant
            i <= x.len(),
            i <= y.len(),
            text_less(a@, b@) == text_less(x@.skip(i as int), y@.skip(i as int)),
        decreases x.len() - i,
    {
        assert(x@.skip(i as int).skip(1) == x@.skip(i + 1));
        assert(y@.skip(i as int).skip(1) == y@.skip(i + 1));
        i += 1;
    }
    if i >= y.len() {
        false
    } else if i >= x.len() {
        true
    } else {
        x[i] < y[i]
    }
}

// ---------------------------------------------------------------------------
// Lists of texts
// ---------------------------------------------------------------------------

pub fn list_contains(list: &Vec<String>, s: &str) -> (r: bool)
    ensures
        r == list.deep_view().contains(s@),
{
    let mut i: usize = 0;
    while i < list.len()
        invariant
            i <= list.len(),
            forall|j: int| 0 <= j < i ==> list@[j]@ != s@,
        decreases list.len() - i,
    {
        if same(list[i].as_str(), s) {
            assert(list.deep_view()[i as int] == s@);
            return true;
        }
        i += 1;
    }
    assert(forall|j: int| 0 <= j < list.len() ==> list.deep_view()[j] == list@[j]@);
    false
}

pub fn copy_list(list: &Vec<String>) -> (r: Vec<String>)
    ensures
        r@ == list@,
        r.deep_view() == list.deep_view(),
{
    let mut r: Vec<String> = Vec::new();
    let mut i: usize = 0;
    while i < list.len()
        invariant
            i <= list.len(),
            r@ == list@.take(i as int),
        decreases list.len() - i,
    {
        r.push(list[i].clone());
        i += 1;
    }
    r
}

pub fn copy_option(o: &Option<String>) -> (r: Option<String>)
    ensures
        r == *o,
{
    match o {
        Some(s) => Some(s.clone()),
        None => None,
    }
}

pub fn same_option(a: &Option<String>, b: &Option<String>) -> (r: bool)
    ensures
        r == (a.deep_view() == b.deep_view()),
{
    match (a, b) {
        (Some(x), Some(y)) => same(x.as_str(), y.as_str()),
        (None, None) => true,
        _ => false,
    }
}

/// Whether two texts are the same once the ASCII letters are lowered.
pub fn same_ignoring_case(a: &str, b: &str) -> (r: bool)
    ensures
        r == (ascii_lowercase(a@) == ascii_lowercase(b@)),
{
    let x = chars_of(a);
    let y = chars_of(b);
    if x.len() != y.len() {
        assert(ascii_lowercase(a@).len() != ascii_lowercase(b@).len());
        return false;
    }
    let mut i: usize = 0;
    while i < x.len()
        invariant
            i <= x.len(),
            x.len() == y.len(),
            x@ == a@,
            y@ == b@,
            forall|j: int| 0 <= j < i ==> lower_char(x@[j]) == lower_char(y@[j]),
        decreases x.len() - i,
    {
        if lower_one(x[i]) != lower_one(y[i]) {
            assert(ascii_lowercase(a@)[i as int] != ascii_lowercase(b@)[i as int]);
            return false;
        }
        i += 1;
    }
    assert(ascii_lowercase(a@) =~= ascii_lowercase(b@));
    true
}

pub fn lower_one(c: char) -> (r: char)
    ensures
        r == lower_char(c),
{
    if 'A' <= c && c <= 'Z' {
        (c as u8 + 32) as char
    } else {
        c
    }
}


/// The texts ascend, so none occurs twice.
pub open spec fn texts_ascend(list: Seq<Seq<char>>) -> bool {
    forall|i: int, j: int| 0 <= i < j < list.len() ==> text_less(#[trigger] list[i], #[trigger] list[j])
}

/// An ascending list with a text at its place; a text it holds stays once.
pub open spec fn with_text(sorted: Seq<Seq<char>>, x: Seq<char>) -> Seq<Seq<char>>
    decreases sorted.len(),
{
    if sorted.len() == 0 {
        seq![x]
    } else if sorted.last() == x {
        sorted
    } else if text_less(sorted.last(), x) {
        sorted.push(x)
    } else {
        with_text(sorted.drop_last(), x).push(sorted.last())
    }
}

/// The texts of a list in order, each once.
pub open spec fn sorted_distinct(list: Seq<Seq<char>>) -> Seq<Seq<char>>
    decreases list.len(),
{
    if list.len() == 0 {
        Seq::empty()
    } else {
        with_text(sorted_distinct(list.drop_last()), list.last())
    }
}

/// Sorting keeps exactly the texts of the list and puts them in order.
pub proof fn sorted_distinct_sorts(list: Seq<Seq<char>>)
    ensures
        texts_ascend(sorted_distinct(list)),
        forall|x: Seq<char>| sorted_distinct(list).contains(x) <==> list.contains(x),
    decreases list.len(),
{
    if list.len() > 0 {
        let init = list.drop_last();
        sorted_distinct_sorts(init);
        with_text_keeps_order(sorted_distinct(init), list.last());
        assert forall|x: Seq<char>| sorted_distinct(list).contains(x) <==> list.contains(x) by {
            if list.contains(x) {
                let k = choose|k: int| 0 <= k < list.len() && list[k] == x;
                if k < init.len() {
                    assert(init[k] == x);
                }
            }
            if init.contains(x) {
                let k = choose|k: int| 0 <= k < init.len() && init[k] == x;
                assert(list[k] == x);
            }
            if x == list.last() {
                assert(list[list.len() - 1] == x);
            }
        }
    }
}

proof fn with_text_keeps_order(sorted: Seq<Seq<char>>, x: Seq<char>)
    requires
        texts_ascend(sorted),
    ensures
        texts_ascend(with_text(sorted, x)),
        forall|y: Seq<char>| with_text(sorted, x).contains(y) <==> y == x || sorted.contains(y),
    decreases sorted.len(),
{
    let all = with_text(sorted, x);
    if sorted.len() == 0 {
        assert(all[0] == x);
    } else if sorted.last() == x {
        assert(sorted[sorted.len() - 1] == x);
    } else if text_less(sorted.last(), x) {
        assert forall|i: int, j: int| 0 <= i < j < all.len() implies text_less(#[trigger] all[i], #[trigger] all[j]) by {
            if j == all.len() - 1 && i < sorted.len() - 1 {
                text_less_transitive(all[i], sorted.last(), x);
            }
        }
        assert forall|y: Seq<char>| all.contains(y) <==> y == x || sorted.contains(y) by {
            assert(all[all.len() - 1] == x);
            if sorted.contains(y) {
                let k = choose|k: int| 0 <= k < sorted.len() && sorted[k] == y;
                assert(all[k] == y);
            }
        }
    } else {
        let init = sorted.drop_last();
        text_less_total(sorted.last(), x);
        with_text_keeps_order(init, x);
        let grown = with_text(init, x);
        assert forall|i: int, j: int| 0 <= i < j < all.len() implies text_less(#[trigger] all[i], #[trigger] all[j]) by {
            if j == all.len() - 1 {
                let y = grown[i];
                assert(all[i] == y);
                assert(with_text(init, x).contains(y));
                if y != x {
                    assert(init.contains(y));
                    let k = choose|k: int| 0 <= k < init.len() && init[k] == y;
                    assert(sorted[k] == y);
                    assert(text_less(sorted[k], sorted[sorted.len() - 1]));
                }
            } else {
                assert(all[i] == grown[i]);
                assert(all[j] == grown[j]);
            }
        }
        assert forall|y: Seq<char>| all.contains(y) <==> y == x || sorted.contains(y) by {
            assert(all[all.len() - 1] == sorted.last());
            assert(sorted[sorted.len() - 1] == sorted.last());
            if grown.contains(y) {
                let k = choose|k: int| 0 <= k < grown.len() && grown[k] == y;
                assert(all[k] == y);
            }
            if init.contains(y) {
                let k = choose|k: int| 0 <= k < init.len() && init[k] == y;
                assert(sorted[k] == y);
            }
            if sorted.contains(y) && y != sorted.last() {
                let k = choose|k: int| 0 <= k < sorted.len() && sorted[k] == y;
                assert(init[k] == y);
            }
            if all.contains(y) && y != sorted.last() {
                let k = choose|k: int| 0 <= k < all.len() && all[k] == y;
                assert(grown[k] == y);
            }
        }
    }
}

proof fn with_text_inserts(sorted: Seq<Seq<char>>, x: Seq<char>, i: int)
    requires
        0 <= i <= sorted.len(),
        forall|j: int| 0 <= j < i ==> text_less(#[trigger] sorted[j], x),
        forall|j: int| i <= j < sorted.len() ==> text_less(x, #[trigger] sorted[j]),
    ensures
        with_text(sorted, x) == sorted.insert(i, x),
    decreases sorted.len(),
{
    if sorted.len() == 0 {
        assert(sorted.insert(0, x) =~= seq![x]);
    } else {
        let last = sorted[sorted.len() - 1];
        text_less_asymmetric(last, x);
        text_less_asymmetric(x, last);
        if i == sorted.len() {
            assert(sorted.insert(i, x) =~= sorted.push(x));
        } else {
            with_text_inserts(sorted.drop_last(), x, i);
            assert(sorted.drop_last().insert(i, x).push(last) =~= sorted.insert(i, x));
        }
    }
}

proof fn with_text_keeps(sorted: Seq<Seq<char>>, x: Seq<char>, i: int)
    requires
        texts_ascend(sorted),
        0 <= i < sorted.len(),
        sorted[i] == x,
    ensures
        with_text(sorted, x) == sorted,
    decreases sorted.len(),
{
    if i < sorted.len() - 1 {
        let last = sorted[sorted.len() - 1];
        assert(text_less(sorted[i], last));
        text_less_asymmetric(x, last);
        with_text_keeps(sorted.drop_last(), x, i);
        assert(sorted.drop_last().push(last) =~= sorted);
    }
}

/// Puts a text at its place in an ascending list.
pub fn insert_sorted(sorted: &mut Vec<String>, x: String)
    requires
        texts_ascend(old(sorted).deep_view()),
    ensures
        texts_ascend(final(sorted).deep_view()),
        final(sorted).deep_view() == with_text(old(sorted).deep_view(), x@),
{
    let ghost before = sorted.deep_view();
    let mut i: usize = 0;
    while i < sorted.len() && less(sorted[i].as_str(), x.as_str())
        invariant
            i <= sorted.len(),
            sorted.deep_view() == before,
            forall|j: int| 0 <= j < i ==> text_less(#[trigger] before[j], x@),
        decreases sorted.len() - i,
    {
        assert(before[i as int] == sorted@[i as int]@);
        i += 1;
    }
    if i < sorted.len() {
        assert(before[i as int] == sorted@[i as int]@);
    }
    if i < sorted.len() && same(sorted[i].as_str(), x.as_str()) {
        proof {
            with_text_keeps(before, x@, i as int);
        }
    } else {
        proof {
            if i < before.len() {
                text_less_total(before[i as int], x@);
                assert forall|j: int| i <= j < before.len() implies text_less(x@, #[trigger] before[j]) by {
                    if i < j {
                        text_less_transitive(x@, before[i as int], before[j]);
                    }
                }
            }
            with_text_inserts(before, x@, i as int);
            with_text_keeps_order(before, x@);
        }
        sorted.insert(i, x);
        assert(sorted.deep_view() =~= before.insert(i as int, x@));
    }
}

pub fn sort_distinct(list: &Vec<String>) -> (r: Vec<String>)
    ensures
        r.deep_view() == sorted_distinct(list.deep_view()),
{
    let mut r: Vec<String> = Vec::new();
    let mut i: usize = 0;
    assert(list.deep_view().take(0) == Seq::<Seq<char>>::empty());
    while i < list.len()
        invariant
            i <= list.len(),
            texts_ascend(r.deep_view()),
            r.deep_view() == sorted_distinct(list.deep_view().take(i as int)),
        decreases list.len() - i,
    {
        assert(list.deep_view().take(i + 1).drop_last() == list.deep_view().take(i as int));
        assert(list.deep_view().take(i + 1).last() == list@[i as int]@);
        insert_sorted(&mut r, list[i].clone());
        i += 1;
    }
    assert(list.deep_view().take(list@.len() as int) == list.deep_view());
    r
}


/// Two ascending lists with the same members are the same list.
pub proof fn ascending_is_unique(a: Seq<Seq<char>>, b: Seq<Seq<char>>)
    requires
        texts_ascend(a),
        texts_ascend(b),
        forall|x: Seq<char>| a.contains(x) <==> b.contains(x),
    ensures
        a == b,
    decreases a.len(),
{
    if a.len() == 0 {
        if b.len() > 0 {
            assert(b.contains(b[0]));
            assert(a.contains(b[0]));
        }
        assert(a =~= b);
    } else {
        let (m, n) = (a.len() - 1, b.len() - 1);
        assert(a.contains(a[m]));
        assert(b.contains(a[m]));
        let j = choose|j: int| 0 <= j < b.len() && b[j] == a[m];
        assert(b.contains(b[n]));
        assert(a.contains(b[n]));
        let i = choose|i: int| 0 <= i < a.len() && a[i] == b[n];
        if j < n {
            assert(text_less(b[j], b[n]));
            text_less_asymmetric(b[j], b[n]);
            if i < m {
                assert(text_less(a[i], a[m]));
            }
        }
        let (p, q) = (a.drop_last(), b.drop_last());
        assert forall|x: Seq<char>| p.contains(x) <==> q.contains(x) by {
            if p.contains(x) {
                let k = choose|k: int| 0 <= k < p.len() && p[k] == x;
                assert(a[k] == x);
                assert(text_less(a[k], a[m]));
                text_less_irreflexive(x);
                assert(a.contains(x));
                let l = choose|l: int| 0 <= l < b.len() && b[l] == x;
                assert(q[l] == x);
            }
            if q.contains(x) {
                let k = choose|k: int| 0 <= k < q.len() && q[k] == x;
                assert(b[k] == x);
                assert(text_less(b[k], b[n]));
                text_less_irreflexive(x);
                assert(b.contains(x));
                let l = choose|l: int| 0 <= l < a.len() && a[l] == x;
                assert(p[l] == x);
            }
        }
        ascending_is_unique(p, q);
        assert(a =~= p.push(a[m]));
        assert(b =~= q.push(b[n]));
    }
}

/// Lists with the same texts sort to the same list.
pub proof fn same_members_same_order(a: Seq<Seq<char>>, b: Seq<Seq<char>>)
    requires
        forall|x: Seq<char>| a.contains(x) <==> b.contains(x),
    ensures
        sorted_distinct(a) == sorted_distinct(b),
{
    sorted_distinct_sorts(a);
    sorted_distinct_sorts(b);
    assert forall|x: Seq<char>| sorted_distinct(a).contains(x) <==> sorted_distinct(b).contains(x) by {
        assert(a.contains(x) <==> b.contains(x));
    }
    ascending_is_unique(sorted_distinct(a), sorted_distinct(b));
}


/// The number that a run of digits writes.
pub open spec fn digits_value(s: Seq<char>) -> nat
    decreases s.len(),
{
    if s.len() == 0 {
        0
    } else {
        digits_value(s.drop_last()) * 10 + (s.last() as int - 48) as nat
    }
}

pub open spec fn all_digits(s: Seq<char>) -> bool {
    forall|i: int| 0 <= i < s.len() ==> is_ascii_digit(#[trigger] s[i])
}

/// The decimal digits of a number are digits, and their value is the number.
pub proof fn decimal_is_read_back(n: nat)
    ensures
        decimal(n).len() > 0,
        all_digits(decimal(n)),
        digits_value(decimal(n)) == n,
    decreases n,
{
    let s = decimal(n);
    if n < 10 {
        assert(s.drop_last() =~= Seq::<char>::empty());
        assert(digits_value(s.drop_last()) == 0);
    } else {
        decimal_is_read_back(n / 10);
        assert(s.drop_last() =~= decimal(n / 10));
    }
}

/// The number that a text writes in decimal, with a plus sign before it or not,
/// where it fits in 64 bits.
pub open spec fn number_in(s: Seq<char>) -> Option<u64> {
    let digits = if s.len() > 0 && s[0] == '+' {
        s.skip(1)
    } else {
        s
    };
    if digits.len() == 0 || !all_digits(digits) || digits_value(digits) > u64::MAX {
        None
    } else {
        Some(digits_value(digits) as u64)
    }
}

proof fn digits_value_grows(s: Seq<char>, n: int)
    requires
        all_digits(s),
        0 <= n <= s.len(),
    ensures
        digits_value(s.take(n)) <= digits_value(s),
    decreases s.len(),
{
    if n == s.len() {
        assert(s.take(n) =~= s);
    } else {
        let init = s.drop_last();
        assert(init.take(n) =~= s.take(n));
        assert forall|i: int| 0 <= i < init.len() implies is_ascii_digit(#[trigger] init[i]) by {
            assert(init[i] == s[i]);
        }
        digits_value_grows(init, n);
        assert(is_ascii_digit(s[s.len() - 1]));
    }
}

pub fn parse_number(s: &str) -> (r: Option<u64>)
    ensures
        r == number_in(s@),
{
    let v = chars_of(s);
    let from: usize = if v.len() > 0 && v[0] == '+' {
        1
    } else {
        0
    };
    let ghost digits = v@.skip(from as int);
    assert(from == 0 ==> digits =~= v@);
    if from >= v.len() {
        return None;
    }
    let mut n: u64 = 0;
    let mut i: usize = from;
    assert(digits.take(0) =~= Seq::<char>::empty());
    while i < v.len()
        invariant
            from <= i <= v.len(),
            digits == v@.skip(from as int),
            digits == (if s@.len() > 0 && s@[0] == '+' { s@.skip(1) } else { s@ }),
            digits.len() > 0,
            forall|j: int| 0 <= j < i - from ==> is_ascii_digit(#[trigger] digits[j]),
            n == digits_value(digits.take(i - from)),
        decreases v.len() - i,
    {
        let c = v[i];
        assert(digits[i - from] == c);
        if !('0' <= c && c <= '9') {
            assert(!all_digits(digits));
            return None;
        }
        let d: u64 = (c as u8 - 48) as u64;
        proof {
            assert(digits.take(i - from + 1).drop_last() =~= digits.take(i - from));
            assert(digits.take(i - from + 1).last() == c);
        }
        match n.checked_mul(10) {
            Some(m) => match m.checked_add(d) {
                Some(k) => {
                    n = k;
                },
                None => {
                    proof {
                        assert(digits_value(digits.take(i - from + 1)) > u64::MAX);
                        if all_digits(digits) {
                            digits_value_grows(digits, i - from + 1);
                        }
                    }
                    return None;
                },
            },
            None => {
                proof {
                    assert(digits_value(digits.take(i - from + 1)) > u64::MAX);
                    if all_digits(digits) {
                        digits_value_grows(digits, i - from + 1);
                    }
                }
                return None;
            },
        }
        i += 1;
    }
    assert(digits.take(digits.len() as int) =~= digits);
    Some(n)
}

// ---------------------------------------------------------------------------
// Weighing
// ---------------------------------------------------------------------------

pub open spec fn is_separator(c: char) -> bool {
    c == '/' || c == '\\'
}

/// How many path separators a text holds.
pub open spec fn separators(s: Seq<char>) -> nat
    decreases s.len(),
{
    if s.len() == 0 {
        0
    } else {
        separators(s.drop_last()) + if is_separator(s.last()) {
            1nat
        } else {
            0nat
        }
    }
}

/// What a text weighs: a tilde is lighter than any other character.
pub open spec fn weight(s: Seq<char>) -> nat
    decreases s.len(),
{
    if s.len() == 0 {
        0
    } else {
        weight(s.drop_last()) + if s.last() == '~' {
            1nat
        } else {
            2nat
        }
    }
}

/// A text holds fewer separators than another, or as many and weighs less.
pub open spec fn is_lighter(a: Seq<char>, b: Seq<char>) -> bool {
    separators(a) < separators(b) || separators(a) == separators(b) && weight(a) < weight(b)
}

fn weigh(s: &str) -> (r: (u128, u128))
    ensures
        r.0 == separators(s@),
        r.1 == weight(s@),
{
    let v = chars_of(s);
    let mut count: u128 = 0;
    let mut heavy: u128 = 0;
    let mut i: usize = 0;
    assert(v@.take(0) =~= Seq::<char>::empty());
    while i < v.len()
        invariant
            i <= v.len(),
            count == separators(v@.take(i as int)),
            heavy == weight(v@.take(i as int)),
            count <= i,
            heavy <= 2 * i,
        decreases v.len() - i,
    {
        assert(v@.take(i + 1).drop_last() =~= v@.take(i as int));
        assert(v@.take(i + 1).last() == v@[i as int]);
        if v[i] == '/' || v[i] == '\\' {
            count += 1;
        }
        if v[i] == '~' {
            heavy += 1;
        } else {
            heavy += 2;
        }
        i += 1;
    }
    assert(v@.take(v@.len() as int) =~= s@);
    (count, heavy)
}

pub fn lighter(a: &str, b: &str) -> (r: bool)
    ensures
        r == is_lighter(a@, b@),
{
    let (p, v) = weigh(a);
    let (q, w) = weigh(b);
    p < q || p == q && v < w
}

pub fn holds_separator(s: &str) -> (r: bool)
    ensures
        r == (separators(s@) > 0),
{
    weigh(s).0 > 0
}

pub proof fn separators_add_up(a: Seq<char>, b: Seq<char>)
    ensures
        separators(a + b) == separators(a) + separators(b),
    decreases b.len(),
{
    if b.len() == 0 {
        assert(a + b =~= a);
    } else {
        assert((a + b).drop_last() =~= a + b.drop_last());
        separators_add_up(a, b.drop_last());
    }
}

pub proof fn weights_add_up(a: Seq<char>, b: Seq<char>)
    ensures
        weight(a + b) == weight(a) + weight(b),
    decreases b.len(),
{
    if b.len() == 0 {
        assert(a + b =~= a);
    } else {
        assert((a + b).drop_last() =~= a + b.drop_last());
        weights_add_up(a, b.drop_last());
    }
}

/// Slashes in place of backslashes separate as much.
pub proof fn slashes_for_backslashes(s: Seq<char>)
    ensures
        separators(with_char_replaced(s, '\\', "/"@)) == separators(s),
        weight(with_char_replaced(s, '\\', "/"@)) == weight(s),
    decreases s.len(),
{
    reveal_strlit("/");
    if s.len() > 0 {
        slashes_for_backslashes(s.drop_last());
        let before = with_char_replaced(s.drop_last(), '\\', "/"@);
        let last = if s.last() == '\\' {
            "/"@
        } else {
            seq![s.last()]
        };
        separators_add_up(before, last);
        weights_add_up(before, last);
        assert(last.drop_last() =~= Seq::<char>::empty());
        assert(separators(last.drop_last()) == 0 && weight(last.drop_last()) == 0);
        assert(separators(last) == if is_separator(s.last()) {
            1nat
        } else {
            0nat
        });
    }
}

} // verus!
