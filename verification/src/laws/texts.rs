//! Texts put together and taken apart.

use crate::text::{
    after_prefix, first_at, first_cut, first_index_is, first_occurrence, has_prefix, has_text, joined, last_cut,
    nonempty, occurs_at, split_at_text, trimmed_end_of, trimmed_of, trimmed_start_of,
};
use vstd::prelude::*;

verus! {

/// The first occurrence of a character parts a text.
pub proof fn cut_at_a_character(s: Seq<char>, c: char)
    ensures
        match first_cut(s, seq![c]) {
            Some((before, behind)) => s == before + seq![c] + behind && !before.contains(c),
            None => !s.contains(c),
        },
{
    let p = seq![c];
    if has_text(s, p) {
        let i = first_occurrence(s, p);
        first_index_is(s, p, i);
        assert(s.subrange(i, i + 1) =~= p);
        assert(s[i] == s.subrange(i, i + 1)[0]);
        assert(s =~= s.take(i) + p + s.skip(i + 1));
        assert forall|k: int| 0 <= k < i implies s.take(i)[k] != c by {
            if s[k] == c {
                assert(s.subrange(k, k + 1) =~= p);
                assert(occurs_at(s, p, k));
            }
        }
    } else if s.contains(c) {
        let k = choose|k: int| 0 <= k < s.len() && s[k] == c;
        assert(s.subrange(k, k + 1) =~= p);
        assert(occurs_at(s, p, k));
    }
}

/// A text is parted where the character first stands.
pub proof fn a_cut_is_where_it_stands(s: Seq<char>, c: char, before: Seq<char>, behind: Seq<char>)
    requires
        s == before + seq![c] + behind,
        !before.contains(c),
    ensures
        first_cut(s, seq![c]) == Some((before, behind)),
{
    let p = seq![c];
    let i = before.len() as int;
    assert(s.subrange(i, i + 1) =~= p);
    assert forall|j: int| 0 <= j < i implies !occurs_at(s, p, j) by {
        if occurs_at(s, p, j) {
            assert(s.subrange(j, j + 1)[0] == s[j]);
            assert(before[j] == c);
        }
    }
    assert(first_at(s, p, 0, i));
    first_index_is(s, p, i);
    assert(s.take(i) =~= before);
    assert(s.skip(i + 1) =~= behind);
}

/// A prefix and what follows it are the text.
pub proof fn prefix_and_rest(s: Seq<char>, p: Seq<char>)
    ensures
        after_prefix(s, p) matches Some(rest) ==> s == p + rest,
{
    if has_prefix(s, p) {
        assert(s =~= s.subrange(0, p.len() as int) + s.skip(p.len() as int));
    }
}

/// What follows a prefix is what was put behind it.
pub proof fn a_prefix_is_taken_off(p: Seq<char>, rest: Seq<char>)
    ensures
        after_prefix(p + rest, p) == Some(rest),
{
    assert((p + rest).subrange(0, p.len() as int) =~= p);
    assert((p + rest).skip(p.len() as int) =~= rest);
}

/// What stands before and behind the last of a character.
pub proof fn a_last_cut_is_where_it_stands(before: Seq<char>, c: char, behind: Seq<char>)
    requires
        !behind.contains(c),
    ensures
        last_cut(before + seq![c] + behind, c) == Some((before, behind)),
    decreases behind.len(),
{
    let s = before + seq![c] + behind;
    if behind.len() == 0 {
        assert(s.last() == c);
        assert(s.drop_last() =~= before);
        assert(behind =~= Seq::<char>::empty());
    } else {
        let init = behind.drop_last();
        assert(behind.contains(behind.last()));
        assert(s.last() == behind.last());
        assert forall|k: int| 0 <= k < init.len() implies init[k] != c by {
            assert(behind.contains(behind[k]));
        }
        a_last_cut_is_where_it_stands(before, c, init);
        assert(s.drop_last() =~= before + seq![c] + init);
        assert(init.push(behind.last()) =~= behind);
    }
}

/// A list in which nothing is empty keeps all of it.
pub proof fn nothing_is_left_out(parts: Seq<Seq<char>>)
    requires
        forall|i: int| 0 <= i < parts.len() ==> (#[trigger] parts[i]).len() > 0,
    ensures
        nonempty(parts) == parts,
    decreases parts.len(),
{
    reveal(Seq::filter);
    if parts.len() > 0 {
        let init = parts.drop_last();
        assert forall|i: int| 0 <= i < init.len() implies (#[trigger] init[i]).len() > 0 by {
            assert(init[i] == parts[i]);
        }
        nothing_is_left_out(init);
        assert(parts[parts.len() - 1].len() > 0);
        assert(init.push(parts.last()) =~= parts);
    }
}

/// A joined list begins with its first text.
pub proof fn joined_from_the_front(parts: Seq<Seq<char>>, sep: Seq<char>)
    requires
        parts.len() > 1,
    ensures
        joined(parts, sep) == parts[0] + sep + joined(parts.skip(1), sep),
    decreases parts.len(),
{
    let tail = parts.skip(1);
    if parts.len() == 2 {
        assert(joined(parts.drop_last(), sep) == parts[0]);
        assert(joined(tail, sep) == parts[1]);
        assert(joined(parts, sep) == parts[0] + sep + parts[1]);
    } else {
        let init = parts.drop_last();
        joined_from_the_front(init, sep);
        assert(init.skip(1) =~= tail.drop_last());
        assert(tail.last() == parts.last());
        assert(joined(parts, sep) =~= init[0] + sep + (joined(init.skip(1), sep) + sep + parts.last()));
    }
}

/// Texts that do not hold a character are found again once they are joined with
/// it and split at it.
pub proof fn joined_and_split(parts: Seq<Seq<char>>, c: char)
    requires
        parts.len() > 0,
        forall|i: int| 0 <= i < parts.len() ==> !(#[trigger] parts[i]).contains(c),
    ensures
        split_at_text(joined(parts, seq![c]), seq![c]) == parts,
    decreases parts.len(),
{
    let s = joined(parts, seq![c]);
    if parts.len() == 1 {
        cut_at_a_character(s, c);
        if first_cut(s, seq![c]) is Some {
            let (before, behind) = first_cut(s, seq![c])->0;
            assert(s[before.len() as int] == c);
            assert(parts[0].contains(c));
        }
        assert(split_at_text(s, seq![c]) =~= parts);
    } else {
        let tail = parts.skip(1);
        joined_from_the_front(parts, seq![c]);
        let rest = joined(tail, seq![c]);
        assert(!parts[0].contains(c));
        a_cut_is_where_it_stands(s, c, parts[0], rest);
        assert forall|i: int| 0 <= i < tail.len() implies !(#[trigger] tail[i]).contains(c) by {
            assert(tail[i] == parts[i + 1]);
        }
        joined_and_split(tail, c);
        assert(seq![parts[0]] + tail =~= parts);
    }
}

/// A text that neither begins nor ends with a character has none of it to trim.
pub proof fn nothing_to_trim(s: Seq<char>, c: char)
    requires
        s.len() > 0 ==> s[0] != c && s.last() != c,
    ensures
        trimmed_of(s, c) == s,
        trimmed_start_of(s, c) == s,
        trimmed_end_of(s, c) == s,
{
}

/// A joined list holds each of its texts.
pub proof fn joined_holds_each(parts: Seq<Seq<char>>, sep: Seq<char>, k: int)
    requires
        0 <= k < parts.len(),
    ensures
        has_text(joined(parts, sep), parts[k]),
    decreases parts.len(),
{
    let s = joined(parts, sep);
    if parts.len() == 1 {
        assert(s.subrange(0, parts[0].len() as int) =~= parts[0]);
        assert(occurs_at(s, parts[0], 0));
    } else {
        let before = joined(parts.drop_last(), sep);
        if k == parts.len() - 1 {
            let i = (before + sep).len() as int;
            assert(s.subrange(i, i + parts[k].len()) =~= parts[k]);
            assert(occurs_at(s, parts[k], i));
        } else {
            joined_holds_each(parts.drop_last(), sep, k);
            let i = choose|i: int| occurs_at(before, parts[k], i);
            assert(s.subrange(i, i + parts[k].len()) =~= before.subrange(i, i + parts[k].len()));
            assert(occurs_at(s, parts[k], i));
        }
    }
}

/// What stands in a part of a text stands in the text.
pub proof fn a_part_is_held(a: Seq<char>, b: Seq<char>, c: Seq<char>, p: Seq<char>)
    requires
        has_text(b, p),
    ensures
        has_text(a + b + c, p),
{
    let s = a + b + c;
    let i = choose|i: int| occurs_at(b, p, i);
    assert(s.subrange(a.len() + i, a.len() + i + p.len()) =~= b.subrange(i, i + p.len()));
    assert(occurs_at(s, p, a.len() + i));
}

} // verus!
