//! Regular expressions over texts.
//!
//! The matching is the `regex` crate's. What a pattern finds in a text has a
//! name here, and what is built from it is verified.

use vstd::prelude::*;

verus! {

/// What the matches of a pattern in a text are, in order and without overlap;
/// nothing when the pattern is not a regular expression.
pub uninterp spec fn matches_in(pattern: Seq<char>, text: Seq<char>) -> Option<Seq<Seq<char>>>;

/// What stands between the matches of a pattern in a text, in order; nothing
/// when the pattern is not a regular expression.
pub uninterp spec fn pieces_in(pattern: Seq<char>, text: Seq<char>) -> Option<Seq<Seq<char>>>;

/// The groups of the first match of a pattern in a text, the whole match
/// first; a group that took no part is absent. Nothing when there is no match
/// or the pattern is not a regular expression.
pub uninterp spec fn groups_in(pattern: Seq<char>, text: Seq<char>) -> Option<Seq<Option<Seq<char>>>>;

/// `regex::Regex::find_iter`: the texts of the matches, in order. They depend
/// on the pattern and the text alone.
#[verifier::external_body]
pub(crate) fn find_all(pattern: &str, text: &str) -> (r: Option<Vec<String>>)
    ensures
        r.deep_view() == matches_in(pattern@, text@),
{
    let regex = regex::Regex::new(pattern).ok()?;
    Some(regex.find_iter(text).map(|found| found.as_str().to_string()).collect())
}

/// `regex::Regex::split`: the texts between the matches, one more of them than
/// there are matches. With the matches put back between them they are the text
/// that was split.
#[verifier::external_body]
pub(crate) fn split_by(pattern: &str, text: &str) -> (r: Option<Vec<String>>)
    ensures
        r.deep_view() == pieces_in(pattern@, text@),
        r is Some == matches_in(pattern@, text@) is Some,
        r.deep_view() matches Some(pieces) ==> pieces.len() == matches_in(pattern@, text@)->0.len() + 1
            && interleaved(pieces, matches_in(pattern@, text@)->0) == text@,
{
    let regex = regex::Regex::new(pattern).ok()?;
    Some(regex.split(text).map(|piece| piece.to_string()).collect())
}

/// `regex::Regex::captures`: the groups of the first match. They depend on the
/// pattern and the text alone.
#[verifier::external_body]
pub(crate) fn captures(pattern: &str, text: &str) -> (r: Option<Vec<Option<String>>>)
    ensures
        r.deep_view() == groups_in(pattern@, text@),
{
    let regex = regex::Regex::new(pattern).ok()?;
    let groups = regex.captures(text)?;
    Some(groups.iter().map(|group| group.map(|g| g.as_str().to_string())).collect())
}

/// Pieces with what stands between them, one text between each two.
pub open spec fn interleaved(pieces: Seq<Seq<char>>, between: Seq<Seq<char>>) -> Seq<char>
    decreases between.len(),
{
    if between.len() == 0 {
        pieces[0]
    } else {
        interleaved(pieces.drop_last(), between.drop_last()) + between.last() + pieces.last()
    }
}

pub fn interleave(pieces: &Vec<String>, between: &Vec<String>) -> (r: String)
    requires
        pieces.len() == between.len() + 1,
    ensures
        r@ == interleaved(pieces.deep_view(), between.deep_view()),
{
    let ghost p = pieces.deep_view();
    let ghost b = between.deep_view();
    let mut r = pieces[0].clone();
    let mut i: usize = 0;
    assert(p.take(1)[0] == pieces@[0]@);
    while i < between.len()
        invariant
            i <= between.len(),
            pieces.len() == between.len() + 1,
            p == pieces.deep_view(),
            b == between.deep_view(),
            r@ == interleaved(p.take(i + 1), b.take(i as int)),
        decreases between.len() - i,
    {
        r.append(between[i].as_str());
        r.append(pieces[i + 1].as_str());
        assert(p.take(i + 2).drop_last() =~= p.take(i + 1));
        assert(b.take(i + 1).drop_last() =~= b.take(i as int));
        assert(p.take(i + 2).last() == pieces@[i + 1]@);
        assert(b.take(i + 1).last() == between@[i as int]@);
        i += 1;
    }
    assert(p.take(p.len() as int) =~= p);
    assert(b.take(b.len() as int) =~= b);
    r
}

/// The texts of two groups of a match, where both took part.
pub open spec fn group_pair(groups: Option<Seq<Option<Seq<char>>>>, i: int, j: int) -> Option<(Seq<char>, Seq<char>)> {
    match groups {
        Some(groups) => if i < groups.len() && j < groups.len() && groups[i] is Some && groups[j] is Some {
            Some((groups[i]->0, groups[j]->0))
        } else {
            None
        },
        None => None,
    }
}

pub fn two_groups(groups: Option<Vec<Option<String>>>, i: usize, j: usize) -> (r: Option<(String, String)>)
    ensures
        r.deep_view() == group_pair(groups.deep_view(), i as int, j as int),
{
    match groups {
        Some(groups) => {
            if i < groups.len() && j < groups.len() {
                assert(groups.deep_view()[i as int] == groups@[i as int].deep_view());
                assert(groups.deep_view()[j as int] == groups@[j as int].deep_view());
                match (&groups[i], &groups[j]) {
                    (Some(a), Some(b)) => Some((a.clone(), b.clone())),
                    _ => None,
                }
            } else {
                None
            }
        },
        None => None,
    }
}

} // verus!
