//! File paths as texts with forward slashes.
//!
//! Two spellings of a path that name the same components are the same path:
//! repeated slashes, inner dots and a slash at the end do not count.

use crate::sorting::{by_rank_once, place_once, Ranked, Sortable};
use crate::text::{
    concat, concat3, ends_with, has_prefix, has_suffix, join, join_then_split, joined, less, same, split_at_char, split_char,
    split_then_join, starts_with, text_less, text_less_irreflexive, text_less_total, text_less_transitive,
};
use crate::duplicate::Duplicate;
use vstd::prelude::*;

verus! {

/// The pieces between slashes that name something.
pub open spec fn naming(parts: Seq<Seq<char>>) -> Seq<Seq<char>>
    decreases parts.len(),
{
    if parts.len() == 0 {
        Seq::empty()
    } else if parts.last().len() == 0 || parts.last() == "."@ {
        naming(parts.drop_last())
    } else {
        naming(parts.drop_last()).push(parts.last())
    }
}

/// The components of a path: the root as a slash, or the current directory as
/// a dot where the path begins with it, and the names behind it.
pub open spec fn components(path: Seq<char>) -> Seq<Seq<char>> {
    let parts = split_at_char(path, '/');
    if has_prefix(path, "/"@) {
        seq!["/"@] + naming(parts)
    } else if parts[0] == "."@ {
        seq!["."@] + naming(parts)
    } else {
        naming(parts)
    }
}

fn naming_parts(parts: &Vec<String>, start: Option<&str>) -> (r: Vec<String>)
    ensures
        r.deep_view() == (match start {
            Some(s) => seq![s@],
            None => Seq::empty(),
        }) + naming(parts.deep_view()),
{
    let ghost all = parts.deep_view();
    let ghost first: Seq<Seq<char>> = match start {
        Some(s) => seq![s@],
        None => Seq::empty(),
    };
    let mut r: Vec<String> = Vec::new();
    match start {
        Some(s) => r.push(s.to_owned()),
        None => {},
    }
    let mut i: usize = 0;
    assert(r.deep_view() =~= first + naming(all.take(0)));
    while i < parts.len()
        invariant
            i <= parts.len(),
            all == parts.deep_view(),
            r.deep_view() == first + naming(all.take(i as int)),
        decreases parts.len() - i,
    {
        let ghost before = r.deep_view();
        assert(all.take(i + 1).drop_last() == all.take(i as int));
        assert(all.take(i + 1).last() == parts@[i as int]@);
        if !parts[i].as_str().is_empty() && !same(parts[i].as_str(), ".") {
            r.push(parts[i].clone());
            assert(r.deep_view() =~= before.push(parts@[i as int]@));
            assert(r.deep_view() =~= first + naming(all.take(i as int)).push(parts@[i as int]@));
        }
        i += 1;
    }
    assert(all.take(all.len() as int) == all);
    r
}

pub fn components_of(path: &str) -> (r: Vec<String>)
    ensures
        r.deep_view() == components(path@),
{
    let parts = split_char(path, '/');
    proof {
        split_then_join(path@, '/');
        assert(parts.deep_view().len() == parts@.len());
        assert(parts.deep_view()[0] == parts@[0]@);
    }
    if starts_with(path, "/") {
        naming_parts(&parts, Some("/"))
    } else if same(parts[0].as_str(), ".") {
        naming_parts(&parts, Some("."))
    } else {
        naming_parts(&parts, None)
    }
}

/// A path taken from a directory: an absolute path stands for itself.
pub open spec fn resolved(directory: Seq<char>, path: Seq<char>) -> Seq<char> {
    if has_prefix(path, "/"@) {
        path
    } else if directory.len() == 0 || has_suffix(directory, "/"@) {
        directory + path
    } else {
        directory + "/"@ + path
    }
}

pub fn resolve(directory: &str, path: &str) -> (r: String)
    ensures
        r@ == resolved(directory@, path@),
{
    if starts_with(path, "/") {
        path.to_owned()
    } else if directory.is_empty() || ends_with(directory, "/") {
        concat(directory, path)
    } else {
        concat3(directory, "/", path)
    }
}

/// The pieces of a path up to its last name.
pub open spec fn up_to_last_name(parts: Seq<Seq<char>>) -> Seq<Seq<char>>
    decreases parts.len(),
{
    if parts.len() == 0 {
        Seq::empty()
    } else if parts.last().len() == 0 || parts.last() == "."@ {
        up_to_last_name(parts.drop_last())
    } else {
        parts
    }
}

/// Where a path begins, before any name in it: at the root, in the current
/// directory, or with a name.
pub open spec fn beginning(path: Seq<char>) -> Seq<char> {
    if has_prefix(path, "/"@) {
        "/"@
    } else if split_at_char(path, '/')[0] == "."@ {
        "."@
    } else {
        Seq::empty()
    }
}

/// The first pieces of a path, spelled as they are there.
pub open spec fn as_spelled(path: Seq<char>, parts: Seq<Seq<char>>) -> Seq<char> {
    if parts.len() == 0 {
        beginning(path)
    } else {
        joined(parts, "/"@)
    }
}

/// A path without the slashes and dots behind its last name.
pub open spec fn up_to_name(path: Seq<char>) -> Seq<char> {
    as_spelled(path, up_to_last_name(split_at_char(path, '/')))
}

/// The directory that a path lies in, spelled as it is in the path. The root and
/// an empty path lie in none.
pub open spec fn parent_of(path: Seq<char>) -> Option<Seq<char>> {
    let named = up_to_last_name(split_at_char(path, '/'));
    if named.len() > 0 {
        Some(as_spelled(path, up_to_last_name(named.drop_last())))
    } else if beginning(path) == "."@ {
        Some(Seq::empty())
    } else {
        None
    }
}

proof fn pieces_fill_a_text(parts: Seq<Seq<char>>)
    requires
        parts.len() > 0,
    ensures
        joined(parts, "/"@).len() >= parts.len() - 1 + parts.last().len(),
    decreases parts.len(),
{
    reveal_strlit("/");
    if parts.len() > 1 {
        pieces_fill_a_text(parts.drop_last());
    }
}

proof fn fewer_pieces_are_shorter(parts: Seq<Seq<char>>, n: int)
    requires
        0 < n <= parts.len(),
    ensures
        joined(parts.take(n), "/"@).len() + (parts.len() - n) <= joined(parts, "/"@).len(),
    decreases parts.len(),
{
    reveal_strlit("/");
    if n == parts.len() {
        assert(parts.take(n) =~= parts);
    } else {
        fewer_pieces_are_shorter(parts.drop_last(), n);
        assert(parts.drop_last().take(n) =~= parts.take(n));
    }
}

proof fn last_names_begin(parts: Seq<Seq<char>>)
    ensures
        up_to_last_name(parts).len() <= parts.len(),
        up_to_last_name(parts) == parts.take(up_to_last_name(parts).len() as int),
        up_to_last_name(parts).len() > 0 ==> up_to_last_name(parts).last().len() > 0 && up_to_last_name(parts).last() != "."@,
    decreases parts.len(),
{
    if parts.len() > 0 {
        if parts.last().len() == 0 || parts.last() == "."@ {
            last_names_begin(parts.drop_last());
            let n = up_to_last_name(parts).len() as int;
            assert(parts.drop_last().take(n) =~= parts.take(n));
        } else {
            assert(parts.take(parts.len() as int) =~= parts);
        }
    } else {
        assert(up_to_last_name(parts) =~= parts.take(0));
    }
}

/// A directory is spelled shorter than what lies in it.
pub proof fn a_parent_is_shorter(path: Seq<char>)
    ensures
        parent_of(path) matches Some(parent) ==> parent.len() < path.len(),
{
    reveal_strlit("/");
    reveal_strlit(".");
    let parts = split_at_char(path, '/');
    let named = up_to_last_name(parts);
    split_then_join(path, '/');
    assert("/"@ =~= seq!['/']);
    last_names_begin(parts);
    if named.len() > 0 {
        let above = up_to_last_name(named.drop_last());
        last_names_begin(named.drop_last());
        pieces_fill_a_text(named);
        fewer_pieces_are_shorter(parts, named.len() as int);
        if above.len() > 0 {
            assert(named.drop_last().take(above.len() as int) =~= named.take(above.len() as int));
            fewer_pieces_are_shorter(named, above.len() as int);
        } else if has_prefix(path, "/"@) {
            a_rooted_path_begins_with_nothing(path);
            assert(named[0] == parts[0]);
        } else if parts[0] == "."@ {
            assert(named[0] == parts[0]);
        }
    } else if beginning(path) == "."@ {
        assert(path.len() > 0) by {
            if path.len() == 0 {
                assert(parts[0] =~= Seq::<char>::empty());
            }
        }
    }
}

proof fn a_rooted_path_begins_with_nothing(path: Seq<char>)
    requires
        has_prefix(path, "/"@),
    ensures
        split_at_char(path, '/')[0].len() == 0,
    decreases path.len(),
{
    reveal_strlit("/");
    let init = path.drop_last();
    split_then_join(init, '/');
    if path.len() == 1 {
        assert(path[0] == "/"@[0]);
        assert(split_at_char(init, '/') =~= seq![Seq::<char>::empty()]);
    } else {
        assert(init.take(1) =~= path.take(1));
        assert(has_prefix(init, "/"@));
        a_rooted_path_begins_with_nothing(init);
        if path.last() != '/' && split_at_char(init, '/').len() == 1 {
            assert(joined(split_at_char(init, '/'), seq!['/']) == init);
        }
    }
}

proof fn only_names_name(parts: Seq<Seq<char>>)
    ensures
        naming(up_to_last_name(parts)) == naming(parts),
    decreases parts.len(),
{
    if parts.len() > 0 && (parts.last().len() == 0 || parts.last() == "."@) {
        only_names_name(parts.drop_last());
    }
}

/// The first pieces of a path, up to a name, are the path of their names.
proof fn spelled_pieces_name_themselves(path: Seq<char>, parts: Seq<Seq<char>>)
    requires
        parts.len() <= split_at_char(path, '/').len(),
        parts == split_at_char(path, '/').take(parts.len() as int),
        parts.len() > 0 ==> parts.last().len() > 0 && parts.last() != "."@,
    ensures
        components(as_spelled(path, parts)) == (if beginning(path).len() == 0 {
            naming(parts)
        } else {
            seq![beginning(path)] + naming(parts)
        }),
{
    reveal_strlit("/");
    reveal_strlit(".");
    let all = split_at_char(path, '/');
    split_then_join(path, '/');
    assert("/"@ =~= seq!['/']);
    let text = as_spelled(path, parts);
    if parts.len() == 0 {
        beginnings_have_no_names(path);
        if beginning(path).len() > 0 {
            assert(seq![beginning(path)] + naming(parts) =~= seq![beginning(path)]);
        }
    } else {
        assert forall|i: int| 0 <= i < parts.len() implies !(#[trigger] parts[i]).contains('/') by {
            assert(all[i] == parts[i]);
        }
        join_then_split(parts, '/');
        assert(split_at_char(text, '/') == parts);
        assert(parts[0] == all[0]);
        rooted_by_the_first_piece(path);
        rooted_by_the_first_piece(text);
        if has_prefix(path, "/"@) {
            assert(parts.len() > 1);
        }
        if has_prefix(text, "/"@) {
            assert(all.len() > 1);
        }
    }
}

proof fn beginnings_have_no_names(path: Seq<char>)
    ensures
        components(beginning(path)) == (if beginning(path).len() == 0 {
            Seq::<Seq<char>>::empty()
        } else {
            seq![beginning(path)]
        }),
{
    reveal_strlit("/");
    reveal_strlit(".");
    let none = Seq::<char>::empty();
    assert(split_at_char(none, '/') =~= seq![none]);
    assert(seq![none].drop_last() =~= Seq::<Seq<char>>::empty());
    assert(naming(seq![none].drop_last()) =~= Seq::<Seq<char>>::empty());
    assert("/"@.drop_last() =~= none);
    assert(split_at_char("/"@, '/') =~= seq![none, none]);
    assert(seq![none, none].drop_last() =~= seq![none]);
    assert(naming(seq![none]) =~= Seq::<Seq<char>>::empty());
    assert(naming(seq![none, none]) =~= Seq::<Seq<char>>::empty());
    assert("."@.drop_last() =~= none);
    assert(none.push('.') =~= "."@);
    assert(split_at_char("."@, '/') =~= seq!["."@]);
    assert(seq!["."@].drop_last() =~= Seq::<Seq<char>>::empty());
    assert(naming(seq!["."@]) =~= Seq::<Seq<char>>::empty());
    assert("/"@.subrange(0, 1) =~= "/"@);
    assert(has_prefix("/"@, "/"@));
    assert(!has_prefix("."@, "/"@));
    assert(components("/"@) =~= seq!["/"@]);
    assert(components("."@) =~= seq!["."@]);
    assert(components(none) =~= Seq::<Seq<char>>::empty());
}

/// A path begins at the root where its first piece is empty and not its only one.
proof fn rooted_by_the_first_piece(path: Seq<char>)
    ensures
        has_prefix(path, "/"@) <==> split_at_char(path, '/').len() > 1 && split_at_char(path, '/')[0].len() == 0,
    decreases path.len(),
{
    reveal_strlit("/");
    split_then_join(path, '/');
    if path.len() > 0 {
        let init = path.drop_last();
        let before = split_at_char(init, '/');
        split_then_join(init, '/');
        rooted_by_the_first_piece(init);
        if init.len() == 0 {
            assert(before =~= seq![Seq::<char>::empty()]);
            if path.last() == '/' {
                assert(path.take(1) =~= "/"@);
            } else {
                assert(path[0] == path.last());
                assert(path.take(1)[0] != "/"@[0]);
            }
        } else {
            assert(init.take(1) =~= path.take(1));
            if before.len() == 1 {
                assert(before[0] =~= init);
            }
        }
    } else {
        assert(!has_prefix(path, "/"@));
    }
}

/// A directory is named by the components of what lies in it, without the last.
pub proof fn a_parent_drops_the_last_component(path: Seq<char>)
    ensures
        parent_of(path) matches Some(parent) ==> components(path).len() > 0 && components(parent) == components(path).drop_last(),
        parent_of(path) is None <==> components(path).len() == 0 || components(path).last() == "/"@,
{
    reveal_strlit("/");
    reveal_strlit(".");
    let parts = split_at_char(path, '/');
    let named = up_to_last_name(parts);
    split_then_join(path, '/');
    last_names_begin(parts);
    only_names_name(parts);
    rooted_by_the_first_piece(path);
    if named.len() > 0 {
        let rest = named.drop_last();
        let above = up_to_last_name(rest);
        last_names_begin(rest);
        only_names_name(rest);
        assert(rest.take(above.len() as int) =~= parts.take(above.len() as int));
        spelled_pieces_name_themselves(path, above);
        assert(naming(named) == naming(rest).push(named.last()));
        assert(named.last() != "/"@) by {
            assert(named.last() == parts[named.len() - 1]);
            assert(!parts[named.len() - 1].contains('/'));
            if named.last() == "/"@ {
                assert("/"@[0] == '/');
                assert(named.last().contains('/'));
            }
        }
        if beginning(path).len() > 0 {
            let head = seq![beginning(path)];
            assert((head + naming(named)).drop_last() =~= head + naming(rest));
            assert((head + naming(named)).last() == named.last());
        } else {
            assert(naming(named).drop_last() =~= naming(rest));
            assert(naming(named).last() == named.last());
        }
        assert(components(path).last() == named.last());
    } else {
        assert(naming(named) =~= Seq::<Seq<char>>::empty());
        beginnings_have_no_names(Seq::empty());
        assert(split_at_char(Seq::<char>::empty(), '/') =~= seq![Seq::<char>::empty()]);
        assert(beginning(Seq::<char>::empty()) =~= Seq::<char>::empty());
        if beginning(path) == "."@ {
            assert(components(path) =~= seq!["."@]);
            assert("."@[0] != "/"@[0]);
            assert(components(path).drop_last() =~= Seq::<Seq<char>>::empty());
        } else if beginning(path) == "/"@ {
            assert(components(path) =~= seq!["/"@]);
        }
    }
}

fn begin(path: &str, parts: &Vec<String>) -> (r: &'static str)
    requires
        parts.deep_view() == split_at_char(path@, '/'),
    ensures
        r@ == beginning(path@),
{
    proof {
        split_then_join(path@, '/');
        assert(parts.deep_view().len() == parts@.len());
        assert(parts.deep_view()[0] == parts@[0]@);
        reveal_strlit("");
    }
    if starts_with(path, "/") {
        "/"
    } else if same(parts[0].as_str(), ".") {
        "."
    } else {
        ""
    }
}

fn keep_to_last_name(parts: &mut Vec<String>)
    ensures
        final(parts).deep_view() == up_to_last_name(old(parts).deep_view()),
{
    let ghost all = parts.deep_view();
    while parts.len() > 0 && (parts[parts.len() - 1].as_str().is_empty() || same(parts[parts.len() - 1].as_str(), "."))
        invariant
            up_to_last_name(parts.deep_view()) == up_to_last_name(all),
        decreases parts@.len(),
    {
        let ghost now = parts.deep_view();
        assert(now.len() == parts@.len());
        assert(now.last() == parts@.last()@);
        parts.pop();
        assert(parts.deep_view() =~= now.drop_last());
    }
    assert(parts.deep_view().len() == parts@.len());
    if parts.len() > 0 {
        assert(parts.deep_view().last() == parts@.last()@);
    } else {
        assert(parts.deep_view() =~= Seq::<Seq<char>>::empty());
    }
}

fn spell(beginning: &str, parts: &Vec<String>) -> (r: String)
    ensures
        r@ == (if parts@.len() == 0 {
            beginning@
        } else {
            joined(parts.deep_view(), "/"@)
        }),
{
    if parts.len() == 0 {
        beginning.to_owned()
    } else {
        join(parts, "/")
    }
}

fn trim_to_name(path: &str) -> (r: String)
    ensures
        r@ == up_to_name(path@),
{
    let mut parts = split_char(path, '/');
    let start = begin(path, &parts);
    keep_to_last_name(&mut parts);
    assert(parts.deep_view().len() == parts@.len());
    spell(start, &parts)
}

pub fn parent(path: &str) -> (r: Option<String>)
    ensures
        r.deep_view() == parent_of(path@),
{
    let mut parts = split_char(path, '/');
    let start = begin(path, &parts);
    keep_to_last_name(&mut parts);
    let ghost named = parts.deep_view();
    assert(named.len() == parts@.len());
    if parts.len() > 0 {
        parts.pop();
        assert(parts.deep_view() =~= named.drop_last());
        keep_to_last_name(&mut parts);
        assert(parts.deep_view().len() == parts@.len());
        Some(spell(start, &parts))
    } else if same(start, ".") {
        let above = String::new();
        assert(above@ =~= Seq::<char>::empty());
        Some(above)
    } else {
        None
    }
}

/// Two paths name the same components.
pub open spec fn same_path(a: Seq<char>, b: Seq<char>) -> bool {
    components(a) == components(b)
}

fn same_lists(a: &Vec<String>, b: &Vec<String>) -> (r: bool)
    ensures
        r == (a.deep_view() == b.deep_view()),
{
    begins_with(a, b) && a.len() == b.len()
}

fn begins_with(a: &Vec<String>, b: &Vec<String>) -> (r: bool)
    ensures
        r == (b@.len() <= a@.len() && a.deep_view().take(b@.len() as int) == b.deep_view()),
        r && a@.len() == b@.len() ==> a.deep_view() == b.deep_view(),
        a.deep_view() == b.deep_view() ==> r && a@.len() == b@.len(),
{
    let ghost x = a.deep_view();
    let ghost y = b.deep_view();
    assert(x.len() == a@.len() && y.len() == b@.len());
    assert(x.take(x.len() as int) =~= x);
    if b.len() > a.len() {
        return false;
    }
    let mut i: usize = 0;
    while i < b.len()
        invariant
            i <= b.len() <= a.len(),
            x == a.deep_view(),
            y == b.deep_view(),
            forall|j: int| 0 <= j < i ==> x[j] == y[j],
        decreases b.len() - i,
    {
        assert(x[i as int] == a@[i as int]@);
        assert(y[i as int] == b@[i as int]@);
        if !same(a[i].as_str(), b[i].as_str()) {
            assert(x.take(b@.len() as int)[i as int] != y[i as int]);
            return false;
        }
        i += 1;
    }
    assert(x.take(b@.len() as int) =~= y);
    true
}

pub fn equal_paths(a: &str, b: &str) -> (r: bool)
    ensures
        r == same_path(a@, b@),
{
    same_lists(&components_of(a), &components_of(b))
}

/// A path is a directory or lies somewhere under it.
pub open spec fn lies_under(path: Seq<char>, directory: Seq<char>) -> bool {
    components(directory).len() <= components(path).len() && components(path).take(components(directory).len() as int)
        == components(directory)
}

pub fn is_under(path: &str, directory: &str) -> (r: bool)
    ensures
        r == lies_under(path@, directory@),
{
    let a = components_of(path);
    let b = components_of(directory);
    assert(a.deep_view().len() == a@.len() && b.deep_view().len() == b@.len());
    begins_with(&a, &b)
}

/// The name that a path ends with, if it ends with one.
pub open spec fn name_of(path: Seq<char>) -> Option<Seq<char>> {
    let parts = components(path);
    if parts.len() == 0 || parts.last() == "/"@ || parts.last() == "."@ || parts.last() == ".."@ {
        None
    } else {
        Some(parts.last())
    }
}

pub fn file_name(path: &str) -> (r: Option<String>)
    ensures
        r.deep_view() == name_of(path@),
{
    let parts = components_of(path);
    assert(parts.deep_view().len() == parts@.len());
    if parts.len() == 0 {
        return None;
    }
    let last = &parts[parts.len() - 1];
    assert(parts.deep_view().last() == last@);
    if same(last.as_str(), "/") || same(last.as_str(), ".") || same(last.as_str(), "..") {
        None
    } else {
        Some(last.clone())
    }
}

/// The last component of a path is this name.
pub open spec fn is_named(path: Seq<char>, name: Seq<char>) -> bool {
    components(path).len() > 0 && components(path).last() == name
}

pub fn has_name(path: &str, name: &str) -> (r: bool)
    ensures
        r == is_named(path@, name@),
{
    let parts = components_of(path);
    assert(parts.deep_view().len() == parts@.len());
    if parts.len() == 0 {
        false
    } else {
        assert(parts.deep_view().last() == parts@.last()@);
        same(parts[parts.len() - 1].as_str(), name)
    }
}

// ---------------------------------------------------------------------------
// Order
// ---------------------------------------------------------------------------

/// The kinds of components in their order: the root, the current directory, the
/// directory above, a name.
pub open spec fn part_kind(part: Seq<char>) -> int {
    if part == "/"@ {
        0
    } else if part == "."@ {
        1
    } else if part == ".."@ {
        2
    } else {
        3
    }
}

pub open spec fn part_less(a: Seq<char>, b: Seq<char>) -> bool {
    part_kind(a) < part_kind(b) || part_kind(a) == part_kind(b) && text_less(a, b)
}

/// Component by component: the first difference decides, and a path comes
/// before what lies under it.
pub open spec fn parts_less(a: Seq<Seq<char>>, b: Seq<Seq<char>>) -> bool
    decreases a.len(),
{
    if b.len() == 0 {
        false
    } else if a.len() == 0 {
        true
    } else if a[0] == b[0] {
        parts_less(a.skip(1), b.skip(1))
    } else {
        part_less(a[0], b[0])
    }
}

proof fn parts_less_irreflexive(a: Seq<Seq<char>>)
    ensures
        !parts_less(a, a),
    decreases a.len(),
{
    if a.len() > 0 {
        parts_less_irreflexive(a.skip(1));
    }
}

proof fn part_less_transitive(a: Seq<char>, b: Seq<char>, c: Seq<char>)
    requires
        part_less(a, b),
        part_less(b, c),
    ensures
        part_less(a, c),
        a != c,
{
    if part_kind(a) == part_kind(b) && part_kind(b) == part_kind(c) {
        text_less_transitive(a, b, c);
    }
    text_less_irreflexive(a);
}

proof fn parts_less_transitive(a: Seq<Seq<char>>, b: Seq<Seq<char>>, c: Seq<Seq<char>>)
    requires
        parts_less(a, b),
        parts_less(b, c),
    ensures
        parts_less(a, c),
    decreases a.len(),
{
    if a.len() > 0 {
        if a[0] == b[0] && b[0] == c[0] {
            parts_less_transitive(a.skip(1), b.skip(1), c.skip(1));
        } else if a[0] != b[0] && b[0] != c[0] {
            part_less_transitive(a[0], b[0], c[0]);
        }
    }
}

proof fn parts_less_total(a: Seq<Seq<char>>, b: Seq<Seq<char>>)
    ensures
        a == b || parts_less(a, b) || parts_less(b, a),
    decreases a.len(),
{
    if a.len() > 0 && b.len() > 0 {
        if a[0] == b[0] {
            parts_less_total(a.skip(1), b.skip(1));
            if a.skip(1) == b.skip(1) {
                assert(a =~= seq![a[0]] + a.skip(1));
                assert(b =~= seq![b[0]] + b.skip(1));
            }
        } else {
            text_less_total(a[0], b[0]);
        }
    } else if a.len() == 0 && b.len() == 0 {
        assert(a =~= b);
    }
}

fn part_number(part: &str) -> (r: u8)
    ensures
        r == part_kind(part@),
{
    if same(part, "/") {
        0
    } else if same(part, ".") {
        1
    } else if same(part, "..") {
        2
    } else {
        3
    }
}

fn parts_before(x: &Vec<String>, y: &Vec<String>) -> (r: bool)
    ensures
        r == parts_less(x.deep_view(), y.deep_view()),
{
    let ghost a = x.deep_view();
    let ghost b = y.deep_view();
    assert(a.len() == x@.len() && b.len() == y@.len());
    let mut i: usize = 0;
    assert(a.skip(0) =~= a);
    assert(b.skip(0) =~= b);
    while i < x.len() && i < y.len() && same(x[i].as_str(), y[i].as_str())
        invariant
            i <= x.len(),
            i <= y.len(),
            a == x.deep_view(),
            b == y.deep_view(),
            a.len() == x@.len(),
            b.len() == y@.len(),
            parts_less(a, b) == parts_less(a.skip(i as int), b.skip(i as int)),
        decreases x.len() - i,
    {
        assert(a[i as int] == x@[i as int]@);
        assert(b[i as int] == y@[i as int]@);
        assert(a.skip(i as int).skip(1) =~= a.skip(i + 1));
        assert(b.skip(i as int).skip(1) =~= b.skip(i + 1));
        i += 1;
    }
    if i >= y.len() {
        false
    } else if i >= x.len() {
        true
    } else {
        assert(a[i as int] == x@[i as int]@);
        assert(b[i as int] == y@[i as int]@);
        let p: u8 = part_number(x[i].as_str());
        let q: u8 = part_number(y[i].as_str());
        p < q || p == q && less(x[i].as_str(), y[i].as_str())
    }
}

/// A path that is ordered by its components.
#[derive(Debug, Clone, PartialEq, Eq)]
pub struct FilePath {
    pub text: String,
}

/// What a [`FilePath`] holds.
pub struct FilePathModel {
    pub text: Seq<char>,
}

impl DeepView for FilePath {
    type V = FilePathModel;

    open spec fn deep_view(&self) -> FilePathModel {
        FilePathModel {
            text: self.text@,
        }
    }
}

impl Duplicate for FilePath {
    fn duplicate(&self) -> (r: Self) {
        FilePath {
            text: self.text.clone(),
        }
    }
}

impl Ranked for FilePathModel {
    open spec fn precedes(self, other: Self) -> bool {
        parts_less(components(self.text), components(other.text))
    }

    proof fn precedes_irreflexive(a: Self) {
        parts_less_irreflexive(components(a.text));
    }

    proof fn precedes_transitive(a: Self, b: Self, c: Self) {
        parts_less_transitive(components(a.text), components(b.text), components(c.text));
    }

    proof fn precedes_weakly(a: Self, b: Self, c: Self) {
        let x = components(a.text);
        let y = components(b.text);
        let z = components(c.text);
        parts_less_total(x, y);
        parts_less_total(y, z);
        if parts_less(x, z) {
            if x != y && y != z {
                parts_less_transitive(y, x, z);
                parts_less_transitive(y, z, y);
                parts_less_irreflexive(y);
            }
        }
    }
}

impl Sortable for FilePath {
    fn before(&self, other: &Self) -> (r: bool) {
        parts_before(&components_of(self.text.as_str()), &components_of(other.text.as_str()))
    }
}

/// Paths of one rank are the same path.
pub proof fn paths_of_one_rank_are_the_same(a: FilePathModel, b: FilePathModel)
    ensures
        (!a.precedes(b) && !b.precedes(a)) == same_path(a.text, b.text),
{
    parts_less_total(components(a.text), components(b.text));
    parts_less_irreflexive(components(a.text));
}

pub open spec fn as_paths(list: Seq<Seq<char>>) -> Seq<FilePathModel> {
    list.map_values(|text: Seq<char>| FilePathModel { text })
}

pub open spec fn as_texts(list: Seq<FilePathModel>) -> Seq<Seq<char>> {
    list.map_values(|path: FilePathModel| path.text)
}

/// The paths of a list in their order, each path once: of several spellings
/// the first.
pub open spec fn ordered_paths(list: Seq<Seq<char>>) -> Seq<Seq<char>> {
    as_texts(by_rank_once(as_paths(list)))
}

pub fn order_paths(list: &Vec<String>) -> (r: Vec<String>)
    ensures
        r.deep_view() == ordered_paths(list.deep_view()),
{
    let ghost all = as_paths(list.deep_view());
    let mut sorted: Vec<FilePath> = Vec::new();
    let mut i: usize = 0;
    assert(sorted.deep_view() =~= by_rank_once(all.take(0)));
    while i < list.len()
        invariant
            i <= list.len(),
            all == as_paths(list.deep_view()),
            sorted.deep_view() == by_rank_once(all.take(i as int)),
        decreases list.len() - i,
    {
        assert(all.take(i + 1).drop_last() =~= all.take(i as int));
        assert(list.deep_view()[i as int] == list@[i as int]@);
        assert(all.take(i + 1).last() == (FilePathModel { text: list@[i as int]@ }));
        place_once(&mut sorted, FilePath { text: list[i].clone() });
        i += 1;
    }
    assert(all.take(all.len() as int) =~= all);
    let ghost texts = as_texts(sorted.deep_view());
    let mut r: Vec<String> = Vec::new();
    let mut k: usize = 0;
    assert(r.deep_view() =~= texts.take(0));
    while k < sorted.len()
        invariant
            k <= sorted.len(),
            texts == as_texts(sorted.deep_view()),
            r.deep_view() == texts.take(k as int),
        decreases sorted.len() - k,
    {
        let ghost before = r.deep_view();
        r.push(sorted[k].text.clone());
        assert(sorted.deep_view()[k as int] == sorted@[k as int].deep_view());
        assert(r.deep_view() =~= before.push(sorted@[k as int].text@));
        assert(texts.take(k + 1) =~= texts.take(k as int).push(texts[k as int]));
        k += 1;
    }
    assert(texts.take(texts.len() as int) =~= texts);
    r
}

/// The pieces of a path behind its first names, from the next name on.
pub open spec fn behind_names(parts: Seq<Seq<char>>, n: nat) -> Seq<Seq<char>>
    decreases parts.len(),
{
    if parts.len() == 0 {
        Seq::empty()
    } else if parts[0].len() == 0 || parts[0] == "."@ {
        behind_names(parts.skip(1), n)
    } else if n == 0 {
        parts
    } else {
        behind_names(parts.skip(1), (n - 1) as nat)
    }
}

/// How many of a path's components are names.
pub open spec fn names_in(parts: Seq<Seq<char>>) -> nat {
    if parts.len() > 0 && (parts[0] == "/"@ || parts[0] == "."@) {
        (parts.len() - 1) as nat
    } else {
        parts.len()
    }
}

/// A path as it reads from a directory above it, spelled as it was up to its last
/// name; any other path as it is.
pub open spec fn relative_to(path: Seq<char>, directory: Seq<char>) -> Seq<char> {
    let base = components(directory);
    if base.len() == 0 {
        up_to_name(path)
    } else if lies_under(path, directory) {
        joined(up_to_last_name(behind_names(split_at_char(path, '/'), names_in(base))), "/"@)
    } else {
        path
    }
}

pub fn make_relative(path: &str, directory: &str) -> (r: String)
    ensures
        r@ == relative_to(path@, directory@),
{
    let base = components_of(directory);
    assert(base.deep_view().len() == base@.len());
    if base.len() == 0 {
        return trim_to_name(path);
    }
    if !is_under(path, directory) {
        return path.to_owned();
    }
    assert(base.deep_view()[0] == base@[0]@);
    let mut n: usize = base.len();
    if same(base[0].as_str(), "/") || same(base[0].as_str(), ".") {
        n -= 1;
    }
    let parts = split_char(path, '/');
    let ghost all = parts.deep_view();
    let ghost wanted = behind_names(all, n as nat);
    let mut from: usize = 0;
    assert(all.skip(0) =~= all);
    while from < parts.len()
        invariant
            from <= parts.len(),
            all == parts.deep_view(),
            wanted == behind_names(all.skip(from as int), n as nat),
        ensures
            from <= parts.len(),
            wanted == all.skip(from as int),
        decreases parts.len() - from,
    {
        assert(all[from as int] == parts@[from as int]@);
        assert(all.skip(from as int)[0] == all[from as int]);
        assert(all.skip(from as int).skip(1) =~= all.skip(from + 1));
        if !parts[from].as_str().is_empty() && !same(parts[from].as_str(), ".") {
            if n == 0 {
                break;
            }
            n -= 1;
        }
        from += 1;
    }
    let mut to: usize = parts.len();
    assert(all.subrange(from as int, to as int) =~= wanted);
    while to > from && (parts[to - 1].as_str().is_empty() || same(parts[to - 1].as_str(), "."))
        invariant
            from <= to <= parts.len(),
            all == parts.deep_view(),
            up_to_last_name(wanted) == up_to_last_name(all.subrange(from as int, to as int)),
        ensures
            from <= to <= parts.len(),
            up_to_last_name(wanted) == all.subrange(from as int, to as int),
        decreases to,
    {
        let ghost now = all.subrange(from as int, to as int);
        assert(now.last() == parts@[to - 1]@);
        assert(now.drop_last() =~= all.subrange(from as int, to - 1));
        to -= 1;
    }
    let mut kept: Vec<String> = Vec::new();
    let ghost left = all.subrange(from as int, to as int);
    let mut i: usize = from;
    assert(kept.deep_view() =~= left.take(0));
    while i < to
        invariant
            from <= i <= to <= parts.len(),
            all == parts.deep_view(),
            left == all.subrange(from as int, to as int),
            kept.deep_view() == left.take(i - from),
        decreases to - i,
    {
        let ghost before = kept.deep_view();
        kept.push(parts[i].clone());
        assert(left[i - from] == parts@[i as int]@);
        assert(kept.deep_view() =~= before.push(parts@[i as int]@));
        assert(left.take(i + 1 - from) =~= left.take(i - from).push(left[i - from]));
        i += 1;
    }
    assert(left.take(left.len() as int) =~= left);
    join(&kept, "/")
}

/// The last of a list of files that is at a path.
pub open spec fn file_position(files: Seq<Seq<char>>, path: Seq<char>) -> Option<usize>
    decreases files.len(),
{
    if files.len() == 0 {
        None
    } else if same_path(files.last(), path) {
        Some((files.len() - 1) as usize)
    } else {
        file_position(files.drop_last(), path)
    }
}

pub fn find_file(files: &Vec<String>, path: &str) -> (r: Option<usize>)
    ensures
        r == file_position(files.deep_view(), path@),
        r matches Some(i) ==> i < files@.len(),
{
    let ghost all = files.deep_view();
    let parts = components_of(path);
    let mut i: usize = files.len();
    assert(all.take(i as int) =~= all);
    while i > 0
        invariant
            i <= files.len(),
            all == files.deep_view(),
            parts.deep_view() == components(path@),
            file_position(all, path@) == file_position(all.take(i as int), path@),
        decreases i,
    {
        i -= 1;
        assert(all.take(i + 1).last() == files@[i as int]@);
        assert(all.take(i + 1).drop_last() =~= all.take(i as int));
        if same_lists(&components_of(files[i].as_str()), &parts) {
            return Some(i);
        }
    }
    None
}

} // verus!
