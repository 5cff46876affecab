//! What the routes of files are for.

use crate::file_based_router::{
    behind_longest_root, behind_root, declares, first_route, guarded, is_astro_package, is_method, is_nextjs_package,
    is_remix_package, mentions, methods_of_export, names_method, never_narrows, route_path, selected_conventions, route_segment, route_under, segments_of, stem_segments, without_index,
    DerivedRouteModel, MethodSource, RoutingConventionModel, SegmentSourceModel,
};
use crate::laws::texts::{
    a_last_cut_is_where_it_stands, a_prefix_is_taken_off, joined_and_split, nothing_is_left_out, nothing_to_trim, prefix_and_rest,
};
use crate::text::{
    after_prefix, has_prefix, has_suffix, has_text, join_then_split, joined, last_cut, last_cut_cuts_at_the_last,
    nonempty, occurs_at, split_at_char, trimmed, unicode_lowercase, unicode_uppercase, with_char_replaced,
};
use vstd::prelude::*;

verus! {

// ---------------------------------------------------------------------------
// Segments
// ---------------------------------------------------------------------------

/// A name of a directory or a file: it holds something, and no slash.
pub open spec fn is_entry(name: Seq<char>) -> bool {
    name.len() > 0 && !name.contains('/')
}

/// Directories, from the outermost in.
pub open spec fn are_entries(names: Seq<Seq<char>>) -> bool {
    forall|i: int| 0 <= i < names.len() ==> is_entry(#[trigger] names[i])
}

proof fn entries_are_found_again(dirs: Seq<Seq<char>>, file: Seq<char>)
    requires
        are_entries(dirs),
        is_entry(file),
    ensures
        nonempty(split_at_char(joined(dirs.push(file), "/"@), '/')) == dirs.push(file),
{
    let names = dirs.push(file);
    reveal_strlit("/");
    assert("/"@ =~= seq!['/']);
    assert forall|i: int| 0 <= i < names.len() implies is_entry(#[trigger] names[i]) by {
        if i < dirs.len() {
            assert(names[i] == dirs[i]);
        }
    }
    assert forall|i: int| 0 <= i < names.len() implies !(#[trigger] names[i]).contains('/') by {
        assert(is_entry(names[i]));
    }
    join_then_split(names, '/');
    assert forall|i: int| 0 <= i < names.len() implies (#[trigger] names[i]).len() > 0 by {
        assert(is_entry(names[i]));
    }
    nothing_is_left_out(names);
}

/// Where the file name gives the last segments, every directory between the
/// root and the file is a segment, in order, however many there are. The stem of
/// the file follows them, unless it is `index`.
pub proof fn directories_are_segments(
    extensions: Seq<Seq<char>>,
    dirs: Seq<Seq<char>>,
    stem: Seq<char>,
    ext: Seq<char>,
)
    requires
        are_entries(dirs),
        is_entry(stem + seq!['.'] + ext),
        !ext.contains('.'),
        extensions.contains(ext),
        (stem + seq!['.'] + ext)[0] != '_',
    ensures
        segments_of(
            SegmentSourceModel::FileName { extensions, segment_separator: None },
            joined(dirs.push(stem + seq!['.'] + ext), "/"@),
        ) == Some(if stem == "index"@ {
            dirs
        } else {
            dirs.push(stem)
        }),
{
    let file = stem + seq!['.'] + ext;
    file_names_are_read(extensions, None, dirs, stem, ext);
    assert(seq![stem].drop_last() =~= Seq::<Seq<char>>::empty());
    assert(dirs + Seq::<Seq<char>>::empty() =~= dirs);
    assert(dirs + seq![stem] =~= dirs.push(stem));
}

proof fn file_names_are_read(
    extensions: Seq<Seq<char>>,
    segment_separator: Option<Seq<char>>,
    dirs: Seq<Seq<char>>,
    stem: Seq<char>,
    ext: Seq<char>,
)
    requires
        are_entries(dirs),
        is_entry(stem + seq!['.'] + ext),
        !ext.contains('.'),
        extensions.contains(ext),
        (stem + seq!['.'] + ext)[0] != '_',
    ensures
        segments_of(
            SegmentSourceModel::FileName { extensions, segment_separator },
            joined(dirs.push(stem + seq!['.'] + ext), "/"@),
        ) == Some(dirs + without_index(stem_segments(stem, segment_separator))),
{
    let file = stem + seq!['.'] + ext;
    entries_are_found_again(dirs, file);
    assert(dirs.push(file).drop_last() =~= dirs);
    reveal_strlit("_");
    if has_prefix(file, "_"@) {
        assert(file.subrange(0, 1)[0] == file[0]);
        assert("_"@[0] == '_');
    }
    a_last_cut_is_where_it_stands(stem, '.', ext);
}

/// Where a file name is a chain of segments with a separator between them, each
/// of them is a segment behind the directories, but for a last `index`.
pub proof fn chained_names_are_segments(
    extensions: Seq<Seq<char>>,
    separator: char,
    dirs: Seq<Seq<char>>,
    parts: Seq<Seq<char>>,
    ext: Seq<char>,
)
    requires
        are_entries(dirs),
        parts.len() > 0,
        forall|i: int| 0 <= i < parts.len() ==> (#[trigger] parts[i]).len() > 0 && !parts[i].contains(separator),
        is_entry(joined(parts, seq![separator]) + seq!['.'] + ext),
        !ext.contains('.'),
        extensions.contains(ext),
        (joined(parts, seq![separator]) + seq!['.'] + ext)[0] != '_',
    ensures
        segments_of(
            SegmentSourceModel::FileName { extensions, segment_separator: Some(seq![separator]) },
            joined(dirs.push(joined(parts, seq![separator]) + seq!['.'] + ext), "/"@),
        ) == Some(if parts.last() == "index"@ {
            dirs + parts.drop_last()
        } else {
            dirs + parts
        }),
{
    let stem = joined(parts, seq![separator]);
    file_names_are_read(extensions, Some(seq![separator]), dirs, stem, ext);
    joined_and_split(parts, separator);
    nothing_is_left_out(parts);
}

/// A file whose name begins with an underscore, or has none of the extensions,
/// is no route.
pub proof fn other_names_are_no_routes(
    extensions: Seq<Seq<char>>,
    segment_separator: Option<Seq<char>>,
    dirs: Seq<Seq<char>>,
    file: Seq<char>,
)
    requires
        are_entries(dirs),
        is_entry(file),
        file[0] == '_' || forall|stem: Seq<char>, ext: Seq<char>|
            file == #[trigger] (stem + seq!['.'] + ext) && !ext.contains('.') ==> !extensions.contains(ext),
    ensures
        segments_of(
            SegmentSourceModel::FileName { extensions, segment_separator },
            joined(dirs.push(file), "/"@),
        ) is None,
{
    entries_are_found_again(dirs, file);
    reveal_strlit("_");
    if file[0] == '_' {
        assert(file.subrange(0, 1) =~= "_"@);
    } else {
        last_cut_cuts_at_the_last(file, '.');
        match last_cut(file, '.') {
            Some((stem, ext)) => {
                assert(file =~= stem + seq!['.'] + ext);
            },
            None => {},
        }
    }
}

/// Where a fixed file makes a route of its directory, the directories are the
/// segments, in order, and no other file makes one.
pub proof fn a_chain_is_its_directories(terminal_files: Seq<Seq<char>>, dirs: Seq<Seq<char>>, file: Seq<char>)
    requires
        are_entries(dirs),
        is_entry(file),
    ensures
        segments_of(SegmentSourceModel::DirectoryChain { terminal_files }, joined(dirs.push(file), "/"@)) == (
        if terminal_files.contains(file) {
            Some(dirs)
        } else {
            None
        }),
{
    entries_are_found_again(dirs, file);
    assert(dirs.push(file).drop_last() =~= dirs);
}

// ---------------------------------------------------------------------------
// The form of a segment
// ---------------------------------------------------------------------------

/// The segment is a group of the convention: it stands in its marks.
pub open spec fn is_group(c: RoutingConventionModel, raw: Seq<char>) -> bool {
    c.group_open.len() > 0 && has_prefix(raw, c.group_open) && has_suffix(raw, c.group_close)
}

/// A group leaves no trace in the route.
pub proof fn a_group_has_no_form(c: RoutingConventionModel, inner: Seq<char>)
    requires
        c.group_open.len() > 0,
    ensures
        route_segment(c, c.group_open + inner + c.group_close) is None,
{
    let raw = c.group_open + inner + c.group_close;
    assert(raw.subrange(0, c.group_open.len() as int) =~= c.group_open);
    let n = raw.len() - c.group_close.len();
    assert(raw.subrange(n, n + c.group_close.len()) =~= c.group_close);
}

/// What bears none of the convention's marks stands for itself.
pub proof fn a_plain_segment_stands_for_itself(c: RoutingConventionModel, raw: Seq<char>)
    requires
        !is_group(c, raw),
        c.dynamic_open.len() > 0,
        !has_prefix(raw, c.dynamic_open) || !has_suffix(raw, c.dynamic_close),
    ensures
        route_segment(c, raw) == Some(raw),
{
    if c.dynamic_close.len() > 0 && has_prefix(raw, c.dynamic_open + c.dynamic_open) && has_suffix(
        raw,
        c.dynamic_close + c.dynamic_close,
    ) {
        let open = c.dynamic_open;
        let close = c.dynamic_close;
        assert(raw.subrange(0, open.len() as int) =~= raw.subrange(0, (open + open).len() as int).subrange(0, open.len() as int));
        assert((open + open).subrange(0, open.len() as int) =~= open);
        let n = raw.len() - close.len();
        let m = raw.len() - (close + close).len();
        assert(raw.subrange(n, n + close.len()) =~= raw.subrange(m, m + (close + close).len()).subrange(
            close.len() as int,
            (close + close).len() as int,
        ));
        assert((close + close).subrange(close.len() as int, (close + close).len() as int) =~= close);
        assert(has_prefix(raw, open));
        assert(has_suffix(raw, close));
    }
}

/// A name in the marks of a parameter is that parameter, and behind the mark of
/// a catch-all, or without a name, it is whatever follows.
pub proof fn a_marked_segment_is_a_parameter(c: RoutingConventionModel, name: Seq<char>)
    requires
        c.dynamic_open.len() > 0,
        !is_group(c, c.dynamic_open + name + c.dynamic_close),
        c.dynamic_close.len() > 0 ==> !has_prefix(name + c.dynamic_close, c.dynamic_open),
        trimmed(name) == name,
        !name.contains('.'),
        c.catch_all_marker.len() > 0 ==> !has_prefix(name, c.catch_all_marker),
    ensures
        route_segment(c, c.dynamic_open + name + c.dynamic_close) == (if name.len() == 0 {
            Some("**"@)
        } else {
            Some(seq![':'] + name)
        }),
{
    let open = c.dynamic_open;
    let close = c.dynamic_close;
    let raw = open + name + close;
    marks_stand_around(open, name, close);
    nothing_to_replace(name, '.');
    reveal_strlit(":");
    assert(":"@ =~= seq![':']);
    if close.len() > 0 && has_prefix(raw, open + open) {
        let two = open + open;
        let rest = name + close;
        assert(rest.subrange(0, open.len() as int) =~= open) by {
            assert forall|i: int| 0 <= i < open.len() implies rest[i] == open[i] by {
                assert(rest[i] == raw[open.len() + i]);
                assert(raw[open.len() + i] == raw.subrange(0, two.len() as int)[open.len() + i]);
                assert(two[open.len() + i] == open[i]);
            }
        }
    }
}

pub proof fn a_catch_all_is_whatever_follows(c: RoutingConventionModel, name: Seq<char>)
    requires
        c.dynamic_open.len() > 0,
        c.catch_all_marker.len() > 0,
        !is_group(c, c.dynamic_open + (c.catch_all_marker + name) + c.dynamic_close),
    ensures
        route_segment(c, c.dynamic_open + (c.catch_all_marker + name) + c.dynamic_close) == Some("**"@),
{
    let inner = c.catch_all_marker + name;
    marks_stand_around(c.dynamic_open, inner, c.dynamic_close);
    assert(inner.subrange(0, c.catch_all_marker.len() as int) =~= c.catch_all_marker);
}

/// A segment in double marks is optional, and whatever follows.
pub proof fn a_doubly_marked_segment_is_whatever_follows(c: RoutingConventionModel, inner: Seq<char>)
    requires
        c.dynamic_close.len() > 0,
        !is_group(c, (c.dynamic_open + c.dynamic_open) + inner + (c.dynamic_close + c.dynamic_close)),
    ensures
        route_segment(c, (c.dynamic_open + c.dynamic_open) + inner + (c.dynamic_close + c.dynamic_close)) == Some("**"@),
{
    marks_stand_around(c.dynamic_open + c.dynamic_open, inner, c.dynamic_close + c.dynamic_close);
}

proof fn marks_stand_around(open: Seq<char>, inner: Seq<char>, close: Seq<char>)
    ensures
        has_prefix(open + inner + close, open),
        has_suffix(open + inner + close, close),
        (open + inner + close).subrange(open.len() as int, (open + inner + close).len() - close.len()) == inner,
{
    let raw = open + inner + close;
    assert(raw.subrange(0, open.len() as int) =~= open);
    let n = raw.len() - close.len();
    assert(raw.subrange(n, n + close.len()) =~= close);
    assert(raw.subrange(open.len() as int, n) =~= inner);
}

proof fn nothing_to_replace(s: Seq<char>, c: char)
    requires
        !s.contains(c),
    ensures
        with_char_replaced(s, c, Seq::empty()) == s,
    decreases s.len(),
{
    if s.len() > 0 {
        let init = s.drop_last();
        assert(s.contains(s.last()));
        assert forall|i: int| 0 <= i < init.len() implies init[i] != c by {
            assert(s.contains(s[i]));
        }
        nothing_to_replace(init, c);
        assert(init + seq![s.last()] =~= s);
    } else {
        assert(s =~= Seq::<char>::empty());
    }
}

// ---------------------------------------------------------------------------
// Routes
// ---------------------------------------------------------------------------

/// The segments that have a form, each in its form.
pub open spec fn forms(c: RoutingConventionModel, segments: Seq<Seq<char>>) -> Seq<Seq<char>> {
    segments.filter(|raw: Seq<char>| route_segment(c, raw) is Some).map_values(|raw: Seq<char>| route_segment(c, raw)->0)
}

/// The path of a route is its segments in their forms, in order, a slash before
/// each.
pub proof fn a_path_spells_its_segments(c: RoutingConventionModel, segments: Seq<Seq<char>>)
    ensures
        route_path(c, segments) == (if forms(c, segments).len() == 0 {
            Seq::empty()
        } else {
            "/"@ + joined(forms(c, segments), "/"@)
        }),
    decreases segments.len(),
{
    reveal(Seq::filter);
    let keep = |raw: Seq<char>| route_segment(c, raw) is Some;
    let form = |raw: Seq<char>| route_segment(c, raw)->0;
    if segments.len() > 0 {
        let init = segments.drop_last();
        a_path_spells_its_segments(c, init);
        if route_segment(c, segments.last()) is Some {
            let last = route_segment(c, segments.last())->0;
            assert(segments.filter(keep) == init.filter(keep).push(segments.last()));
            assert(forms(c, segments) =~= forms(c, init).push(last));
            assert(forms(c, segments).drop_last() =~= forms(c, init));
            if forms(c, init).len() == 0 {
                assert(route_path(c, segments) =~= "/"@ + last);
            } else {
                assert(route_path(c, segments) =~= "/"@ + joined(forms(c, segments), "/"@));
            }
        } else {
            assert(segments.filter(keep) == init.filter(keep));
            assert(forms(c, segments) =~= forms(c, init));
        }
    }
}

/// A path lies behind a root exactly where it is the root, a slash and what
/// follows, or the root itself.
pub proof fn behind_a_root_is_what_follows(rel: Seq<char>, root: Seq<char>, rest: Seq<char>)
    requires
        root.len() > 0,
        root[0] != '/',
        root.last() != '/',
    ensures
        behind_root(rel, root) == Some(rest) <==> rel == root + seq!['/'] + rest || (rel == root && rest.len() == 0),
{
    reveal_strlit("/");
    assert("/"@ =~= seq!['/']);
    nothing_to_trim(root, '/');
    prefix_and_rest(rel, root);
    if after_prefix(rel, root) is Some {
        let tail = after_prefix(rel, root)->0;
        prefix_and_rest(tail, "/"@);
        if behind_root(rel, root) == Some(rest) {
            if tail.len() == 0 {
                assert(root + tail =~= root);
            } else {
                assert(rel =~= root + seq!['/'] + rest);
            }
        }
    }
    if rel == root + seq!['/'] + rest {
        let tail = seq!['/'] + rest;
        assert(rel =~= root + tail);
        a_prefix_is_taken_off(root, tail);
        a_prefix_is_taken_off("/"@, rest);
    } else if rel == root && rest.len() == 0 {
        assert(rel =~= root + rest);
        a_prefix_is_taken_off(root, rest);
    }
}

/// A route that a convention derives is the prefix of the convention and the
/// path of the segments below the longest of its roots, or a slash where that is
/// nothing, and it serves methods as the convention says.
pub proof fn a_route_is_its_prefix_and_its_segments(c: RoutingConventionModel, rel: Seq<char>, segments: Seq<Seq<char>>)
    requires
        behind_longest_root(rel, c.root_globs) is Some,
        segments_of(c.segment_source, behind_longest_root(rel, c.root_globs)->0) == Some(segments),
        c.path_prefix.len() > 0 ==> c.path_prefix.last() != '/',
    ensures
        route_under(c, rel) is Some,
        route_under(c, rel)->0.convention == c.name,
        route_under(c, rel)->0.method_source == c.method_source,
        route_under(c, rel)->0.method_exports == c.method_exports,
        forms(c, segments).len() > 0 ==> route_under(c, rel)->0.path == c.path_prefix + "/"@ + joined(
            forms(c, segments),
            "/"@,
        ),
        forms(c, segments).len() == 0 && c.path_prefix.len() > 0 ==> route_under(c, rel)->0.path == c.path_prefix,
        forms(c, segments).len() == 0 && c.path_prefix.len() == 0 ==> route_under(c, rel)->0.path == "/"@,
{
    reveal_strlit("/");
    a_path_spells_its_segments(c, segments);
    if forms(c, segments).len() > 0 {
        assert(c.path_prefix + ("/"@ + joined(forms(c, segments), "/"@)) =~= c.path_prefix + "/"@ + joined(
            forms(c, segments),
            "/"@,
        ));
    } else {
        assert(c.path_prefix + Seq::<char>::empty() =~= c.path_prefix);
    }
}

/// The first convention that claims a file gives it its route.
pub proof fn the_first_claim_is_the_route(conventions: Seq<RoutingConventionModel>, rel: Seq<char>, route: DerivedRouteModel)
    ensures
        first_route(conventions, rel) == Some(route) <==> exists|i: int|
            0 <= i < conventions.len() && route_under(#[trigger] conventions[i], rel) == Some(route) && forall|j: int|
                0 <= j < i ==> route_under(#[trigger] conventions[j], rel) is None,
        first_route(conventions, rel) is None <==> forall|i: int|
            0 <= i < conventions.len() ==> route_under(#[trigger] conventions[i], rel) is None,
    decreases conventions.len(),
{
    if conventions.len() > 0 {
        let init = conventions.drop_last();
        let n = conventions.len() - 1;
        the_first_claim_is_the_route(init, rel, route);
        if first_route(init, rel) is None {
            assert forall|j: int| 0 <= j < n implies route_under(#[trigger] conventions[j], rel) is None by {
                assert(init[j] == conventions[j]);
            }
        } else {
            let found = first_route(init, rel)->0;
            the_first_claim_is_the_route(init, rel, found);
            let i = choose|i: int|
                0 <= i < init.len() && route_under(#[trigger] init[i], rel) == Some(found) && forall|j: int|
                    0 <= j < i ==> route_under(#[trigger] init[j], rel) is None;
            assert(route_under(conventions[i], rel) == Some(found));
            assert forall|j: int| 0 <= j < i implies route_under(#[trigger] conventions[j], rel) is None by {
                assert(init[j] == conventions[j]);
            }
            if exists|k: int|
                0 <= k < conventions.len() && route_under(#[trigger] conventions[k], rel) == Some(route) && forall|j: int|
                    0 <= j < k ==> route_under(#[trigger] conventions[j], rel) is None {
                let k = choose|k: int|
                    0 <= k < conventions.len() && route_under(#[trigger] conventions[k], rel) == Some(route) && forall|j: int|
                        0 <= j < k ==> route_under(#[trigger] conventions[j], rel) is None;
                if i < k {
                    assert(route_under(conventions[i], rel) is None);
                } else if k < i {
                    assert(route_under(conventions[k], rel) is None);
                }
            }
        }
    }
}

// ---------------------------------------------------------------------------
// Methods
// ---------------------------------------------------------------------------

/// The methods that a guard narrows an export to.
pub open spec fn narrows_to(guard: Seq<char>, method: Seq<char>) -> bool {
    method == unicode_uppercase(trimmed(guard)) && (method == "GET"@ || method == "POST"@ || method == "PUT"@ || method
        == "DELETE"@ || method == "PATCH"@)
}

proof fn methods_that_narrow(method: Seq<char>)
    ensures
        names_method(method) && !never_narrows(method) <==> method == "GET"@ || method == "POST"@ || method == "PUT"@ || method
            == "DELETE"@ || method == "PATCH"@,
{
    reveal_strlit("GET");
    reveal_strlit("POST");
    reveal_strlit("PUT");
    reveal_strlit("DELETE");
    reveal_strlit("PATCH");
    reveal_strlit("HEAD");
    reveal_strlit("OPTIONS");
    assert("GET"@[0] == 'G');
    assert("POST"@[0] == 'P');
    assert("PUT"@[0] == 'P');
    assert("DELETE"@[0] == 'D');
    assert("PATCH"@[0] == 'P');
    assert("HEAD"@[0] == 'H');
    assert("OPTIONS"@[0] == 'O');
}

/// An export is narrowed to a method exactly where one of its guards is that
/// method, and to the methods in the order of their first guards.
pub proof fn guards_narrow_to_their_methods(guards: Seq<Seq<char>>, method: Seq<char>)
    ensures
        guarded(guards).contains(method) <==> exists|i: int| 0 <= i < guards.len() && narrows_to(#[trigger] guards[i], method),
    decreases guards.len(),
{
    let all = guarded(guards);
    if guards.len() > 0 {
        let init = guards.drop_last();
        let n = guards.len() - 1;
        let before = guarded(init);
        guards_narrow_to_their_methods(init, method);
        methods_that_narrow(unicode_uppercase(trimmed(guards[n])));
        if before.contains(method) {
            let k = choose|k: int| 0 <= k < before.len() && before[k] == method;
            assert(all[k] == method);
            let i = choose|i: int| 0 <= i < init.len() && narrows_to(#[trigger] init[i], method);
            assert(narrows_to(guards[i], method));
        }
        if all.contains(method) && !before.contains(method) {
            let k = choose|k: int| 0 <= k < all.len() && all[k] == method;
            if k < before.len() {
                assert(before[k] == method);
            }
            assert(narrows_to(guards[n], method));
        }
        if exists|i: int| 0 <= i < guards.len() && narrows_to(#[trigger] guards[i], method) {
            let i = choose|i: int| 0 <= i < guards.len() && narrows_to(#[trigger] guards[i], method);
            if i < n {
                assert(narrows_to(init[i], method));
            } else if !before.contains(method) {
                assert(all[all.len() - 1] == method);
            }
        }
    }
}

/// An export that is named for a method serves that method. Where exports are
/// named for methods, one with a role serves what its guards narrow it to, or
/// else what the convention gives the role; any other export serves nothing.
pub proof fn an_export_serves_its_methods(
    source: MethodSource,
    exports: Map<Seq<char>, Seq<char>>,
    export: Seq<char>,
    guards: Seq<Seq<char>>,
)
    ensures
        is_method(export) ==> methods_of_export(source, exports, export, guards) == seq![unicode_uppercase(export)],
        !is_method(export) && source == MethodSource::DefaultExport ==> methods_of_export(source, exports, export, guards).len()
            == 0,
        !is_method(export) && !exports.contains_key(export) ==> methods_of_export(source, exports, export, guards).len() == 0,
        !is_method(export) && source == MethodSource::ExportName && exports.contains_key(export) && is_method(exports[export])
            ==> {
            let served = methods_of_export(source, exports, export, guards);
            if exists|i: int, method: Seq<char>| 0 <= i < guards.len() && #[trigger] narrows_to(guards[i], method) {
                forall|method: Seq<char>| #[trigger]
                    served.contains(method) <==> exists|i: int| 0 <= i < guards.len() && narrows_to(#[trigger] guards[i], method)
            } else {
                served == seq![unicode_uppercase(exports[export])]
            }
        },
{
    assert forall|method: Seq<char>| #[trigger] guarded(guards).contains(method) <==> exists|i: int|
        0 <= i < guards.len() && narrows_to(#[trigger] guards[i], method) by {
        guards_narrow_to_their_methods(guards, method);
    }
    if guarded(guards).len() > 0 {
        let first = guarded(guards)[0];
        assert(guarded(guards).contains(first));
        let i = choose|i: int| 0 <= i < guards.len() && narrows_to(#[trigger] guards[i], first);
        assert(narrows_to(guards[i], first));
    } else if exists|i: int, method: Seq<char>| 0 <= i < guards.len() && #[trigger] narrows_to(guards[i], method) {
        let (i, method) = choose|i: int, method: Seq<char>| 0 <= i < guards.len() && #[trigger] narrows_to(guards[i], method);
        assert(narrows_to(guards[i], method));
        assert(guarded(guards).contains(method));
    }
}

// ---------------------------------------------------------------------------
// Conventions
// ---------------------------------------------------------------------------

/// A framework's label speaks of a router.
pub open spec fn speaks_of(frameworks: Seq<Seq<char>>, word: Seq<char>) -> bool {
    exists|i: int, at: int|
        #![trigger occurs_at(unicode_lowercase(frameworks[i]), word, at)]
        0 <= i < frameworks.len() && occurs_at(unicode_lowercase(frameworks[i]), word, at)
}

/// A dependency is one of the packages of a router.
pub open spec fn depends_on(dependencies: Seq<Seq<char>>, packages: Seq<Seq<char>>) -> bool {
    exists|i: int| 0 <= i < dependencies.len() && packages.contains(unicode_lowercase(#[trigger] dependencies[i]))
}

/// The packages that bring a router of flat routes.
pub open spec fn flat_route_packages() -> Seq<Seq<char>> {
    seq![
        "remix"@,
        "@remix-run/dev"@,
        "@remix-run/serve"@,
        "@remix-run/node"@,
        "@remix-run/express"@,
        "@remix-run/cloudflare"@,
        "@remix-run/deno"@,
        "@remix-run/server-runtime"@,
        "@remix-run/react"@,
    ]
}

pub open spec fn selects(conventions: Seq<RoutingConventionModel>, name: Seq<char>) -> bool {
    exists|i: int| 0 <= i < conventions.len() && (#[trigger] conventions[i]).name == name
}

proof fn labels_speak(frameworks: Seq<Seq<char>>, word: Seq<char>)
    ensures
        mentions(frameworks, word) <==> speaks_of(frameworks, word),
{
    if mentions(frameworks, word) {
        let i = choose|i: int| 0 <= i < frameworks.len() && has_text(unicode_lowercase(#[trigger] frameworks[i]), word);
        let at = choose|at: int| occurs_at(unicode_lowercase(frameworks[i]), word, at);
        assert(occurs_at(unicode_lowercase(frameworks[i]), word, at));
    }
    if speaks_of(frameworks, word) {
        let (i, at) = choose|i: int, at: int|
            #![trigger occurs_at(unicode_lowercase(frameworks[i]), word, at)]
            0 <= i < frameworks.len() && occurs_at(unicode_lowercase(frameworks[i]), word, at);
        assert(has_text(unicode_lowercase(frameworks[i]), word));
    }
}

proof fn dependencies_declare(dependencies: Seq<Seq<char>>, package: spec_fn(Seq<char>) -> bool, packages: Seq<Seq<char>>)
    requires
        forall|name: Seq<char>| #[trigger] packages.contains(name) <==> package(name),
    ensures
        declares(dependencies, package) <==> depends_on(dependencies, packages),
{
    if declares(dependencies, package) {
        let i = choose|i: int| 0 <= i < dependencies.len() && package(unicode_lowercase(#[trigger] dependencies[i]));
        assert(packages.contains(unicode_lowercase(dependencies[i])));
    }
    if depends_on(dependencies, packages) {
        let i = choose|i: int| 0 <= i < dependencies.len() && packages.contains(unicode_lowercase(#[trigger] dependencies[i]));
        assert(package(unicode_lowercase(dependencies[i])));
    }
}

/// A convention is selected exactly where a label speaks of its framework or a
/// dependency brings it; that of the app directory and that of the pages always
/// come together.
pub proof fn a_convention_is_selected_by_its_framework(frameworks: Seq<Seq<char>>, dependencies: Seq<Seq<char>>)
    ensures
        selects(selected_conventions(frameworks, dependencies), "nextjs-app"@) <==> speaks_of(frameworks, "next"@) || depends_on(
            dependencies,
            seq!["next"@],
        ),
        selects(selected_conventions(frameworks, dependencies), "nextjs-pages"@) <==> speaks_of(frameworks, "next"@)
            || depends_on(dependencies, seq!["next"@]),
        selects(selected_conventions(frameworks, dependencies), "astro"@) <==> speaks_of(frameworks, "astro"@) || depends_on(
            dependencies,
            seq!["astro"@],
        ),
        selects(selected_conventions(frameworks, dependencies), "remix-flat"@) <==> speaks_of(frameworks, "remix"@)
            || depends_on(dependencies, flat_route_packages()),
{
    labels_speak(frameworks, "next"@);
    labels_speak(frameworks, "astro"@);
    labels_speak(frameworks, "remix"@);
    let nextjs = |n: Seq<char>| is_nextjs_package(n);
    let astro = |n: Seq<char>| is_astro_package(n);
    let remix = |n: Seq<char>| is_remix_package(n);
    let one = seq!["next"@];
    let two = seq!["astro"@];
    let many = flat_route_packages();
    assert forall|name: Seq<char>| #[trigger] one.contains(name) <==> nextjs(name) by {
        assert(one[0] == "next"@);
    }
    assert forall|name: Seq<char>| #[trigger] two.contains(name) <==> astro(name) by {
        assert(two[0] == "astro"@);
    }
    assert forall|name: Seq<char>| #[trigger] many.contains(name) <==> remix(name) by {
        if remix(name) {
            assert(many[0] == name || many[1] == name || many[2] == name || many[3] == name || many[4] == name || many[5]
                == name || many[6] == name || many[7] == name || many[8] == name);
        }
    }
    dependencies_declare(dependencies, nextjs, one);
    dependencies_declare(dependencies, astro, two);
    dependencies_declare(dependencies, remix, many);
    reveal_strlit("nextjs-app");
    reveal_strlit("nextjs-pages");
    reveal_strlit("astro");
    reveal_strlit("remix-flat");
    assert("nextjs-app"@.len() == 10);
    assert("nextjs-pages"@.len() == 12);
    assert("astro"@.len() == 5);
    assert("remix-flat"@.len() == 10);
    assert("nextjs-app"@[0] == 'n');
    assert("remix-flat"@[0] == 'r');
    let all = selected_conventions(frameworks, dependencies);
    let by_next = speaks_of(frameworks, "next"@) || depends_on(dependencies, one);
    let by_astro = speaks_of(frameworks, "astro"@) || depends_on(dependencies, two);
    let by_remix = speaks_of(frameworks, "remix"@) || depends_on(dependencies, many);
    let a: int = if by_next {
        2
    } else {
        0
    };
    let b: int = if by_astro {
        a + 1
    } else {
        a
    };
    if by_next {
        assert(all[0].name == "nextjs-app"@);
        assert(all[1].name == "nextjs-pages"@);
    }
    if by_astro {
        assert(all[a].name == "astro"@);
    }
    if by_remix {
        assert(all[b].name == "remix-flat"@);
    }
    assert forall|i: int| 0 <= i < all.len() implies (#[trigger] all[i]).name == "nextjs-app"@ && by_next || all[i].name
        == "nextjs-pages"@ && by_next || all[i].name == "astro"@ && by_astro || all[i].name == "remix-flat"@ && by_remix by {
        if i < a {
            assert(i == 0 || i == 1);
        }
    }
}

} // verus!
