//! What the places of a machine become before anything leaves it.

use crate::engine::served_paths::{
    before_peers_takes, entry_version, layout_label, prefix_of, rewritten_token,
};
use crate::engine::upload_boundary::{
    all_replaced, are_places, at_boundary, below, boundary_prefixes, cut_at_the_first, fields_name_no_place,
    is_absolute, items_name_no_place, knows, names_no_place, names_place, no_place_is_left_in_a_text, one_pass,
    payload_names_no_place, replaced, scrubbed, scrubbed_fields, scrubbed_items, separator, touched, touched_fields,
    touched_items, untouched_text_is_unchanged, with_all_roots, with_root, with_spelling, without_separators,
    MachinePlace, MachinePrefixModel,
};
use crate::json::{with_field, JsonModel};
use crate::sorting::{by_rank, by_rank_sorts, Ranked};
use crate::text::{
    decimal, first_cut, has_prefix, has_text, occurs_at, separators, trimmed_end_of, unicode_alphanumeric, with_char_replaced,
};
use vstd::prelude::*;
use vstd::utf8::encode_utf8;

verus! {

// ---------------------------------------------------------------------------
// Texts
// ---------------------------------------------------------------------------

/// A name goes on.
pub open spec fn goes_on(c: char) -> bool {
    unicode_alphanumeric(c) || c == '-' || c == '_' || c == '.'
}

/// A prefix stands at a place of a text, and the name that it ends with ends
/// there.
pub open spec fn stands_at(s: Seq<char>, prefix: Seq<char>, at: int) -> bool {
    0 <= at && at + prefix.len() <= s.len() && s.subrange(at, at + prefix.len()) == prefix && (at + prefix.len() < s.len()
        ==> !goes_on(s[at + prefix.len()]))
}

/// What is written for a place.
pub open spec fn stand_in(place: MachinePlace) -> Seq<char> {
    match place {
        MachinePlace::Checkout => "<checkout>"@,
        MachinePlace::Home => "<home>"@,
    }
}

/// One text is another with one prefix exchanged for what is written for it.
pub open spec fn is_swap(prefixes: Seq<MachinePrefixModel>, s: Seq<char>, out: Seq<char>, k: int, at: int) -> bool {
    0 <= k < prefixes.len() && stands_at(s, prefixes[k].prefix, at) && out == s.take(at) + stand_in(prefixes[k].names) + s.skip(
        at + prefixes[k].prefix.len(),
    )
}

/// One text is another with a number of prefixes exchanged, one after another.
pub open spec fn is_swapped(prefixes: Seq<MachinePrefixModel>, s: Seq<char>, out: Seq<char>, n: nat) -> bool
    decreases n,
{
    if n == 0 {
        s == out
    } else {
        exists|mid: Seq<char>, k: int, at: int| #[trigger]
            is_swap(prefixes, s, mid, k, at) && is_swapped(prefixes, mid, out, (n - 1) as nat)
    }
}

proof fn swapped_behind(prefixes: Seq<MachinePrefixModel>, head: Seq<char>, s: Seq<char>, out: Seq<char>, n: nat)
    requires
        is_swapped(prefixes, s, out, n),
    ensures
        is_swapped(prefixes, head + s, head + out, n),
    decreases n,
{
    if n > 0 {
        let (mid, k, at) = choose|mid: Seq<char>, k: int, at: int| #[trigger]
            is_swap(prefixes, s, mid, k, at) && is_swapped(prefixes, mid, out, (n - 1) as nat);
        swapped_behind(prefixes, head, mid, out, (n - 1) as nat);
        let prefix = prefixes[k].prefix;
        let moved = head.len() + at;
        let whole = head + s;
        assert(whole.subrange(moved, moved + prefix.len()) =~= s.subrange(at, at + prefix.len()));
        assert(head + mid =~= whole.take(moved) + stand_in(prefixes[k].names) + whole.skip(moved + prefix.len()));
        assert(is_swap(prefixes, whole, head + mid, k, moved));
    }
}

proof fn swapped_on(prefixes: Seq<MachinePrefixModel>, a: Seq<char>, b: Seq<char>, c: Seq<char>, n: nat, m: nat)
    requires
        is_swapped(prefixes, a, b, n),
        is_swapped(prefixes, b, c, m),
    ensures
        is_swapped(prefixes, a, c, n + m),
    decreases n,
{
    if n > 0 {
        let (mid, k, at) = choose|mid: Seq<char>, k: int, at: int| #[trigger]
            is_swap(prefixes, a, mid, k, at) && is_swapped(prefixes, mid, b, (n - 1) as nat);
        swapped_on(prefixes, mid, b, c, (n - 1) as nat, m);
        assert((n + m - 1) as nat == (n - 1) as nat + m);
        assert(is_swap(prefixes, a, mid, k, at));
    }
}

proof fn replacing_swaps(prefixes: Seq<MachinePrefixModel>, k: int, s: Seq<char>)
    requires
        0 <= k < prefixes.len(),
        prefixes[k].prefix.len() > 0,
    ensures
        ({
            let (out, hits) = replaced(s, prefixes[k].prefix, stand_in(prefixes[k].names));
            is_swapped(prefixes, s, out, hits)
        }),
    decreases s.len(),
{
    let prefix = prefixes[k].prefix;
    let by = stand_in(prefixes[k].names);
    cut_at_the_first(s, prefix);
    match first_cut(s, prefix) {
        Some((before, after)) => {
            if at_boundary(after) {
                replacing_swaps(prefixes, k, after);
                let (rest, hits) = replaced(after, prefix, by);
                let mid = before + by + after;
                swapped_behind(prefixes, before + by, after, rest, hits);
                let at = before.len() as int;
                assert(s.subrange(at, at + prefix.len()) =~= prefix);
                assert(s.take(at) =~= before);
                assert(s.skip(at + prefix.len()) =~= after);
                assert(at + prefix.len() < s.len() ==> s[at + prefix.len()] == after[0]);
                assert(is_swap(prefixes, s, mid, k, at));
                assert((hits + 1 - 1) as nat == hits);
            } else {
                let head = s.take(before.len() as int + 1);
                let tail = s.skip(before.len() as int + 1);
                replacing_swaps(prefixes, k, tail);
                let (rest, hits) = replaced(tail, prefix, by);
                swapped_behind(prefixes, head, tail, rest, hits);
                assert(head + tail =~= s);
            }
        },
        None => {},
    }
}

proof fn stand_ins(place: MachinePlace)
    ensures
        place.placeholder_text() == stand_in(place),
{
}

proof fn a_place_is_something(prefixes: Seq<MachinePrefixModel>, k: int)
    requires
        are_places(prefixes),
        0 <= k < prefixes.len(),
    ensures
        prefixes[k].prefix.len() > 0,
{
    assert(separators(prefixes[k].prefix) > 0);
}

proof fn a_pass_swaps(prefixes: Seq<MachinePrefixModel>, part: Seq<MachinePrefixModel>, s: Seq<char>)
    requires
        are_places(prefixes),
        part.len() <= prefixes.len(),
        forall|i: int| 0 <= i < part.len() ==> #[trigger] part[i] == prefixes[i],
    ensures
        is_swapped(prefixes, s, one_pass(s, part).0, one_pass(s, part).1),
    decreases part.len(),
{
    if part.len() > 0 {
        let k = part.len() - 1;
        a_pass_swaps(prefixes, part.drop_last(), s);
        let (before, hits) = one_pass(s, part.drop_last());
        assert(part.last() == prefixes[k]);
        a_place_is_something(prefixes, k);
        stand_ins(prefixes[k].names);
        replacing_swaps(prefixes, k, before);
        let (out, more) = replaced(before, prefixes[k].prefix, stand_in(prefixes[k].names));
        swapped_on(prefixes, s, before, out, hits, more);
    }
}

/// What leaves of a text is the text with places exchanged for what is written
/// for them, each where its name ends, and as many as were counted.
pub proof fn places_are_exchanged(s: Seq<char>, prefixes: Seq<MachinePrefixModel>)
    requires
        are_places(prefixes),
    ensures
        is_swapped(prefixes, s, all_replaced(s, prefixes).0, all_replaced(s, prefixes).1),
    decreases separators(s),
{
    a_pass_swaps(prefixes, prefixes, s);
    let (out, hits) = one_pass(s, prefixes);
    if hits > 0 && separators(out) < separators(s) {
        places_are_exchanged(out, prefixes);
        swapped_on(prefixes, s, out, all_replaced(out, prefixes).0, hits, all_replaced(out, prefixes).1);
    }
}

proof fn standing_is_naming(s: Seq<char>, prefix: Seq<char>)
    ensures
        names_place(s, prefix) <==> exists|at: int| #[trigger] stands_at(s, prefix, at),
{
    if names_place(s, prefix) {
        let i = choose|i: int| #[trigger] occurs_at(s, prefix, i) && at_boundary(s.skip(i + prefix.len()));
        if i + prefix.len() < s.len() {
            assert(s.skip(i + prefix.len())[0] == s[i + prefix.len()]);
        }
        assert(stands_at(s, prefix, i));
    }
    if exists|at: int| #[trigger] stands_at(s, prefix, at) {
        let at = choose|at: int| #[trigger] stands_at(s, prefix, at);
        if at + prefix.len() < s.len() {
            assert(s.skip(at + prefix.len())[0] == s[at + prefix.len()]);
        }
        assert(occurs_at(s, prefix, at) && at_boundary(s.skip(at + prefix.len())));
    }
}

/// No prefix of a list stands in what leaves of a text.
pub proof fn no_place_leaves(s: Seq<char>, prefixes: Seq<MachinePrefixModel>, k: int, at: int)
    requires
        are_places(prefixes),
        0 <= k < prefixes.len(),
    ensures
        !stands_at(all_replaced(s, prefixes).0, prefixes[k].prefix, at),
{
    no_place_is_left_in_a_text(s, prefixes);
    standing_is_naming(all_replaced(s, prefixes).0, prefixes[k].prefix);
}

/// A text in which no prefix stands leaves as it is, with none counted, and a
/// text of which none was counted is such a text.
pub proof fn a_text_without_places_leaves_as_it_is(s: Seq<char>, prefixes: Seq<MachinePrefixModel>)
    requires
        are_places(prefixes),
    ensures
        all_replaced(s, prefixes).1 == 0 <==> forall|k: int, at: int|
            #![trigger stands_at(s, prefixes[k].prefix, at)]
            0 <= k < prefixes.len() ==> !stands_at(s, prefixes[k].prefix, at),
        all_replaced(s, prefixes).1 == 0 ==> all_replaced(s, prefixes).0 == s,
{
    untouched_text_is_unchanged(s, prefixes);
    if all_replaced(s, prefixes).1 == 0 {
        assert forall|k: int, at: int| #![trigger stands_at(s, prefixes[k].prefix, at)] 0 <= k < prefixes.len() implies !stands_at(
            s,
            prefixes[k].prefix,
            at,
        ) by {
            no_place_leaves(s, prefixes, k, at);
        }
    } else {
        places_are_exchanged(s, prefixes);
        let (mid, k, at) = choose|mid: Seq<char>, k: int, at: int| #[trigger]
            is_swap(prefixes, s, mid, k, at) && is_swapped(
                prefixes,
                mid,
                all_replaced(s, prefixes).0,
                (all_replaced(s, prefixes).1 - 1) as nat,
            );
        assert(stands_at(s, prefixes[k].prefix, at));
    }
}

// ---------------------------------------------------------------------------
// Places
// ---------------------------------------------------------------------------

/// A path with forward slashes.
pub open spec fn slashed(path: Seq<char>) -> Seq<char> {
    path.map_values(
        |c: char|
            if c == '\\' {
                '/'
            } else {
                c
            },
    )
}

/// A path says where it lies on a machine: from a slash, from two backslashes or
/// from a drive.
pub open spec fn lies_on_a_machine(path: Seq<char>) -> bool {
    ||| path.len() >= 1 && path[0] == '/'
    ||| path.len() >= 2 && path[0] == '\\' && path[1] == '\\'
    ||| path.len() >= 3 && path[0] <= '\x7f' && path[1] == ':' && (path[2] == '\\' || path[2] == '/')
}

/// A directory without the separators at its end: so much of it is a place.
pub open spec fn is_bare(raw: Seq<char>, n: int) -> bool {
    0 < n <= raw.len() && raw[n - 1] != '/' && raw[n - 1] != '\\' && (forall|i: int|
        n <= i < raw.len() ==> #[trigger] raw[i] == '/' || raw[i] == '\\') && lies_on_a_machine(raw.take(n))
}

/// A prefix spells a directory: as it is given, or with forward slashes.
pub open spec fn spells(raw: Seq<char>, spelling: Seq<char>) -> bool {
    exists|n: int| #[trigger] is_bare(raw, n) && (spelling == raw.take(n) || spelling == slashed(raw.take(n)))
}

proof fn replacing_slashes(path: Seq<char>)
    ensures
        with_char_replaced(path, '\\', "/"@) == slashed(path),
    decreases path.len(),
{
    reveal_strlit("/");
    if path.len() > 0 {
        replacing_slashes(path.drop_last());
        assert(slashed(path) =~= slashed(path.drop_last()) + slashed(path).skip(path.len() - 1));
        assert(slashed(path).skip(path.len() - 1) =~= if path.last() == '\\' {
            "/"@
        } else {
            seq![path.last()]
        });
    } else {
        assert(slashed(path) =~= Seq::<char>::empty());
    }
}

proof fn what_is_bare(raw: Seq<char>)
    ensures
        ({
            let bare = without_separators(raw);
            let n = bare.len() as int;
            &&& n <= raw.len()
            &&& bare == raw.take(n)
            &&& n > 0 ==> raw[n - 1] != '/' && raw[n - 1] != '\\'
            &&& forall|i: int| n <= i < raw.len() ==> #[trigger] raw[i] == '/' || raw[i] == '\\'
        }),
    decreases raw.len(),
{
    if raw.len() > 0 && separator()(raw.last()) {
        let init = raw.drop_last();
        what_is_bare(init);
        let n = without_separators(init).len() as int;
        assert(raw.take(n) =~= init.take(n));
        assert forall|i: int| n <= i < raw.len() implies #[trigger] raw[i] == '/' || raw[i] == '\\' by {
            if i < init.len() {
                assert(init[i] == raw[i]);
            }
        }
    } else {
        assert(raw.take(raw.len() as int) =~= raw);
    }
}

proof fn absolute_lies_on_a_machine(path: Seq<char>)
    ensures
        is_absolute(path) <==> lies_on_a_machine(path),
{
    reveal_strlit("/");
    reveal_strlit("\\\\");
    if has_prefix(path, "/"@) {
        assert(path.subrange(0, 1)[0] == path[0]);
    }
    if path.len() >= 1 && path[0] == '/' {
        assert(path.subrange(0, 1) =~= "/"@);
        assert(occurs_at(path, "/"@, 0));
    }
    if has_prefix(path, "\\\\"@) {
        assert(path.subrange(0, 2)[0] == path[0]);
        assert(path.subrange(0, 2)[1] == path[1]);
    }
    if path.len() >= 2 && path[0] == '\\' && path[1] == '\\' {
        assert(path.subrange(0, 2) =~= "\\\\"@);
        assert(occurs_at(path, "\\\\"@, 0));
    }
}

proof fn one_way_to_be_bare(raw: Seq<char>, n: int)
    requires
        is_bare(raw, n),
    ensures
        without_separators(raw) == raw.take(n),
{
    what_is_bare(raw);
    let m = without_separators(raw).len() as int;
    if m < n {
        assert(raw[n - 1] == '/' || raw[n - 1] == '\\');
    }
    if n < m {
        assert(raw[m - 1] == '/' || raw[m - 1] == '\\');
    }
}

/// A list holds a prefix for a place.
pub open spec fn holds_place(prefixes: Seq<MachinePrefixModel>, spelling: Seq<char>, place: MachinePlace) -> bool {
    prefixes.contains(MachinePrefixModel { prefix: spelling, names: place })
}

proof fn a_root_more(prefixes: Seq<MachinePrefixModel>, raw: Seq<char>, names: MachinePlace)
    ensures
        forall|x: MachinePrefixModel| #[trigger] prefixes.contains(x) ==> with_root(prefixes, raw, names).contains(x),
        forall|x: MachinePrefixModel| #[trigger]
            with_root(prefixes, raw, names).contains(x) ==> prefixes.contains(x) || x.names == names && spells(raw, x.prefix),
        forall|spelling: Seq<char>| #[trigger] spells(raw, spelling) ==> knows(with_root(prefixes, raw, names), spelling),
{
    let bare = without_separators(raw);
    let n = bare.len() as int;
    what_is_bare(raw);
    absolute_lies_on_a_machine(bare);
    replacing_slashes(bare);
    let out = with_root(prefixes, raw, names);
    if bare.len() > 0 && is_absolute(bare) {
        let forward = slashed(bare);
        let once = with_spelling(prefixes, bare, names);
        assert(is_bare(raw, n));
        assert(spells(raw, bare));
        assert(spells(raw, forward));
        assert forall|x: MachinePrefixModel| #[trigger] prefixes.contains(x) implies out.contains(x) by {
            let i = prefixes.index_of(x);
            assert(once[i] == x);
            assert(out[i] == x);
        }
        assert forall|x: MachinePrefixModel| #[trigger] out.contains(x) implies prefixes.contains(x) || x.names == names && spells(
            raw,
            x.prefix,
        ) by {
            let i = out.index_of(x);
            if i < prefixes.len() {
                assert(prefixes[i] == x);
            }
        }
        assert(knows(once, bare)) by {
            if !knows(prefixes, bare) {
                assert(once[prefixes.len() as int].prefix == bare);
            }
        }
        assert(knows(out, bare)) by {
            let i = choose|i: int| 0 <= i < once.len() && (#[trigger] once[i]).prefix == bare;
            assert(out[i].prefix == bare);
        }
        assert(knows(out, forward)) by {
            if !knows(once, forward) {
                assert(out[once.len() as int].prefix == forward);
            }
        }
        assert forall|spelling: Seq<char>| #[trigger] spells(raw, spelling) implies knows(out, spelling) by {
            let m = choose|m: int| #[trigger] is_bare(raw, m) && (spelling == raw.take(m) || spelling == slashed(raw.take(m)));
            one_way_to_be_bare(raw, m);
        }
    } else {
        assert forall|spelling: Seq<char>| #[trigger] spells(raw, spelling) implies knows(out, spelling) by {
            let m = choose|m: int| #[trigger] is_bare(raw, m) && (spelling == raw.take(m) || spelling == slashed(raw.take(m)));
            one_way_to_be_bare(raw, m);
        }
    }
}

proof fn the_roots(roots: Seq<Seq<char>>)
    ensures
        forall|x: MachinePrefixModel| #[trigger]
            with_all_roots(roots).contains(x) ==> x.names is Checkout && exists|i: int|
                0 <= i < roots.len() && #[trigger] spells(roots[i], x.prefix),
        forall|i: int, spelling: Seq<char>|
            0 <= i < roots.len() && #[trigger] spells(roots[i], spelling) ==> holds_place(
                with_all_roots(roots),
                spelling,
                MachinePlace::Checkout,
            ),
    decreases roots.len(),
{
    let all = with_all_roots(roots);
    if roots.len() > 0 {
        let init = roots.drop_last();
        let n = roots.len() - 1;
        let before = with_all_roots(init);
        the_roots(init);
        a_root_more(before, roots.last(), MachinePlace::Checkout);
        assert forall|x: MachinePrefixModel| #[trigger] all.contains(x) implies x.names is Checkout && exists|i: int|
            0 <= i < roots.len() && #[trigger] spells(roots[i], x.prefix) by {
            if before.contains(x) {
                let i = choose|i: int| 0 <= i < init.len() && #[trigger] spells(init[i], x.prefix);
                assert(spells(roots[i], x.prefix));
            } else {
                assert(spells(roots[n], x.prefix));
            }
        }
        assert forall|i: int, spelling: Seq<char>| 0 <= i < roots.len() && #[trigger] spells(roots[i], spelling) implies holds_place(
            all,
            spelling,
            MachinePlace::Checkout,
        ) by {
            if i < n {
                assert(spells(init[i], spelling));
                assert(holds_place(before, spelling, MachinePlace::Checkout));
            } else {
                assert(knows(all, spelling));
                let k = choose|k: int| 0 <= k < all.len() && (#[trigger] all[k]).prefix == spelling;
                assert(all.contains(all[k]));
                assert(all[k] == (MachinePrefixModel { prefix: spelling, names: MachinePlace::Checkout }));
            }
        }
    }
}

proof fn ranking_keeps_members(list: Seq<MachinePrefixModel>)
    ensures
        forall|x: MachinePrefixModel| #[trigger] by_rank(list).contains(x) <==> list.contains(x),
{
    broadcast use vstd::seq_lib::group_to_multiset_ensures;

    by_rank_sorts(list);
    assert forall|x: MachinePrefixModel| #[trigger] by_rank(list).contains(x) <==> list.contains(x) by {
        assert(by_rank(list).contains(x) <==> by_rank(list).to_multiset().count(x) > 0);
        assert(list.contains(x) <==> list.to_multiset().count(x) > 0);
    }
}

/// Every checkout root that lies on a machine is a place in each of its
/// spellings, and so is the home directory, unless a root is spelt so already.
pub proof fn every_root_is_a_place(roots: Seq<Seq<char>>, home: Option<Seq<char>>)
    ensures
        forall|i: int, spelling: Seq<char>|
            0 <= i < roots.len() && #[trigger] spells(roots[i], spelling) ==> holds_place(
                boundary_prefixes(roots, home),
                spelling,
                MachinePlace::Checkout,
            ),
        home matches Some(home_dir) ==> forall|spelling: Seq<char>| #[trigger]
            spells(home_dir, spelling) ==> holds_place(boundary_prefixes(roots, home), spelling, MachinePlace::Home)
                || holds_place(boundary_prefixes(roots, home), spelling, MachinePlace::Checkout),
{
    the_roots(roots);
    let checkout = with_all_roots(roots);
    match home {
        Some(dir) => {
            let all = with_root(checkout, dir, MachinePlace::Home);
            a_root_more(checkout, dir, MachinePlace::Home);
            ranking_keeps_members(all);
            assert forall|spelling: Seq<char>| #[trigger] spells(dir, spelling) implies holds_place(
                boundary_prefixes(roots, home),
                spelling,
                MachinePlace::Home,
            ) || holds_place(boundary_prefixes(roots, home), spelling, MachinePlace::Checkout) by {
                let k = choose|k: int| 0 <= k < all.len() && (#[trigger] all[k]).prefix == spelling;
                assert(all.contains(all[k]));
                assert(by_rank(all).contains(all[k]));
                match all[k].names {
                    MachinePlace::Checkout => {
                        assert(all[k] == (MachinePrefixModel { prefix: spelling, names: MachinePlace::Checkout }));
                    },
                    MachinePlace::Home => {
                        assert(all[k] == (MachinePrefixModel { prefix: spelling, names: MachinePlace::Home }));
                    },
                }
            }
        },
        None => {
            ranking_keeps_members(checkout);
        },
    }
}

/// A place is a spelling of a checkout root or of the home directory, as what it
/// names; the longest come first.
pub proof fn every_place_is_a_root(roots: Seq<Seq<char>>, home: Option<Seq<char>>, k: int)
    requires
        0 <= k < boundary_prefixes(roots, home).len(),
    ensures
        match boundary_prefixes(roots, home)[k].names {
            MachinePlace::Checkout => exists|i: int|
                0 <= i < roots.len() && #[trigger] spells(roots[i], boundary_prefixes(roots, home)[k].prefix),
            MachinePlace::Home => home is Some && spells(home->0, boundary_prefixes(roots, home)[k].prefix),
        },
        forall|l: int|
            k < l < boundary_prefixes(roots, home).len() ==> encode_utf8((#[trigger] boundary_prefixes(roots, home)[l]).prefix).len() as usize
                <= encode_utf8(boundary_prefixes(roots, home)[k].prefix).len() as usize,
{
    the_roots(roots);
    let checkout = with_all_roots(roots);
    let all = match home {
        Some(dir) => with_root(checkout, dir, MachinePlace::Home),
        None => checkout,
    };
    by_rank_sorts(all);
    ranking_keeps_members(all);
    let x = by_rank(all)[k];
    assert(by_rank(all).contains(x));
    match home {
        Some(dir) => {
            a_root_more(checkout, dir, MachinePlace::Home);
        },
        None => {},
    }
    assert forall|l: int| k < l < by_rank(all).len() implies encode_utf8((#[trigger] by_rank(all)[l]).prefix).len() as usize
        <= encode_utf8(x.prefix).len() as usize by {
        assert(!by_rank(all)[l].precedes(by_rank(all)[k]));
    }
}

// ---------------------------------------------------------------------------
// Payloads
// ---------------------------------------------------------------------------

proof fn items_are_scrubbed(p: Seq<MachinePrefixModel>, items: Seq<JsonModel>)
    ensures
        scrubbed_items(p, items).len() == items.len(),
        forall|i: int| 0 <= i < items.len() ==> #[trigger] scrubbed_items(p, items)[i] == scrubbed(p, items[i]),
    decreases items.len(),
{
    if items.len() > 0 {
        let init = items.drop_last();
        items_are_scrubbed(p, init);
        assert forall|i: int| 0 <= i < items.len() implies #[trigger] scrubbed_items(p, items)[i] == scrubbed(p, items[i]) by {
            if i < init.len() {
                assert(scrubbed_items(p, items)[i] == scrubbed_items(p, init)[i]);
                assert(init[i] == items[i]);
            }
        }
    }
}

/// A payload keeps its shape: texts leave as texts do, the items of a list leave
/// in their order, and what is no text and holds none stays.
pub proof fn a_payload_keeps_its_shape(p: Seq<MachinePrefixModel>, payload: JsonModel)
    ensures
        match payload {
            JsonModel::Text(text) => scrubbed(p, payload) == JsonModel::Text(all_replaced(text, p).0),
            JsonModel::List(items) => scrubbed(p, payload) is List && scrubbed(p, payload)->List_0.len() == items.len()
                && forall|i: int| 0 <= i < items.len() ==> #[trigger] scrubbed(p, payload)->List_0[i] == scrubbed(p, items[i]),
            JsonModel::Object(fields) => scrubbed(p, payload) is Object,
            _ => scrubbed(p, payload) == payload,
        },
{
    match payload {
        JsonModel::List(items) => items_are_scrubbed(p, items),
        _ => {},
    }
}

proof fn a_field_is_set(fields: Seq<(Seq<char>, JsonModel)>, key: Seq<char>, value: JsonModel)
    ensures
        with_field(fields, key, value).len() == fields.len() || with_field(fields, key, value) == fields.push((key, value)),
        with_field(fields, key, value).contains((key, value)),
        forall|field: (Seq<char>, JsonModel)| #[trigger]
            fields.contains(field) && field.0 != key ==> with_field(fields, key, value).contains(field),
        forall|field: (Seq<char>, JsonModel)| #[trigger]
            with_field(fields, key, value).contains(field) ==> field == (key, value) || fields.contains(field),
    decreases fields.len(),
{
    let all = with_field(fields, key, value);
    if fields.len() == 0 {
        assert(all[0] == (key, value));
        assert(all =~= fields.push((key, value)));
    } else {
        let init = fields.drop_last();
        let n = fields.len() - 1;
        assert(fields =~= init.push(fields.last()));
        if fields.last().0 == key {
            assert(all[n] == (key, value));
            assert forall|field: (Seq<char>, JsonModel)| #[trigger] fields.contains(field) && field.0 != key implies all.contains(
                field,
            ) by {
                let i = fields.index_of(field);
                assert(all[i] == field);
            }
            assert forall|field: (Seq<char>, JsonModel)| #[trigger] all.contains(field) implies field == (key, value)
                || fields.contains(field) by {
                let i = all.index_of(field);
                if i < n {
                    assert(fields[i] == field);
                }
            }
        } else {
            a_field_is_set(init, key, value);
            let rest = with_field(init, key, value);
            if rest.len() < fields.len() {
                let at = rest.index_of((key, value));
                assert(all[at] == (key, value));
                assert forall|field: (Seq<char>, JsonModel)| #[trigger] fields.contains(field) && field.0
                    != key implies all.contains(field) by {
                    let i = fields.index_of(field);
                    if i < n {
                        assert(init[i] == field);
                        assert(init.contains(field));
                        let j = rest.index_of(field);
                        assert(all[j] == field);
                    } else {
                        assert(all[rest.len() as int] == field);
                    }
                }
                assert forall|field: (Seq<char>, JsonModel)| #[trigger] all.contains(field) implies field == (key, value)
                    || fields.contains(field) by {
                    let i = all.index_of(field);
                    if i < rest.len() {
                        assert(rest[i] == field);
                        assert(rest.contains(field));
                        if field != (key, value) {
                            let j = init.index_of(field);
                            assert(fields[j] == field);
                        }
                    } else {
                        assert(fields[n] == field);
                    }
                }
            } else {
                assert(all[fields.len() as int] == (key, value));
                assert forall|field: (Seq<char>, JsonModel)| #[trigger] fields.contains(field) && field.0
                    != key implies all.contains(field) by {
                    let i = fields.index_of(field);
                    assert(all[i] == field);
                }
                assert forall|field: (Seq<char>, JsonModel)| #[trigger] all.contains(field) implies field == (key, value)
                    || fields.contains(field) by {
                    let i = all.index_of(field);
                    if i < fields.len() {
                        assert(fields[i] == field);
                    }
                }
            }
        }
    }
}

/// Every field of an object leaves under its key as texts leave, with what its
/// value leaves as, unless a later key leaves as the same.
pub proof fn every_field_leaves(p: Seq<MachinePrefixModel>, fields: Seq<(Seq<char>, JsonModel)>, i: int)
    requires
        0 <= i < fields.len(),
        forall|m: int|
            i < m < fields.len() ==> all_replaced((#[trigger] fields[m]).0, p).0 != all_replaced(fields[i].0, p).0,
    ensures
        scrubbed(p, JsonModel::Object(fields)) is Object,
        scrubbed(p, JsonModel::Object(fields))->Object_0.contains((all_replaced(fields[i].0, p).0, scrubbed(p, fields[i].1))),
{
    a_field_leaves(p, fields, i);
}

proof fn a_field_leaves(p: Seq<MachinePrefixModel>, fields: Seq<(Seq<char>, JsonModel)>, i: int)
    requires
        0 <= i < fields.len(),
        forall|m: int|
            i < m < fields.len() ==> all_replaced((#[trigger] fields[m]).0, p).0 != all_replaced(fields[i].0, p).0,
    ensures
        scrubbed_fields(p, fields).contains((all_replaced(fields[i].0, p).0, scrubbed(p, fields[i].1))),
    decreases fields.len(),
{
    let n = fields.len() - 1;
    let init = fields.drop_last();
    let before = scrubbed_fields(p, init);
    a_field_is_set(before, all_replaced(fields[n].0, p).0, scrubbed(p, fields[n].1));
    if i < n {
        assert(init[i] == fields[i]);
        assert forall|m: int| i < m < init.len() implies all_replaced((#[trigger] init[m]).0, p).0 != all_replaced(
            init[i].0,
            p,
        ).0 by {
            assert(init[m] == fields[m]);
        }
        a_field_leaves(p, init, i);
        assert(all_replaced(fields[n].0, p).0 != all_replaced(fields[i].0, p).0);
    }
}

/// What leaves of an object holds fields of it, and no others.
pub proof fn no_other_field_leaves(p: Seq<MachinePrefixModel>, fields: Seq<(Seq<char>, JsonModel)>, field: (Seq<char>, JsonModel))
    requires
        scrubbed(p, JsonModel::Object(fields))->Object_0.contains(field),
    ensures
        exists|i: int|
            0 <= i < fields.len() && field.0 == all_replaced((#[trigger] fields[i]).0, p).0 && field.1 == scrubbed(p, fields[i].1),
{
    a_field_comes_from_one(p, fields, field);
}

proof fn a_field_comes_from_one(p: Seq<MachinePrefixModel>, fields: Seq<(Seq<char>, JsonModel)>, field: (Seq<char>, JsonModel))
    requires
        scrubbed_fields(p, fields).contains(field),
    ensures
        exists|i: int|
            0 <= i < fields.len() && field.0 == all_replaced((#[trigger] fields[i]).0, p).0 && field.1 == scrubbed(p, fields[i].1),
    decreases fields.len(),
{
    if fields.len() > 0 {
        let n = fields.len() - 1;
        let init = fields.drop_last();
        let before = scrubbed_fields(p, init);
        let key = all_replaced(fields[n].0, p).0;
        let value = scrubbed(p, fields[n].1);
        a_field_is_set(before, key, value);
        if field == (key, value) {
            assert(field.0 == all_replaced(fields[n].0, p).0);
        } else {
            a_field_comes_from_one(p, init, field);
            let i = choose|i: int|
                0 <= i < init.len() && field.0 == all_replaced((#[trigger] init[i]).0, p).0 && field.1 == scrubbed(p, init[i].1);
            assert(init[i] == fields[i]);
        }
    }
}

proof fn clean_or_counted(s: Seq<char>, p: Seq<MachinePrefixModel>)
    requires
        are_places(p),
    ensures
        all_replaced(s, p).1 == 0 <==> names_no_place(s, p),
{
    a_text_without_places_leaves_as_it_is(s, p);
    assert forall|k: int| 0 <= k < p.len() implies (names_place(s, (#[trigger] p[k]).prefix) <==> exists|at: int| #[trigger]
        stands_at(s, p[k].prefix, at)) by {
        standing_is_naming(s, p[k].prefix);
    }
    if names_no_place(s, p) {
        assert forall|k: int, at: int| #![trigger stands_at(s, p[k].prefix, at)] 0 <= k < p.len() implies !stands_at(
            s,
            p[k].prefix,
            at,
        ) by {
            assert(!names_place(s, p[k].prefix));
        }
    }
}

/// Something is reported of a payload exactly where a text or a key of it names
/// a place.
pub proof fn what_names_a_place_is_reported(p: Seq<MachinePrefixModel>, payload: JsonModel, field: Seq<char>)
    requires
        are_places(p),
    ensures
        touched(p, payload, field).len() == 0 <==> payload_names_no_place(p, payload),
    decreases payload,
{
    match payload {
        JsonModel::Text(text) => clean_or_counted(text, p),
        JsonModel::List(items) => what_names_a_place_in_items(p, items, field),
        JsonModel::Object(fields) => what_names_a_place_in_fields(p, fields, field),
        _ => {},
    }
}

proof fn what_names_a_place_in_items(p: Seq<MachinePrefixModel>, items: Seq<JsonModel>, field: Seq<char>)
    requires
        are_places(p),
    ensures
        touched_items(p, items, field).len() == 0 <==> items_name_no_place(p, items),
    decreases items,
{
    if items.len() > 0 {
        what_names_a_place_in_items(p, items.drop_last(), field);
        what_names_a_place_is_reported(
            p,
            items[items.len() - 1],
            field + "["@ + decimal((items.len() - 1) as nat) + "]"@,
        );
    }
}

proof fn what_names_a_place_in_fields(p: Seq<MachinePrefixModel>, fields: Seq<(Seq<char>, JsonModel)>, field: Seq<char>)
    requires
        are_places(p),
    ensures
        touched_fields(p, fields, field).len() == 0 <==> fields_name_no_place(p, fields),
    decreases fields,
{
    if fields.len() > 0 {
        let last = fields[fields.len() - 1];
        what_names_a_place_in_fields(p, fields.drop_last(), field);
        clean_or_counted(last.0, p);
        let child = below(field, all_replaced(last.0, p).0);
        what_names_a_place_is_reported(p, last.1, child);
        assert(seq![child + " (key)"@].len() == 1);
    }
}

/// What is reported of an item is reported of its list, at the item's number.
pub proof fn an_item_is_reported_at_its_number(p: Seq<MachinePrefixModel>, items: Seq<JsonModel>, field: Seq<char>, i: int, path: Seq<char>)
    requires
        0 <= i < items.len(),
        touched(p, items[i], field + "["@ + decimal(i as nat) + "]"@).contains(path),
    ensures
        touched(p, JsonModel::List(items), field).contains(path),
{
    an_item_is_reported(p, items, field, i, path);
}

proof fn an_item_is_reported(p: Seq<MachinePrefixModel>, items: Seq<JsonModel>, field: Seq<char>, i: int, path: Seq<char>)
    requires
        0 <= i < items.len(),
        touched(p, items[i], field + "["@ + decimal(i as nat) + "]"@).contains(path),
    ensures
        touched_items(p, items, field).contains(path),
    decreases items.len(),
{
    let n = items.len() - 1;
    let before = touched_items(p, items.drop_last(), field);
    let here = touched(p, items[n], field + "["@ + decimal(n as nat) + "]"@);
    if i == n {
        let k = here.index_of(path);
        assert((before + here)[before.len() + k] == path);
    } else {
        assert(items.drop_last()[i] == items[i]);
        an_item_is_reported(p, items.drop_last(), field, i, path);
        let k = before.index_of(path);
        assert((before + here)[k] == path);
    }
}

/// Where a field of an object lies: under its key as it leaves, behind a dot
/// where the object is itself a field.
pub open spec fn lies_at(field: Seq<char>, key: Seq<char>) -> Seq<char> {
    if field.len() == 0 {
        key
    } else {
        field + seq!['.'] + key
    }
}

/// What is reported of a field is reported of its object, and a key that names a
/// place is reported as a key.
pub proof fn a_field_is_reported_under_its_key(
    p: Seq<MachinePrefixModel>,
    fields: Seq<(Seq<char>, JsonModel)>,
    field: Seq<char>,
    i: int,
    path: Seq<char>,
)
    requires
        0 <= i < fields.len(),
        ({
            let at = lies_at(field, all_replaced(fields[i].0, p).0);
            touched(p, fields[i].1, at).contains(path) || all_replaced(fields[i].0, p).1 > 0 && path == at + " (key)"@
        }),
    ensures
        touched(p, JsonModel::Object(fields), field).contains(path),
{
    a_field_is_reported(p, fields, field, i, path);
}

proof fn a_field_is_reported(
    p: Seq<MachinePrefixModel>,
    fields: Seq<(Seq<char>, JsonModel)>,
    field: Seq<char>,
    i: int,
    path: Seq<char>,
)
    requires
        0 <= i < fields.len(),
        ({
            let at = lies_at(field, all_replaced(fields[i].0, p).0);
            touched(p, fields[i].1, at).contains(path) || all_replaced(fields[i].0, p).1 > 0 && path == at + " (key)"@
        }),
    ensures
        touched_fields(p, fields, field).contains(path),
    decreases fields.len(),
{
    reveal_strlit(".");
    assert("."@ =~= seq!['.']);
    let n = fields.len() - 1;
    let (key, hits) = all_replaced(fields[n].0, p);
    let child = below(field, key);
    let before = touched_fields(p, fields.drop_last(), field);
    let named = if hits > 0 {
        seq![child + " (key)"@]
    } else {
        Seq::empty()
    };
    let here = touched(p, fields[n].1, child);
    let all = before + named + here;
    if i == n {
        if here.contains(path) {
            let k = here.index_of(path);
            assert(all[before.len() + named.len() + k] == path);
        } else {
            assert(all[before.len() as int] == path);
        }
    } else {
        assert(fields.drop_last()[i] == fields[i]);
        a_field_is_reported(p, fields.drop_last(), field, i, path);
        let k = before.index_of(path);
        assert(all[k] == path);
    }
}

// ---------------------------------------------------------------------------
// Paths that are shown
// ---------------------------------------------------------------------------

proof fn slashes_at_the_end_go(s: Seq<char>, n: nat)
    requires
        s.len() > 0 ==> s.last() != '/',
    ensures
        trimmed_end_of(s + Seq::new(n, |i: int| '/'), '/') == s,
    decreases n,
{
    let whole = s + Seq::new(n, |i: int| '/');
    if n == 0 {
        assert(whole =~= s);
    } else {
        assert(whole.drop_last() =~= s + Seq::new((n - 1) as nat, |i: int| '/'));
        assert(whole.last() == '/');
        slashes_at_the_end_go(s, (n - 1) as nat);
    }
}

/// A directory is the prefix of what lies in it, with forward slashes and one at
/// its end, however many stand there.
pub proof fn a_directory_is_a_prefix(directory: Seq<char>, n: nat)
    requires
        directory.len() > 0,
        directory.last() != '/' && directory.last() != '\\',
        directory != "."@,
    ensures
        prefix_of(directory + Seq::new(n, |i: int| '/')) == slashed(directory) + seq!['/'],
{
    reveal_strlit("/");
    reveal_strlit(".");
    assert("/"@ =~= seq!['/']);
    let tail = Seq::new(n, |i: int| '/');
    let forward = slashed(directory);
    replacing_slashes(directory + tail);
    assert(slashed(directory + tail) =~= forward + tail);
    assert(forward.last() == directory.last());
    slashes_at_the_end_go(forward, n);
    if forward == "."@ {
        assert(directory.len() == 1);
        assert(directory[0] == forward[0]);
        assert(directory =~= "."@);
    }
}

/// A path in the checkout is shown from the root, and one in the home directory
/// from a tilde, where no package's label takes its place.
pub proof fn a_path_is_shown_from_where_it_lies(token: Seq<char>, root: Seq<char>, home: Seq<char>, rest: Seq<char>)
    requires
        root.len() > 0,
        home.len() > 0,
    ensures
        slashed(token) == root + rest ==> rewritten_token(token, None, root, Some(home)) == rest,
        slashed(token) == home + rest && !has_text(slashed(token), root) ==> rewritten_token(token, None, root, Some(home))
            == seq!['~', '/'] + rest,
        forall|label: Seq<char>| #[trigger] rewritten_token(token, Some(label), root, Some(home)) == label,
{
    reveal_strlit("~/");
    assert("~/"@ =~= seq!['~', '/']);
    replacing_slashes(token);
    let path = slashed(token);
    if path == root + rest {
        a_cut_at_the_front(root, rest);
    }
    if path == home + rest {
        a_cut_at_the_front(home, rest);
    }
}

proof fn a_cut_at_the_front(p: Seq<char>, rest: Seq<char>)
    requires
        p.len() > 0,
    ensures
        first_cut(p + rest, p) == Some((Seq::<char>::empty(), rest)),
{
    let s = p + rest;
    assert(s.subrange(0, p.len() as int) =~= p);
    assert(occurs_at(s, p, 0));
    cut_at_the_first(s, p);
    let (before, after) = first_cut(s, p)->0;
    assert(before.len() == 0);
    assert(before =~= Seq::<char>::empty());
    assert(after =~= s.skip(p.len() as int));
    assert(s.skip(p.len() as int) =~= rest);
}

/// The name of a store entry is the package's, with pluses for slashes, an at
/// sign, the version, and its peers behind an underscore or a bracket.
pub proof fn an_entry_carries_its_version(name: Seq<char>, version: Seq<char>, peers: Seq<char>)
    requires
        version.len() > 0,
        forall|i: int| 0 <= i < version.len() ==> #[trigger] version[i] != '_' && version[i] != '(',
        peers.len() > 0 ==> peers[0] == '_' || peers[0] == '(',
    ensures
        entry_version(with_char_replaced(name, '/', seq!['+']) + seq!['@'] + version + peers, name) == Some(version),
{
    reveal_strlit("+");
    reveal_strlit("@");
    assert("+"@ =~= seq!['+']);
    assert("@"@ =~= seq!['@']);
    let front = with_char_replaced(name, '/', "+"@) + "@"@;
    let rest = version + peers;
    let entry = front + rest;
    assert(with_char_replaced(name, '/', seq!['+']) + seq!['@'] + version + peers =~= entry);
    assert(entry.subrange(0, front.len() as int) =~= front);
    assert(occurs_at(entry, front, 0));
    assert(entry.skip(front.len() as int) =~= rest);
    before_peers_takes(rest, version.len() as int);
    assert(rest.take(version.len() as int) =~= version);
}

/// A package is labelled with its name and its version, where one is known: that
/// of the store entry, else that of the cache, else what the package of an
/// absolute directory declares.
pub proof fn a_label_is_a_name_and_a_version(
    entry: Seq<char>,
    name: Seq<char>,
    version: Seq<char>,
    directory: Seq<char>,
    cache: Option<(Seq<char>, Seq<char>)>,
    flat: Option<(Seq<char>, Seq<char>)>,
    versions: Map<Seq<char>, Seq<char>>,
)
    ensures
        entry_version(entry, name) == Some(version) ==> layout_label(Some((entry, name)), cache, flat, versions) == Some(
            name + seq!['@'] + version,
        ),
        entry_version(entry, name) is None ==> layout_label(Some((entry, name)), cache, flat, versions) == Some(name),
        layout_label(None, Some((name, version)), flat, versions) == Some(name + seq!['@'] + version),
        directory.len() > 0 && directory[0] == '/' && versions.contains_pair(directory + name, version) ==> layout_label(
            None,
            None,
            Some((directory, name)),
            versions,
        ) == Some(name + seq!['@'] + version),
        directory.len() > 0 && directory[0] != '/' || !versions.contains_key(directory + name) ==> layout_label(
            None,
            None,
            Some((directory, name)),
            versions,
        ) == Some(name),
        layout_label(None, None, None, versions) is None,
{
    reveal_strlit("@");
    reveal_strlit("/");
    assert("@"@ =~= seq!['@']);
    let place = directory + name;
    if directory.len() > 0 {
        assert(place[0] == directory[0]);
        if directory[0] == '/' {
            assert(place.subrange(0, 1) =~= "/"@);
            assert(occurs_at(place, "/"@, 0));
        } else if has_prefix(place, "/"@) {
            assert(place.subrange(0, 1)[0] == place[0]);
        }
    }
}

} // verus!
