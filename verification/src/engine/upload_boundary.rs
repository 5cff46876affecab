//! The last check a payload passes before it leaves the machine.
//!
//! Every string of the payload, and every key, that still holds the checkout
//! root or the home directory has it replaced with a neutral placeholder.

use crate::json::{
    fields_model, fields_model_places, items_model, items_model_places, json_model, push_item, set_field, with_field, Json,
    JsonModel,
};
use crate::sorting::{by_rank, place, Ranked, Sortable};
use crate::text::{
    chars_of, concat, concat3, counted, decimal, first_cut, first_cut_shortens, first_index_is, first_occurrence, has_prefix,
    has_text, is_alphanumeric, is_ascii_char, occurs_at, print_number, replace_char, same, separators,
    separators_add_up, slashes_for_backslashes, split_once, starts_with, text_of, trim_back, unicode_alphanumeric,
    with_char_replaced,
};
use vstd::prelude::*;
use vstd::utf8::encode_utf8;

verus! {

/// Stands in for the checkout root.
pub const CHECKOUT_PLACEHOLDER: &'static str = "<checkout>";

/// Stands in for the home directory.
pub const HOME_PLACEHOLDER: &'static str = "<home>";

/// What a machine prefix names.
#[derive(Debug, Clone, Copy, PartialEq, Eq, Structural)]
pub enum MachinePlace {
    Checkout,
    Home,
}

impl MachinePlace {
    pub open spec fn placeholder_text(self) -> Seq<char> {
        match self {
            MachinePlace::Checkout => CHECKOUT_PLACEHOLDER@,
            MachinePlace::Home => HOME_PLACEHOLDER@,
        }
    }

    pub fn placeholder(self) -> (r: &'static str)
        ensures
            r@ == self.placeholder_text(),
    {
        match self {
            MachinePlace::Checkout => CHECKOUT_PLACEHOLDER,
            MachinePlace::Home => HOME_PLACEHOLDER,
        }
    }
}

/// A machine prefix to replace.
#[derive(Debug, Clone, PartialEq, Eq)]
pub struct MachinePrefix {
    pub prefix: String,
    pub names: MachinePlace,
}

/// What a [`MachinePrefix`] holds.
pub struct MachinePrefixModel {
    pub prefix: Seq<char>,
    pub names: MachinePlace,
}

impl DeepView for MachinePrefix {
    type V = MachinePrefixModel;

    open spec fn deep_view(&self) -> MachinePrefixModel {
        MachinePrefixModel { prefix: self.prefix@, names: self.names }
    }
}

/// The length of a text in bytes.
pub open spec fn byte_len(s: Seq<char>) -> usize {
    encode_utf8(s).len() as usize
}

/// Longer prefixes rank first.
impl Ranked for MachinePrefixModel {
    open spec fn precedes(self, other: Self) -> bool {
        byte_len(self.prefix) > byte_len(other.prefix)
    }

    proof fn precedes_irreflexive(a: Self) {
    }

    proof fn precedes_transitive(a: Self, b: Self, c: Self) {
    }

    proof fn precedes_weakly(a: Self, b: Self, c: Self) {
    }
}

impl Sortable for MachinePrefix {
    fn before(&self, other: &Self) -> (r: bool) {
        self.prefix.as_str().len() > other.prefix.as_str().len()
    }
}

/// A path separator of any platform.
pub open spec fn separator() -> spec_fn(char) -> bool {
    |c: char| c == '/' || c == '\\'
}

pub open spec fn without_separators(raw: Seq<char>) -> Seq<char> {
    trim_back(raw, separator())
}

/// The path names a place on a machine: it begins with a slash, with two
/// backslashes, or with a drive letter.
pub open spec fn is_absolute(path: Seq<char>) -> bool {
    ||| has_prefix(path, "/"@)
    ||| has_prefix(path, "\\\\"@)
    ||| path.len() >= 3 && is_ascii_char(path[0]) && path[1] == ':' && (path[2] == '\\' || path[2] == '/')
}

pub open spec fn knows(prefixes: Seq<MachinePrefixModel>, spelling: Seq<char>) -> bool {
    exists|i: int| 0 <= i < prefixes.len() && (#[trigger] prefixes[i]).prefix == spelling
}

pub open spec fn with_spelling(prefixes: Seq<MachinePrefixModel>, spelling: Seq<char>, names: MachinePlace) -> Seq<MachinePrefixModel> {
    if knows(prefixes, spelling) {
        prefixes
    } else {
        prefixes.push(MachinePrefixModel { prefix: spelling, names })
    }
}

/// The prefixes after a root: its spelling as given and with forward slashes.
/// A root of nothing and a relative root name no machine.
pub open spec fn with_root(prefixes: Seq<MachinePrefixModel>, raw: Seq<char>, names: MachinePlace) -> Seq<MachinePrefixModel> {
    let bare = without_separators(raw);
    if bare.len() == 0 || !is_absolute(bare) {
        prefixes
    } else {
        with_spelling(with_spelling(prefixes, bare, names), with_char_replaced(bare, '\\', "/"@), names)
    }
}

pub open spec fn with_all_roots(roots: Seq<Seq<char>>) -> Seq<MachinePrefixModel>
    decreases roots.len(),
{
    if roots.len() == 0 {
        Seq::empty()
    } else {
        with_root(with_all_roots(roots.drop_last()), roots.last(), MachinePlace::Checkout)
    }
}

/// The prefixes of a boundary, longest first.
pub open spec fn boundary_prefixes(roots: Seq<Seq<char>>, home: Option<Seq<char>>) -> Seq<MachinePrefixModel> {
    by_rank(
        match home {
            Some(home) => with_root(with_all_roots(roots), home, MachinePlace::Home),
            None => with_all_roots(roots),
        },
    )
}

/// A name goes on with this character, so a prefix before it is part of a
/// longer name.
pub open spec fn continues_name(c: char) -> bool {
    unicode_alphanumeric(c) || c == '-' || c == '_' || c == '.'
}

pub open spec fn at_boundary(after: Seq<char>) -> bool {
    after.len() == 0 || !continues_name(after[0])
}

/// A text with every occurrence of a prefix that ends at a path boundary
/// replaced, and how many there were. An occurrence that ends at none stays, and
/// the next one may begin within it.
pub open spec fn replaced(s: Seq<char>, prefix: Seq<char>, by: Seq<char>) -> (Seq<char>, nat)
    decreases s.len(),
{
    match first_cut(s, prefix) {
        Some((before, after)) => if prefix.len() > 0 && before.len() + prefix.len() + after.len() == s.len() {
            if at_boundary(after) {
                let (rest, hits) = replaced(after, prefix, by);
                (before + by + rest, hits + 1)
            } else {
                let (rest, hits) = replaced(s.skip(before.len() as int + 1), prefix, by);
                (s.take(before.len() as int + 1) + rest, hits)
            }
        } else {
            (s, 0)
        },
        None => (s, 0),
    }
}

/// A text with each prefix of a list replaced in turn.
pub open spec fn one_pass(s: Seq<char>, prefixes: Seq<MachinePrefixModel>) -> (Seq<char>, nat)
    decreases prefixes.len(),
{
    if prefixes.len() == 0 {
        (s, 0)
    } else {
        let (before, hits) = one_pass(s, prefixes.drop_last());
        let (out, more) = replaced(before, prefixes.last().prefix, prefixes.last().names.placeholder_text());
        (out, hits + more)
    }
}

/// A text with every prefix of a list replaced, and how often one was. What was
/// replaced can bring another occurrence to a boundary, so passes follow until
/// one finds nothing.
pub open spec fn all_replaced(s: Seq<char>, prefixes: Seq<MachinePrefixModel>) -> (Seq<char>, nat)
    decreases separators(s),
{
    let (out, hits) = one_pass(s, prefixes);
    if hits == 0 || separators(out) >= separators(s) {
        (out, hits)
    } else {
        let (rest, more) = all_replaced(out, prefixes);
        (rest, hits + more)
    }
}

/// Every prefix of a list names a place: it holds a separator.
pub open spec fn are_places(prefixes: Seq<MachinePrefixModel>) -> bool {
    forall|i: int| 0 <= i < prefixes.len() ==> separators((#[trigger] prefixes[i]).prefix) > 0
}

/// The machine prefixes that an upload must not hold.
pub struct UploadBoundary {
    pub prefixes: Vec<MachinePrefix>,
}

impl UploadBoundary {
    /// Every prefix names a place.
    pub open spec fn names_places(&self) -> bool {
        are_places(self.prefixes.deep_view())
    }
}

fn add_spelling(prefixes: &mut Vec<MachinePrefix>, spelling: String, names: MachinePlace)
    ensures
        final(prefixes).deep_view() == with_spelling(old(prefixes).deep_view(), spelling@, names),
{
    let ghost all = prefixes.deep_view();
    let mut i: usize = 0;
    while i < prefixes.len()
        invariant
            i <= prefixes.len(),
            all == prefixes.deep_view(),
            forall|j: int| 0 <= j < i ==> (#[trigger] all[j]).prefix != spelling@,
        decreases prefixes.len() - i,
    {
        assert(all[i as int] == prefixes@[i as int].deep_view());
        if same(prefixes[i].prefix.as_str(), spelling.as_str()) {
            return;
        }
        i += 1;
    }
    prefixes.push(MachinePrefix { prefix: spelling, names });
    assert(prefixes.deep_view() =~= all.push(MachinePrefixModel { prefix: spelling@, names }));
}

fn bare_path(raw: &str) -> (r: String)
    ensures
        r@ == without_separators(raw@),
{
    let v = chars_of(raw);
    let mut to: usize = v.len();
    assert(v@.take(to as int) == v@);
    while to > 0 && (v[to - 1] == '/' || v[to - 1] == '\\')
        invariant
            to <= v.len(),
            without_separators(raw@) == trim_back(v@.take(to as int), separator()),
        decreases to,
    {
        assert(v@.take(to as int).drop_last() == v@.take(to - 1));
        to -= 1;
    }
    assert(to > 0 ==> v@.take(to as int).last() == v@[to - 1]);
    let r = text_of(&v, 0, to);
    assert(v@.subrange(0, to as int) == v@.take(to as int));
    r
}

fn path_is_absolute(path: &str) -> (r: bool)
    ensures
        r == is_absolute(path@),
{
    if starts_with(path, "/") || starts_with(path, "\\\\") {
        return true;
    }
    let v = chars_of(path);
    v.len() >= 3 && v[0] <= '\x7f' && v[1] == ':' && (v[2] == '\\' || v[2] == '/')
}

fn add_root(prefixes: &mut Vec<MachinePrefix>, raw: &str, names: MachinePlace)
    ensures
        final(prefixes).deep_view() == with_root(old(prefixes).deep_view(), raw@, names),
{
    let bare = bare_path(raw);
    if bare.as_str().is_empty() || !path_is_absolute(bare.as_str()) {
        return;
    }
    let slashes = replace_char(bare.as_str(), '\\', "/");
    add_spelling(prefixes, bare, names);
    add_spelling(prefixes, slashes, names);
}

proof fn a_separator_counts(s: Seq<char>, i: int)
    requires
        0 <= i < s.len(),
        separator()(s[i]),
    ensures
        separators(s) > 0,
    decreases s.len(),
{
    if i < s.len() - 1 {
        a_separator_counts(s.drop_last(), i);
    }
}

proof fn roots_are_places(prefixes: Seq<MachinePrefixModel>, raw: Seq<char>, names: MachinePlace)
    requires
        are_places(prefixes),
    ensures
        are_places(with_root(prefixes, raw, names)),
{
    let bare = without_separators(raw);
    reveal_strlit("/");
    reveal_strlit("\\\\");
    slashes_for_backslashes(bare);
    if is_absolute(bare) {
        if has_prefix(bare, "/"@) {
            assert(bare.subrange(0, 1)[0] == bare[0]);
            a_separator_counts(bare, 0);
        } else if has_prefix(bare, "\\\\"@) {
            assert(bare.subrange(0, 2)[0] == bare[0]);
            a_separator_counts(bare, 0);
        } else {
            a_separator_counts(bare, 2);
        }
    }
}

impl UploadBoundary {
    /// A boundary for the spellings of a checkout root and for a home
    /// directory.
    pub fn with_roots(roots: &Vec<String>, home: Option<&str>) -> (r: Self)
        ensures
            r.prefixes.deep_view() == boundary_prefixes(roots.deep_view(), home.deep_view()),
            r.names_places(),
    {
        let ghost all = roots.deep_view();
        let mut prefixes: Vec<MachinePrefix> = Vec::new();
        let mut i: usize = 0;
        assert(prefixes.deep_view() =~= with_all_roots(all.take(0)));
        while i < roots.len()
            invariant
                i <= roots.len(),
                all == roots.deep_view(),
                prefixes.deep_view() == with_all_roots(all.take(i as int)),
                are_places(prefixes.deep_view()),
            decreases roots.len() - i,
        {
            proof {
                assert(all.take(i + 1).drop_last() == all.take(i as int));
                assert(all.take(i + 1).last() == roots@[i as int]@);
                roots_are_places(prefixes.deep_view(), roots@[i as int]@, MachinePlace::Checkout);
            }
            add_root(&mut prefixes, roots[i].as_str(), MachinePlace::Checkout);
            i += 1;
        }
        assert(all.take(all.len() as int) == all);
        match home {
            Some(home) => {
                proof {
                    roots_are_places(prefixes.deep_view(), home@, MachinePlace::Home);
                }
                add_root(&mut prefixes, home, MachinePlace::Home);
            },
            None => {},
        }
        let ghost unsorted = prefixes.deep_view();
        let mut sorted: Vec<MachinePrefix> = Vec::new();
        let mut j: usize = 0;
        assert(sorted.deep_view() =~= by_rank(unsorted.take(0)));
        while j < prefixes.len()
            invariant
                j <= prefixes.len(),
                unsorted == prefixes.deep_view(),
                are_places(unsorted),
                sorted.deep_view() == by_rank(unsorted.take(j as int)),
                are_places(sorted.deep_view()),
            decreases prefixes.len() - j,
        {
            assert(unsorted.take(j + 1).drop_last() == unsorted.take(j as int));
            assert(unsorted.take(j + 1).last() == prefixes@[j as int].deep_view());
            let here = MachinePrefix { prefix: prefixes[j].prefix.clone(), names: prefixes[j].names };
            let ghost before = sorted.deep_view();
            proof {
                assert(unsorted[j as int] == here.deep_view());
                placed_prefixes_are_places(before, here.deep_view());
            }
            place(&mut sorted, here);
            j += 1;
        }
        assert(unsorted.take(unsorted.len() as int) == unsorted);
        UploadBoundary { prefixes: sorted }
    }

    /// A boundary for one root and a home directory.
    pub fn new(repo_root: &str, home: Option<&str>) -> (r: Self)
        ensures
            r.prefixes.deep_view() == boundary_prefixes(seq![repo_root@], home.deep_view()),
            r.names_places(),
    {
        let mut roots: Vec<String> = Vec::new();
        roots.push(repo_root.to_owned());
        assert(roots.deep_view() =~= seq![repo_root@]);
        UploadBoundary::with_roots(&roots, home)
    }

    fn replace(text: String, prefix: &str, by: &str) -> (r: (String, usize))
        requires
            prefix@.len() > 0,
        ensures
            r.0@ == replaced(text@, prefix@, by@).0,
            r.1 == counted(replaced(text@, prefix@, by@).1),
    {
        let mut out: String = String::new();
        let mut rest: String = text;
        let mut hits: usize = 0;
        let ghost whole = text@;
        let ghost mut found: nat = 0;
        assert(out@ + replaced(rest@, prefix@, by@).0 =~= replaced(whole, prefix@, by@).0);
        loop
            invariant
                prefix@.len() > 0,
                whole == text@,
                out@ + replaced(rest@, prefix@, by@).0 == replaced(whole, prefix@, by@).0,
                found + replaced(rest@, prefix@, by@).1 == replaced(whole, prefix@, by@).1,
                hits == counted(found),
            decreases rest@.len(),
        {
            let ghost now = rest@;
            let ghost done = out@;
            match split_once(rest.as_str(), prefix) {
                Some((before, after)) => {
                    proof {
                        crate::text::first_cut_shortens(now, prefix@);
                    }
                    let v = chars_of(after.as_str());
                    let boundary = v.len() == 0 || !(is_alphanumeric(v[0]) || v[0] == '-' || v[0] == '_' || v[0] == '.');
                    if boundary {
                        out.append(before.as_str());
                        out.append(by);
                        hits = hits.saturating_add(1);
                        proof {
                            found = found + 1;
                        }
                        assert(out@ + replaced(after@, prefix@, by@).0 =~= done + replaced(now, prefix@, by@).0);
                        rest = after;
                    } else {
                        let all = chars_of(rest.as_str());
                        let begin: usize = chars_of(before.as_str()).len();
                        assert(begin < all.len());
                        let passed: usize = begin + 1;
                        let head = text_of(&all, 0, passed);
                        let tail = text_of(&all, passed, all.len());
                        assert(head@ =~= now.take(before@.len() as int + 1));
                        assert(tail@ =~= now.skip(before@.len() as int + 1));
                        out.append(head.as_str());
                        assert(out@ + replaced(tail@, prefix@, by@).0 =~= done + replaced(now, prefix@, by@).0);
                        rest = tail;
                    }
                },
                None => {
                    out.append(rest.as_str());
                    return (out, hits);
                },
            }
        }
    }

    fn pass(&self, text: String) -> (r: (String, usize))
        requires
            self.names_places(),
        ensures
            r.0@ == one_pass(text@, self.prefixes.deep_view()).0,
            r.1 == counted(one_pass(text@, self.prefixes.deep_view()).1),
    {
        let ghost all = self.prefixes.deep_view();
        let ghost start = text@;
        let mut out: String = text;
        let mut hits: usize = 0;
        let mut i: usize = 0;
        while i < self.prefixes.len()
            invariant
                i <= self.prefixes.len(),
                self.names_places(),
                all == self.prefixes.deep_view(),
                out@ == one_pass(start, all.take(i as int)).0,
                hits == counted(one_pass(start, all.take(i as int)).1),
            decreases self.prefixes.len() - i,
        {
            assert(all.take(i + 1).drop_last() == all.take(i as int));
            assert(all.take(i + 1).last() == self.prefixes@[i as int].deep_view());
            assert(all[i as int] == self.prefixes@[i as int].deep_view());
            let prefix = &self.prefixes[i];
            let (next, more) = UploadBoundary::replace(out, prefix.prefix.as_str(), prefix.names.placeholder());
            out = next;
            hits = hits.saturating_add(more);
            i += 1;
        }
        assert(all.take(all.len() as int) == all);
        (out, hits)
    }

    /// A text with every occurrence of a machine prefix that ends at a path
    /// boundary replaced, and how many there were. A prefix with more name
    /// characters behind it is another directory and stays.
    pub fn text(&self, text: &str) -> (r: (String, usize))
        requires
            self.names_places(),
        ensures
            r.0@ == all_replaced(text@, self.prefixes.deep_view()).0,
            r.1 == counted(all_replaced(text@, self.prefixes.deep_view()).1),
    {
        let ghost all = self.prefixes.deep_view();
        let ghost mut found: nat = 0;
        let mut out: String = text.to_owned();
        let mut hits: usize = 0;
        loop
            invariant
                self.names_places(),
                all == self.prefixes.deep_view(),
                all_replaced(out@, all).0 == all_replaced(text@, all).0,
                found + all_replaced(out@, all).1 == all_replaced(text@, all).1,
                hits == counted(found),
            decreases separators(out@),
        {
            let ghost now = out@;
            proof {
                a_pass_thins(now, all);
            }
            let (next, more) = self.pass(out);
            out = next;
            hits = hits.saturating_add(more);
            if more == 0 {
                return (out, hits);
            }
            proof {
                found = found + one_pass(now, all).1;
            }
        }
    }
}

proof fn placed_prefixes_are_places(sorted: Seq<MachinePrefixModel>, x: MachinePrefixModel)
    requires
        are_places(sorted),
        separators(x.prefix) > 0,
    ensures
        are_places(crate::sorting::placed(sorted, x)),
    decreases sorted.len(),
{
    if sorted.len() > 0 && x.precedes(sorted.last()) {
        assert forall|k: int| 0 <= k < sorted.drop_last().len() implies separators((#[trigger] sorted.drop_last()[k]).prefix) > 0 by {
            assert(sorted.drop_last()[k] == sorted[k]);
        }
        placed_prefixes_are_places(sorted.drop_last(), x);
    }
}

proof fn placeholders_hold_no_separator(names: MachinePlace)
    ensures
        separators(names.placeholder_text()) == 0,
{
    reveal_strlit("<checkout>");
    reveal_strlit("<home>");
    no_separators(names.placeholder_text());
}

proof fn no_separators(s: Seq<char>)
    requires
        forall|i: int| 0 <= i < s.len() ==> !separator()(#[trigger] s[i]),
    ensures
        separators(s) == 0,
    decreases s.len(),
{
    if s.len() > 0 {
        assert forall|i: int| 0 <= i < s.drop_last().len() implies !separator()(#[trigger] s.drop_last()[i]) by {
            assert(s.drop_last()[i] == s[i]);
        }
        no_separators(s.drop_last());
    }
}

proof fn replacing_thins(s: Seq<char>, prefix: Seq<char>, by: Seq<char>)
    requires
        separators(prefix) > 0,
        separators(by) == 0,
    ensures
        separators(replaced(s, prefix, by).0) + replaced(s, prefix, by).1 <= separators(s),
    decreases s.len(),
{
    first_cut_shortens(s, prefix);
    if let Some((before, after)) = first_cut(s, prefix) {
        if at_boundary(after) {
            let rest = replaced(after, prefix, by).0;
            replacing_thins(after, prefix, by);
            separators_add_up(before + prefix, after);
            separators_add_up(before, prefix);
            separators_add_up(before + by, rest);
            separators_add_up(before, by);
        } else {
            let m = before.len() + 1;
            let tail = s.skip(m as int);
            replacing_thins(tail, prefix, by);
            separators_add_up(s.take(m as int), tail);
            separators_add_up(s.take(m as int), replaced(tail, prefix, by).0);
            assert(s.take(m as int) + tail =~= s);
        }
    }
}

/// What a pass replaces takes separators away.
proof fn a_pass_thins(s: Seq<char>, prefixes: Seq<MachinePrefixModel>)
    requires
        are_places(prefixes),
    ensures
        separators(one_pass(s, prefixes).0) + one_pass(s, prefixes).1 <= separators(s),
    decreases prefixes.len(),
{
    if prefixes.len() > 0 {
        let init = prefixes.drop_last();
        assert forall|i: int| 0 <= i < init.len() implies separators((#[trigger] init[i]).prefix) > 0 by {
            assert(init[i] == prefixes[i]);
        }
        assert(prefixes[prefixes.len() - 1] == prefixes.last());
        a_pass_thins(s, init);
        placeholders_hold_no_separator(prefixes.last().names);
        replacing_thins(one_pass(s, init).0, prefixes.last().prefix, prefixes.last().names.placeholder_text());
    }
}


// ---------------------------------------------------------------------------
// Payloads
// ---------------------------------------------------------------------------

/// A text holds a prefix that ends at a path boundary.
pub open spec fn names_place(s: Seq<char>, prefix: Seq<char>) -> bool {
    exists|i: int| #[trigger] occurs_at(s, prefix, i) && at_boundary(s.skip(i + prefix.len()))
}

/// A text holds none of the prefixes at a path boundary.
pub open spec fn names_no_place(s: Seq<char>, prefixes: Seq<MachinePrefixModel>) -> bool {
    forall|i: int| 0 <= i < prefixes.len() ==> !names_place(s, (#[trigger] prefixes[i]).prefix)
}

/// A text is cut at the first of the places where a prefix occurs.
pub proof fn cut_at_the_first(s: Seq<char>, prefix: Seq<char>)
    requires
        prefix.len() > 0,
    ensures
        match first_cut(s, prefix) {
            Some((before, after)) => {
                &&& s == before + prefix + after
                &&& forall|k: int| #[trigger] occurs_at(s, prefix, k) ==> before.len() <= k
            },
            None => forall|k: int| !#[trigger] occurs_at(s, prefix, k),
        },
{
    first_cut_shortens(s, prefix);
    if first_cut(s, prefix) is Some {
        let i = first_occurrence(s, prefix);
        first_index_is(s, prefix, i);
        assert((first_cut(s, prefix)->0).0.len() == i);
        assert forall|k: int| #[trigger] occurs_at(s, prefix, k) implies i <= k by {
            if k < i {
                assert(!occurs_at(s, prefix, k));
            }
        }
    } else {
        assert forall|k: int| !#[trigger] occurs_at(s, prefix, k) by {
            if occurs_at(s, prefix, k) {
                assert(has_text(s, prefix));
            }
        }
    }
}

proof fn no_hit_no_place(s: Seq<char>, prefix: Seq<char>, by: Seq<char>)
    requires
        prefix.len() > 0,
        replaced(s, prefix, by).1 == 0,
    ensures
        replaced(s, prefix, by).0 == s,
        !names_place(s, prefix),
    decreases s.len(),
{
    cut_at_the_first(s, prefix);
    if let Some((before, after)) = first_cut(s, prefix) {
        let m = before.len() as int;
        let n = prefix.len() as int;
        let tail = s.skip(m + 1);
        assert(!at_boundary(after));
        no_hit_no_place(tail, prefix, by);
        assert(s.take(m + 1) + tail =~= s);
        if names_place(s, prefix) {
            let k = choose|k: int| #[trigger] occurs_at(s, prefix, k) && at_boundary(s.skip(k + n));
            if k == m {
                assert(s.skip(k + n) =~= after);
            } else {
                let l = k - m - 1;
                assert(tail.subrange(l, l + n) =~= s.subrange(k, k + n));
                assert(tail.skip(l + n) =~= s.skip(k + n));
                assert(occurs_at(tail, prefix, l));
            }
        }
    }
}

proof fn an_idle_pass(s: Seq<char>, prefixes: Seq<MachinePrefixModel>)
    requires
        are_places(prefixes),
        one_pass(s, prefixes).1 == 0,
    ensures
        one_pass(s, prefixes).0 == s,
        names_no_place(s, prefixes),
    decreases prefixes.len(),
{
    if prefixes.len() > 0 {
        let init = prefixes.drop_last();
        let last = prefixes.last();
        assert forall|i: int| 0 <= i < init.len() implies separators((#[trigger] init[i]).prefix) > 0 by {
            assert(init[i] == prefixes[i]);
        }
        assert(prefixes[prefixes.len() - 1] == last);
        an_idle_pass(s, init);
        no_hit_no_place(s, last.prefix, last.names.placeholder_text());
        assert forall|i: int| 0 <= i < prefixes.len() implies !names_place(s, (#[trigger] prefixes[i]).prefix) by {
            if i < init.len() {
                assert(init[i] == prefixes[i]);
            }
        }
    }
}

/// A text in which nothing was replaced is unchanged.
pub proof fn untouched_text_is_unchanged(s: Seq<char>, prefixes: Seq<MachinePrefixModel>)
    requires
        are_places(prefixes),
    ensures
        all_replaced(s, prefixes).1 == 0 ==> all_replaced(s, prefixes).0 == s,
{
    if all_replaced(s, prefixes).1 == 0 {
        an_idle_pass(s, prefixes);
    }
}

/// A text that has passed the boundary names no place of the machine any more.
pub proof fn no_place_is_left_in_a_text(s: Seq<char>, prefixes: Seq<MachinePrefixModel>)
    requires
        are_places(prefixes),
    ensures
        names_no_place(all_replaced(s, prefixes).0, prefixes),
    decreases separators(s),
{
    a_pass_thins(s, prefixes);
    if one_pass(s, prefixes).1 == 0 {
        an_idle_pass(s, prefixes);
    } else {
        no_place_is_left_in_a_text(one_pass(s, prefixes).0, prefixes);
    }
}

/// A JSON value with the machine prefixes replaced in every string and key.
pub open spec fn scrubbed(p: Seq<MachinePrefixModel>, j: JsonModel) -> JsonModel
    decreases j,
{
    match j {
        JsonModel::Text(s) => JsonModel::Text(all_replaced(s, p).0),
        JsonModel::List(items) => JsonModel::List(scrubbed_items(p, items)),
        JsonModel::Object(fields) => JsonModel::Object(scrubbed_fields(p, fields)),
        other => other,
    }
}

pub open spec fn scrubbed_items(p: Seq<MachinePrefixModel>, items: Seq<JsonModel>) -> Seq<JsonModel>
    decreases items,
{
    if items.len() == 0 {
        Seq::empty()
    } else {
        scrubbed_items(p, items.drop_last()).push(scrubbed(p, items[items.len() - 1]))
    }
}

pub open spec fn scrubbed_fields(p: Seq<MachinePrefixModel>, fields: Seq<(Seq<char>, JsonModel)>) -> Seq<(Seq<char>, JsonModel)>
    decreases fields,
{
    if fields.len() == 0 {
        Seq::empty()
    } else {
        with_field(
            scrubbed_fields(p, fields.drop_last()),
            all_replaced(fields[fields.len() - 1].0, p).0,
            scrubbed(p, fields[fields.len() - 1].1),
        )
    }
}

/// The path of a field below another.
pub open spec fn below(field: Seq<char>, key: Seq<char>) -> Seq<char> {
    if field.len() == 0 {
        key
    } else {
        field + "."@ + key
    }
}

/// The paths of the strings and keys in which something was replaced.
pub open spec fn touched(p: Seq<MachinePrefixModel>, j: JsonModel, field: Seq<char>) -> Seq<Seq<char>>
    decreases j,
{
    match j {
        JsonModel::Text(s) => if all_replaced(s, p).1 > 0 {
            seq![field]
        } else {
            Seq::empty()
        },
        JsonModel::List(items) => touched_items(p, items, field),
        JsonModel::Object(fields) => touched_fields(p, fields, field),
        _ => Seq::empty(),
    }
}

pub open spec fn touched_items(p: Seq<MachinePrefixModel>, items: Seq<JsonModel>, field: Seq<char>) -> Seq<Seq<char>>
    decreases items,
{
    if items.len() == 0 {
        Seq::empty()
    } else {
        touched_items(p, items.drop_last(), field) + touched(
            p,
            items[items.len() - 1],
            field + "["@ + decimal((items.len() - 1) as nat) + "]"@,
        )
    }
}

pub open spec fn touched_fields(p: Seq<MachinePrefixModel>, fields: Seq<(Seq<char>, JsonModel)>, field: Seq<char>) -> Seq<Seq<char>>
    decreases fields,
{
    if fields.len() == 0 {
        Seq::empty()
    } else {
        let (key, hits) = all_replaced(fields[fields.len() - 1].0, p);
        let child = below(field, key);
        touched_fields(p, fields.drop_last(), field) + (if hits > 0 {
            seq![child + " (key)"@]
        } else {
            Seq::empty()
        }) + touched(p, fields[fields.len() - 1].1, child)
    }
}

impl UploadBoundary {
    /// A JSON value with the machine prefixes replaced throughout; the path of
    /// each string that was rewritten is added to `fields`.
    pub fn value(&self, value: &Json, field: &str, fields: &mut Vec<String>) -> (r: Json)
        requires
            self.names_places(),
        ensures
            json_model(r) == scrubbed(self.prefixes.deep_view(), json_model(*value)),
            final(fields).deep_view() == old(fields).deep_view() + touched(
                self.prefixes.deep_view(),
                json_model(*value),
                field@,
            ),
        decreases *value,
    {
        let ghost p = self.prefixes.deep_view();
        let ghost start = fields.deep_view();
        match value {
            Json::Null => {
                assert(fields.deep_view() =~= start + touched(p, json_model(*value), field@));
                Json::Null
            },
            Json::Bool(b) => {
                assert(fields.deep_view() =~= start + touched(p, json_model(*value), field@));
                Json::Bool(*b)
            },
            Json::Number(n) => {
                assert(fields.deep_view() =~= start + touched(p, json_model(*value), field@));
                Json::Number(*n)
            },
            Json::Numeral(n) => {
                assert(fields.deep_view() =~= start + touched(p, json_model(*value), field@));
                Json::Numeral(n.clone())
            },
            Json::Text(s) => {
                let (text, hits) = self.text(s.as_str());
                if hits > 0 {
                    fields.push(field.to_owned());
                }
                assert(fields.deep_view() =~= start + touched(p, json_model(*value), field@));
                Json::Text(text)
            },
            Json::List(items) => {
                let mut done: Vec<Json> = Vec::new();
                let mut i: usize = 0;
                proof {
                    items_model_places(items@);
                    assert(items_model(items@).take(0) =~= Seq::<JsonModel>::empty());
                    assert(fields.deep_view() =~= start + touched_items(p, items_model(items@).take(0), field@));
                }
                while i < items.len()
                    invariant
                        i <= items.len(),
                        self.names_places(),
                        p == self.prefixes.deep_view(),
                        *value == Json::List(*items),
                        items_model(items@).len() == items@.len(),
                        forall|k: int| 0 <= k < items@.len() ==> #[trigger] items_model(items@)[k] == json_model(items@[k]),
                        items_model(done@) == scrubbed_items(p, items_model(items@).take(i as int)),
                        fields.deep_view() == start + touched_items(p, items_model(items@).take(i as int), field@),
                    decreases items.len() - i,
                {
                    let ghost all = items_model(items@);
                    let mut place = concat3(field, "[", print_number(i as u64).as_str());
                    place.append("]");
                    let ghost before = fields.deep_view();
                    assert(decreases_to!(*value => value->List_0));
                    assert(decreases_to!(*value => items@[i as int]));
                    let item = self.value(&items[i], place.as_str(), fields);
                    push_item(&mut done, item);
                    proof {
                        assert(all.take(i + 1).drop_last() =~= all.take(i as int));
                        assert(all.take(i + 1)[i as int] == all[i as int]);
                        assert(fields.deep_view() =~= start + touched_items(p, all.take(i + 1), field@));
                    }
                    i += 1;
                }
                assert(items_model(items@).take(items@.len() as int) =~= items_model(items@));
                Json::List(done)
            },
            Json::Object(entries) => {
                let mut done: Vec<(String, Json)> = Vec::new();
                let mut i: usize = 0;
                proof {
                    fields_model_places(entries@);
                    assert(fields_model(entries@).take(0) =~= Seq::<(Seq<char>, JsonModel)>::empty());
                    assert(fields.deep_view() =~= start + touched_fields(p, fields_model(entries@).take(0), field@));
                }
                while i < entries.len()
                    invariant
                        i <= entries.len(),
                        self.names_places(),
                        p == self.prefixes.deep_view(),
                        *value == Json::Object(*entries),
                        fields_model(entries@).len() == entries@.len(),
                        forall|k: int|
                            0 <= k < entries@.len() ==> #[trigger] fields_model(entries@)[k] == (
                                entries@[k].0@,
                                json_model(entries@[k].1),
                            ),
                        fields_model(done@) == scrubbed_fields(p, fields_model(entries@).take(i as int)),
                        fields.deep_view() == start + touched_fields(p, fields_model(entries@).take(i as int), field@),
                    decreases entries.len() - i,
                {
                    let ghost all = fields_model(entries@);
                    let ghost before = fields.deep_view();
                    let (key, hits) = self.text(entries[i].0.as_str());
                    let child = if field.is_empty() {
                        key.clone()
                    } else {
                        concat3(field, ".", key.as_str())
                    };
                    assert(child@ == below(field@, key@));
                    if hits > 0 {
                        fields.push(concat(child.as_str(), " (key)"));
                        assert(fields.deep_view() =~= before.push(child@ + " (key)"@));
                    }
                    let ghost keyed = fields.deep_view();
                    assert(decreases_to!(*value => value->Object_0));
                    assert(decreases_to!(*value => entries@[i as int].1));
                    let item = self.value(&entries[i].1, child.as_str(), fields);
                    set_field(&mut done, key, item);
                    proof {
                        assert(all.take(i + 1).drop_last() =~= all.take(i as int));
                        assert(all.take(i + 1)[i as int] == all[i as int]);
                        let (new_key, new_hits) = all_replaced(all[i as int].0, p);
                        assert(key@ == new_key);
                        assert(fields.deep_view() =~= keyed + touched(p, all[i as int].1, child@));
                        assert(fields.deep_view() =~= start + touched_fields(p, all.take(i + 1), field@));
                    }
                    i += 1;
                }
                assert(fields_model(entries@).take(entries@.len() as int) =~= fields_model(entries@));
                Json::Object(done)
            },
        }
    }

    /// The payload to upload in place of the given one, with the paths of what
    /// was replaced, or nothing when there was nothing to replace.
    pub fn scrub(&self, payload: &Json) -> (r: Option<(Json, Vec<String>)>)
        requires
            self.names_places(),
        ensures
            match r {
                Some((json, fields)) => {
                    &&& json_model(json) == scrubbed(self.prefixes.deep_view(), json_model(*payload))
                    &&& fields.deep_view() == touched(self.prefixes.deep_view(), json_model(*payload), Seq::empty())
                    &&& fields@.len() > 0
                },
                None => self.prefixes@.len() == 0 || touched(
                    self.prefixes.deep_view(),
                    json_model(*payload),
                    Seq::empty(),
                ).len() == 0,
            },
    {
        if self.prefixes.len() == 0 {
            return None;
        }
        let mut fields: Vec<String> = Vec::new();
        proof {
            reveal_strlit("");
            assert(""@ =~= Seq::<char>::empty());
        }
        let json = self.value(payload, "", &mut fields);
        assert(fields.deep_view() =~= touched(self.prefixes.deep_view(), json_model(*payload), Seq::empty()));
        if fields.len() == 0 {
            return None;
        }
        Some((json, fields))
    }
}

// ---------------------------------------------------------------------------
// What is left
// ---------------------------------------------------------------------------

/// No string and no key of a payload names a place of the machine.
pub open spec fn payload_names_no_place(p: Seq<MachinePrefixModel>, j: JsonModel) -> bool
    decreases j,
{
    match j {
        JsonModel::Text(s) => names_no_place(s, p),
        JsonModel::List(items) => items_name_no_place(p, items),
        JsonModel::Object(fields) => fields_name_no_place(p, fields),
        _ => true,
    }
}

pub open spec fn items_name_no_place(p: Seq<MachinePrefixModel>, items: Seq<JsonModel>) -> bool
    decreases items,
{
    items.len() == 0 || items_name_no_place(p, items.drop_last()) && payload_names_no_place(p, items[items.len() - 1])
}

pub open spec fn fields_name_no_place(p: Seq<MachinePrefixModel>, fields: Seq<(Seq<char>, JsonModel)>) -> bool
    decreases fields,
{
    fields.len() == 0 || fields_name_no_place(p, fields.drop_last()) && names_no_place(fields[fields.len() - 1].0, p)
        && payload_names_no_place(p, fields[fields.len() - 1].1)
}

proof fn a_field_more(p: Seq<MachinePrefixModel>, fields: Seq<(Seq<char>, JsonModel)>, key: Seq<char>, value: JsonModel)
    requires
        fields_name_no_place(p, fields),
        names_no_place(key, p),
        payload_names_no_place(p, value),
    ensures
        fields_name_no_place(p, with_field(fields, key, value)),
    decreases fields.len(),
{
    let out = with_field(fields, key, value);
    if fields.len() == 0 {
        assert(out.drop_last() =~= fields);
        assert(out[out.len() - 1] == (key, value));
    } else if fields.last().0 == key {
        assert(out.drop_last() =~= fields.drop_last());
        assert(out[out.len() - 1] == (key, value));
    } else {
        let rest = with_field(fields.drop_last(), key, value);
        a_field_more(p, fields.drop_last(), key, value);
        if rest.len() < fields.len() {
            assert(out.drop_last() =~= rest);
            assert(out[out.len() - 1] == fields[fields.len() - 1]);
        } else {
            assert(out.drop_last() =~= fields);
            assert(out[out.len() - 1] == (key, value));
        }
    }
}

/// A payload that has passed the boundary names no place of the machine any more.
pub proof fn no_place_is_left(p: Seq<MachinePrefixModel>, j: JsonModel)
    requires
        are_places(p),
    ensures
        payload_names_no_place(p, scrubbed(p, j)),
    decreases j,
{
    match j {
        JsonModel::Text(s) => no_place_is_left_in_a_text(s, p),
        JsonModel::List(items) => no_place_is_left_in_items(p, items),
        JsonModel::Object(fields) => no_place_is_left_in_fields(p, fields),
        _ => {},
    }
}

proof fn no_place_is_left_in_items(p: Seq<MachinePrefixModel>, items: Seq<JsonModel>)
    requires
        are_places(p),
    ensures
        items_name_no_place(p, scrubbed_items(p, items)),
    decreases items,
{
    if items.len() > 0 {
        no_place_is_left_in_items(p, items.drop_last());
        no_place_is_left(p, items[items.len() - 1]);
        assert(scrubbed_items(p, items).drop_last() =~= scrubbed_items(p, items.drop_last()));
    }
}

proof fn no_place_is_left_in_fields(p: Seq<MachinePrefixModel>, fields: Seq<(Seq<char>, JsonModel)>)
    requires
        are_places(p),
    ensures
        fields_name_no_place(p, scrubbed_fields(p, fields)),
    decreases fields,
{
    if fields.len() > 0 {
        let last = fields[fields.len() - 1];
        no_place_is_left_in_fields(p, fields.drop_last());
        no_place_is_left(p, last.1);
        no_place_is_left_in_a_text(last.0, p);
        a_field_more(p, scrubbed_fields(p, fields.drop_last()), all_replaced(last.0, p).0, scrubbed(p, last.1));
    }
}

} // verus!
