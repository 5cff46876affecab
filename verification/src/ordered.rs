//! Maps and sets keyed by text, kept in the order of their keys.

use crate::duplicate::Duplicate;
use crate::text::{
    ascending_is_unique, less, same, text_less, text_less_asymmetric, text_less_total, text_less_transitive, texts_ascend,
};
use vstd::prelude::*;

verus! {

/// A map from texts to values. Its entries are listed in the order of the keys.
#[derive(Debug, PartialEq, Eq)]
pub struct TextMap<V> {
    entries: Vec<(String, V)>,
}

/// The keys of a listing ascend, so none occurs twice.
pub open spec fn keys_ascend<V>(entries: Seq<(String, V)>) -> bool {
    forall|i: int, j: int|
        0 <= i < j < entries.len() ==> text_less(#[trigger] entries[i].0@, #[trigger] entries[j].0@)
}

/// The listing holds an entry with this key.
pub open spec fn lists_key<V>(entries: Seq<(String, V)>, k: Seq<char>) -> bool {
    exists|i: int| 0 <= i < entries.len() && #[trigger] entries[i].0@ == k
}

/// A position at which the listing holds a key that it has.
pub open spec fn place_of<V>(entries: Seq<(String, V)>, k: Seq<char>) -> int {
    choose|i: int| 0 <= i < entries.len() && #[trigger] entries[i].0@ == k
}

/// The map that a listing describes.
pub open spec fn map_of<V>(entries: Seq<(String, V)>) -> Map<Seq<char>, V> {
    Map::new(
        |k: Seq<char>| lists_key(entries, k),
        |k: Seq<char>| entries[place_of(entries, k)].1,
    )
}

proof fn key_names_one_entry<V>(entries: Seq<(String, V)>, i: int)
    requires
        keys_ascend(entries),
        0 <= i < entries.len(),
    ensures
        map_of(entries).contains_key(entries[i].0@),
        map_of(entries)[entries[i].0@] == entries[i].1,
{
    let k = entries[i].0@;
    assert(lists_key(entries, k));
    let c = place_of(entries, k);
    assert(0 <= c < entries.len() && entries[c].0@ == k);
    if c < i {
        text_less_asymmetric(entries[c].0@, entries[i].0@);
    } else if i < c {
        text_less_asymmetric(entries[i].0@, entries[c].0@);
    }
}

pub open spec fn keys_of<V>(entries: Seq<(String, V)>) -> Seq<Seq<char>> {
    entries.map_values(|e: (String, V)| e.0@)
}

/// A map has one listing: what it holds fixes the keys and their order.
pub proof fn listing_is_determined<V>(a: Seq<(String, V)>, b: Seq<(String, V)>)
    requires
        keys_ascend(a),
        keys_ascend(b),
        map_of(a) == map_of(b),
    ensures
        a.len() == b.len(),
        forall|i: int| 0 <= i < a.len() ==> (#[trigger] a[i]).0@ == b[i].0@ && a[i].1 == b[i].1,
{
    let p = keys_of(a);
    let q = keys_of(b);
    assert(texts_ascend(p)) by {
        assert forall|i: int, j: int| 0 <= i < j < p.len() implies text_less(#[trigger] p[i], #[trigger] p[j]) by {
            assert(text_less(a[i].0@, a[j].0@));
        }
    }
    assert(texts_ascend(q)) by {
        assert forall|i: int, j: int| 0 <= i < j < q.len() implies text_less(#[trigger] q[i], #[trigger] q[j]) by {
            assert(text_less(b[i].0@, b[j].0@));
        }
    }
    assert forall|x: Seq<char>| p.contains(x) <==> q.contains(x) by {
        if p.contains(x) {
            let i = choose|i: int| 0 <= i < p.len() && p[i] == x;
            key_names_one_entry(a, i);
            assert(map_of(b).contains_key(x));
            let j = place_of(b, x);
            assert(q[j] == x);
        }
        if q.contains(x) {
            let i = choose|i: int| 0 <= i < q.len() && q[i] == x;
            key_names_one_entry(b, i);
            assert(map_of(a).contains_key(x));
            let j = place_of(a, x);
            assert(p[j] == x);
        }
    }
    ascending_is_unique(p, q);
    assert(p.len() == a.len() && q.len() == b.len());
    assert forall|i: int| 0 <= i < a.len() implies (#[trigger] a[i]).0@ == b[i].0@ && a[i].1 == b[i].1 by {
        assert(p[i] == q[i]);
        key_names_one_entry(a, i);
        key_names_one_entry(b, i);
    }
}

impl<V> View for TextMap<V> {
    type V = Map<Seq<char>, V>;

    closed spec fn view(&self) -> Map<Seq<char>, V> {
        map_of(self.entries@)
    }
}

impl<V: DeepView> DeepView for TextMap<V> {
    type V = Map<Seq<char>, V::V>;

    open spec fn deep_view(&self) -> Map<Seq<char>, V::V> {
        self@.map_values(|v: V| v.deep_view())
    }
}

impl<V> TextMap<V> {
    #[verifier::type_invariant]
    spec fn in_order(self) -> bool {
        keys_ascend(self.entries@)
    }

    /// The entries in the order of their keys.
    pub closed spec fn listing(&self) -> Seq<(String, V)> {
        self.entries@
    }

    pub fn new() -> (r: Self)
        ensures
            r@ == Map::<Seq<char>, V>::empty(),
            r.listing().len() == 0,
    {
        let r = TextMap { entries: Vec::new() };
        assert(r@ =~= Map::<Seq<char>, V>::empty());
        r
    }

    /// The listing is in key order and describes the map.
    pub fn len(&self) -> (n: usize)
        ensures
            n == self.listing().len(),
            keys_ascend(self.listing()),
            self@ == map_of(self.listing()),
    {
        proof {
            use_type_invariant(&*self);
        }
        self.entries.len()
    }

    pub fn is_empty(&self) -> (b: bool)
        ensures
            b == (self@ == Map::<Seq<char>, V>::empty()),
    {
        if self.entries.len() == 0 {
            assert(self@ =~= Map::<Seq<char>, V>::empty());
            true
        } else {
            assert(self@.contains_key(self.entries@[0].0@));
            false
        }
    }

    /// The entry at a position of the listing.
    pub fn entry(&self, i: usize) -> (r: (&String, &V))
        requires
            i < self.listing().len(),
        ensures
            *r.0 == self.listing()[i as int].0,
            *r.1 == self.listing()[i as int].1,
            self@.contains_key(r.0@),
            self@[r.0@] == *r.1,
            keys_ascend(self.listing()),
            self@ == map_of(self.listing()),
    {
        proof {
            use_type_invariant(&*self);
            key_names_one_entry(self.entries@, i as int);
        }
        (&self.entries[i].0, &self.entries[i].1)
    }

    /// The position of a key, or the position at which it would stand.
    fn place(&self, k: &str) -> (r: (usize, bool))
        ensures
            r.0 <= self.entries@.len(),
            r.1 ==> r.0 < self.entries@.len() && self.entries@[r.0 as int].0@ == k@,
            forall|j: int| 0 <= j < r.0 ==> text_less(#[trigger] self.entries@[j].0@, k@),
            !r.1 ==> forall|j: int| r.0 <= j < self.entries@.len() ==> text_less(k@, #[trigger] self.entries@[j].0@),
    {
        proof {
            use_type_invariant(&*self);
        }
        let mut i: usize = 0;
        while i < self.entries.len() && less(self.entries[i].0.as_str(), k)
            invariant
                i <= self.entries.len(),
                forall|j: int| 0 <= j < i ==> text_less(#[trigger] self.entries@[j].0@, k@),
            decreases self.entries.len() - i,
        {
            i += 1;
        }
        if i < self.entries.len() && same(self.entries[i].0.as_str(), k) {
            (i, true)
        } else {
            proof {
                if i < self.entries.len() {
                    text_less_total(self.entries@[i as int].0@, k@);
                }
                assert forall|j: int| i <= j < self.entries@.len() implies text_less(k@, #[trigger] self.entries@[j].0@) by {
                    if i < j {
                        assert(text_less(self.entries@[i as int].0@, self.entries@[j].0@));
                        text_less_transitive(k@, self.entries@[i as int].0@, self.entries@[j].0@);
                    }
                }
            }
            (i, false)
        }
    }

    pub fn get(&self, k: &str) -> (r: Option<&V>)
        ensures
            match r {
                Some(v) => self@.contains_key(k@) && *v == self@[k@],
                None => !self@.contains_key(k@),
            },
    {
        let (i, found) = self.place(k);
        proof {
            use_type_invariant(&*self);
        }
        if found {
            proof {
                key_names_one_entry(self.entries@, i as int);
            }
            Some(&self.entries[i].1)
        } else {
            proof {
                absent_at(self.entries@, k@, i as int);
            }
            None
        }
    }

    pub fn contains_key(&self, k: &str) -> (b: bool)
        ensures
            b == self@.contains_key(k@),
    {
        self.get(k).is_some()
    }

    /// Sets the value of a key, whether or not it had one.
    pub fn insert(&mut self, k: String, v: V)
        ensures
            final(self)@ == old(self)@.insert(k@, v),
    {
        let (i, found) = self.place(k.as_str());
        proof {
            use_type_invariant(&*self);
        }
        let mut entries: Vec<(String, V)> = Vec::new();
        std::mem::swap(&mut entries, &mut self.entries);
        let ghost before = entries@;
        let ghost pair = (k, v);
        if found {
            entries.set(i, (k, v));
            proof {
                assert forall|a: int, b: int| 0 <= a < b < entries@.len() implies text_less(
                    #[trigger] entries@[a].0@,
                    #[trigger] entries@[b].0@,
                ) by {
                    assert(entries@[a].0@ == before[a].0@);
                    assert(entries@[b].0@ == before[b].0@);
                }
                set_inserts(before, i as int, pair);
            }
        } else {
            proof {
                insert_keeps_order(before, i as int, pair);
                insert_inserts(before, i as int, pair);
            }
            entries.insert(i, (k, v));
        }
        self.entries = entries;
    }
}

proof fn absent_at<V>(entries: Seq<(String, V)>, k: Seq<char>, i: int)
    requires
        0 <= i <= entries.len(),
        forall|j: int| 0 <= j < i ==> text_less(#[trigger] entries[j].0@, k),
        forall|j: int| i <= j < entries.len() ==> text_less(k, #[trigger] entries[j].0@),
    ensures
        !lists_key(entries, k),
{
    assert forall|j: int| 0 <= j < entries.len() implies #[trigger] entries[j].0@ != k by {
        text_less_asymmetric(entries[j].0@, k);
        text_less_asymmetric(k, entries[j].0@);
    }
}

proof fn insert_keeps_order<V>(entries: Seq<(String, V)>, i: int, pair: (String, V))
    requires
        keys_ascend(entries),
        0 <= i <= entries.len(),
        forall|j: int| 0 <= j < i ==> text_less(#[trigger] entries[j].0@, pair.0@),
        forall|j: int| i <= j < entries.len() ==> text_less(pair.0@, #[trigger] entries[j].0@),
    ensures
        keys_ascend(entries.insert(i, pair)),
{
    let grown = entries.insert(i, pair);
    assert forall|a: int, b: int| 0 <= a < b < grown.len() implies text_less(#[trigger] grown[a].0@, #[trigger] grown[b].0@) by {
        let oa = if a < i { a } else { a - 1 };
        let ob = if b < i { b } else { b - 1 };
        if a != i {
            assert(grown[a] == entries[oa]);
        }
        if b != i {
            assert(grown[b] == entries[ob]);
        }
    }
}

proof fn insert_inserts<V>(entries: Seq<(String, V)>, i: int, pair: (String, V))
    requires
        keys_ascend(entries),
        0 <= i <= entries.len(),
        forall|j: int| 0 <= j < i ==> text_less(#[trigger] entries[j].0@, pair.0@),
        forall|j: int| i <= j < entries.len() ==> text_less(pair.0@, #[trigger] entries[j].0@),
    ensures
        map_of(entries.insert(i, pair)) == map_of(entries).insert(pair.0@, pair.1),
{
    let grown = entries.insert(i, pair);
    insert_keeps_order(entries, i, pair);
    assert(grown[i] == pair);
    key_names_one_entry(grown, i);
    assert forall|k: Seq<char>| k != pair.0@ implies #[trigger] map_of(grown).contains_key(k) == map_of(entries).contains_key(k)
        && (map_of(entries).contains_key(k) ==> map_of(grown)[k] == map_of(entries)[k]) by {
        if lists_key(grown, k) {
            let c = choose|c: int| 0 <= c < grown.len() && #[trigger] grown[c].0@ == k;
            let oc = if c < i { c } else { c - 1 };
            assert(grown[c] == entries[oc]);
            key_names_one_entry(grown, c);
            key_names_one_entry(entries, oc);
        }
        if lists_key(entries, k) {
            let c = choose|c: int| 0 <= c < entries.len() && #[trigger] entries[c].0@ == k;
            let nc = if c < i { c } else { c + 1 };
            assert(grown[nc] == entries[c]);
            key_names_one_entry(grown, nc);
        }
    }
    assert(map_of(grown) =~= map_of(entries).insert(pair.0@, pair.1));
}

proof fn set_inserts<V>(entries: Seq<(String, V)>, i: int, pair: (String, V))
    requires
        keys_ascend(entries),
        0 <= i < entries.len(),
        entries[i].0@ == pair.0@,
    ensures
        map_of(entries.update(i, pair)) == map_of(entries).insert(pair.0@, pair.1),
{
    let changed = entries.update(i, pair);
    assert forall|a: int, b: int| 0 <= a < b < changed.len() implies text_less(#[trigger] changed[a].0@, #[trigger] changed[b].0@) by {
        assert(changed[a].0@ == entries[a].0@);
        assert(changed[b].0@ == entries[b].0@);
    }
    key_names_one_entry(changed, i);
    assert forall|k: Seq<char>| k != pair.0@ implies #[trigger] map_of(changed).contains_key(k) == map_of(entries).contains_key(k)
        && (map_of(entries).contains_key(k) ==> map_of(changed)[k] == map_of(entries)[k]) by {
        if lists_key(changed, k) {
            let c = choose|c: int| 0 <= c < changed.len() && #[trigger] changed[c].0@ == k;
            assert(changed[c] == entries[c]);
            key_names_one_entry(changed, c);
            key_names_one_entry(entries, c);
        }
        if lists_key(entries, k) {
            let c = choose|c: int| 0 <= c < entries.len() && #[trigger] entries[c].0@ == k;
            assert(changed[c] == entries[c]);
        }
    }
    assert(map_of(changed) =~= map_of(entries).insert(pair.0@, pair.1));
}

proof fn same_listing_same_map<V: DeepView>(a: Seq<(String, V)>, b: Seq<(String, V)>)
    requires
        keys_ascend(a),
        keys_ascend(b),
        a.len() == b.len(),
        forall|i: int| 0 <= i < a.len() ==> (#[trigger] a[i]).0@ == b[i].0@ && a[i].1.deep_view() == b[i].1.deep_view(),
    ensures
        map_of(a).map_values(|v: V| v.deep_view()) == map_of(b).map_values(|v: V| v.deep_view()),
{
    let x = map_of(a).map_values(|v: V| v.deep_view());
    let y = map_of(b).map_values(|v: V| v.deep_view());
    assert forall|k: Seq<char>| #[trigger] x.contains_key(k) == y.contains_key(k) && (x.contains_key(k) ==> x[k] == y[k]) by {
        if lists_key(a, k) {
            let i = choose|i: int| 0 <= i < a.len() && #[trigger] a[i].0@ == k;
            assert(b[i].0@ == k);
            key_names_one_entry(a, i);
            key_names_one_entry(b, i);
        }
        if lists_key(b, k) {
            let i = choose|i: int| 0 <= i < b.len() && #[trigger] b[i].0@ == k;
            assert(a[i].0@ == k);
        }
    }
    assert(x =~= y);
}

impl<V: Clone> Clone for TextMap<V> {
    fn clone(&self) -> (r: Self) {
        proof {
            use_type_invariant(&*self);
        }
        let mut entries: Vec<(String, V)> = Vec::new();
        let mut i: usize = 0;
        while i < self.entries.len()
            invariant
                i <= self.entries.len(),
                entries@.len() == i,
                forall|j: int| 0 <= j < i ==> (#[trigger] entries@[j]).0@ == self.entries@[j].0@,
            decreases self.entries.len() - i,
        {
            entries.push((self.entries[i].0.clone(), self.entries[i].1.clone()));
            i += 1;
        }
        proof {
            assert forall|a: int, b: int| 0 <= a < b < entries@.len() implies text_less(
                #[trigger] entries@[a].0@,
                #[trigger] entries@[b].0@,
            ) by {
                assert(text_less(self.entries@[a].0@, self.entries@[b].0@));
            }
        }
        TextMap { entries }
    }
}

impl<V: Duplicate> Duplicate for TextMap<V> {
    fn duplicate(&self) -> (r: Self) {
        proof {
            use_type_invariant(&*self);
        }
        let mut entries: Vec<(String, V)> = Vec::new();
        let mut i: usize = 0;
        while i < self.entries.len()
            invariant
                i <= self.entries.len(),
                entries@.len() == i,
                forall|j: int|
                    0 <= j < i ==> (#[trigger] entries@[j]).0@ == self.entries@[j].0@ && entries@[j].1.deep_view()
                        == self.entries@[j].1.deep_view(),
            decreases self.entries.len() - i,
        {
            entries.push((self.entries[i].0.clone(), self.entries[i].1.duplicate()));
            i += 1;
        }
        proof {
            assert forall|a: int, b: int| 0 <= a < b < entries@.len() implies text_less(
                #[trigger] entries@[a].0@,
                #[trigger] entries@[b].0@,
            ) by {
                assert(text_less(self.entries@[a].0@, self.entries@[b].0@));
            }
            same_listing_same_map(entries@, self.entries@);
        }
        TextMap { entries }
    }
}

/// A set of texts. Its items are listed in order.
#[derive(Debug, Clone, PartialEq, Eq)]
pub struct TextSet {
    items: TextMap<()>,
}

impl View for TextSet {
    type V = Set<Seq<char>>;

    closed spec fn view(&self) -> Set<Seq<char>> {
        self.items@.dom()
    }
}

impl TextSet {
    pub fn new() -> (r: Self)
        ensures
            r@ == Set::<Seq<char>>::empty(),
    {
        let r = TextSet { items: TextMap::new() };
        assert(r@ =~= Set::<Seq<char>>::empty());
        r
    }

    pub fn contains(&self, s: &str) -> (b: bool)
        ensures
            b == self@.contains(s@),
    {
        self.items.contains_key(s)
    }

    /// Adds a text, and says whether it was new.
    pub fn insert(&mut self, s: String) -> (added: bool)
        ensures
            added == !old(self)@.contains(s@),
            final(self)@ == old(self)@.insert(s@),
    {
        let added = !self.items.contains_key(s.as_str());
        self.items.insert(s, ());
        assert(self@ =~= old(self)@.insert(s@));
        added
    }

    /// How many texts the set holds; they stand at the positions below.
    pub closed spec fn count(&self) -> nat {
        self.items.listing().len()
    }

    /// The text at a position, counted in order.
    pub closed spec fn at(&self, i: int) -> Seq<char> {
        self.items.listing()[i].0@
    }

    pub fn len(&self) -> (n: usize)
        ensures
            n == self.count(),
            forall|s: Seq<char>| self@.contains(s) <==> exists|i: int| 0 <= i < n && #[trigger] self.at(i) == s,
    {
        let n = self.items.len();
        proof {
            let listing = self.items.listing();
            assert forall|s: Seq<char>| self@.contains(s) <==> exists|i: int| 0 <= i < n && #[trigger] self.at(i) == s by {
                if lists_key(listing, s) {
                    let i = choose|i: int| 0 <= i < listing.len() && #[trigger] listing[i].0@ == s;
                    assert(self.at(i) == s);
                }
                if exists|i: int| 0 <= i < n && #[trigger] self.at(i) == s {
                    let i = choose|i: int| 0 <= i < n && #[trigger] self.at(i) == s;
                    assert(listing[i].0@ == s);
                }
            }
        }
        n
    }

    pub fn item(&self, i: usize) -> (r: &String)
        requires
            i < self.count(),
        ensures
            r@ == self.at(i as int),
            self@.contains(r@),
    {
        self.items.entry(i).0
    }

    pub fn is_empty(&self) -> (b: bool)
        ensures
            b == (self@ == Set::<Seq<char>>::empty()),
    {
        let b = self.items.is_empty();
        proof {
            if b {
                assert(self@ =~= Set::<Seq<char>>::empty());
            } else if self@ == Set::<Seq<char>>::empty() {
                assert(self.items@ =~= Map::<Seq<char>, ()>::empty());
            }
        }
        b
    }
}

// ---------------------------------------------------------------------------
// Maps from texts to texts
// ---------------------------------------------------------------------------

/// The text that a key has.
pub fn text_at<'a>(map: &'a TextMap<String>, k: &str) -> (r: Option<&'a String>)
    ensures
        match r {
            Some(v) => map.deep_view().contains_key(k@) && v@ == map.deep_view()[k@],
            None => !map.deep_view().contains_key(k@),
        },
{
    map.get(k)
}

/// Sets the text of a key.
pub fn set_text(map: &mut TextMap<String>, k: String, v: String)
    ensures
        final(map).deep_view() == old(map).deep_view().insert(k@, v@),
{
    let ghost before = map.deep_view();
    map.insert(k, v);
    assert(map.deep_view() =~= before.insert(k@, v@));
}

pub fn no_texts() -> (r: TextMap<String>)
    ensures
        r.deep_view() == Map::<Seq<char>, Seq<char>>::empty(),
{
    let r: TextMap<String> = TextMap::new();
    assert(r.deep_view() =~= Map::<Seq<char>, Seq<char>>::empty());
    r
}

/// What the first entries of a listing describe.
pub open spec fn texts_of(entries: Seq<(String, String)>) -> Map<Seq<char>, Seq<char>> {
    map_of(entries).map_values(|v: String| v.deep_view())
}

/// A listing with one more entry describes the map with one more key.
pub proof fn map_of_next<V>(entries: Seq<(String, V)>, i: int)
    requires
        keys_ascend(entries),
        0 <= i < entries.len(),
    ensures
        map_of(entries.take(i + 1)) == map_of(entries.take(i)).insert(entries[i].0@, entries[i].1),
        !map_of(entries.take(i)).contains_key(entries[i].0@),
{
    let shorter = entries.take(i);
    let longer = entries.take(i + 1);
    let k = entries[i].0@;
    assert(keys_ascend(shorter));
    assert(keys_ascend(longer));
    if lists_key(shorter, k) {
        let j = place_of(shorter, k);
        assert(shorter[j].0@ == k);
        assert(text_less(entries[j].0@, entries[i].0@));
        text_less_asymmetric(entries[j].0@, entries[i].0@);
    }
    assert(longer[i] == entries[i]);
    key_names_one_entry(longer, i);
    assert forall|x: Seq<char>| #[trigger] lists_key(longer, x) == (lists_key(shorter, x) || x == k) by {
        if lists_key(longer, x) {
            let j = place_of(longer, x);
            if j < i {
                assert(shorter[j].0@ == x);
            }
        }
        if lists_key(shorter, x) {
            let j = place_of(shorter, x);
            assert(longer[j].0@ == x);
        }
        if x == k {
            assert(longer[i].0@ == x);
        }
    }
    assert forall|x: Seq<char>| lists_key(shorter, x) implies map_of(longer)[x] == map_of(shorter)[x] by {
        let j = place_of(shorter, x);
        assert(shorter[j] == longer[j]);
        key_names_one_entry(shorter, j);
        key_names_one_entry(longer, j);
    }
    assert(map_of(longer) =~= map_of(shorter).insert(k, entries[i].1));
}

/// The same of a listing of texts.
pub proof fn texts_of_next(entries: Seq<(String, String)>, i: int)
    requires
        keys_ascend(entries),
        0 <= i < entries.len(),
    ensures
        texts_of(entries.take(i + 1)) == texts_of(entries.take(i)).insert(entries[i].0@, entries[i].1@),
        !texts_of(entries.take(i)).contains_key(entries[i].0@),
{
    map_of_next(entries, i);
    assert(texts_of(entries.take(i + 1)) =~= texts_of(entries.take(i)).insert(entries[i].0@, entries[i].1@));
}

} // verus!
