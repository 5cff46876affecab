//! Tables of slots.

use crate::duplicate::Duplicate;
use crate::external_call_candidates::facts::{same_binding, BindingId};
use crate::external_call_candidates::ownership::{join_values, same_value, values_joined, SlotValue, ValueModel};
use crate::text::same;
use vstd::prelude::*;

verus! {

/// What a slot is found by.
pub trait SlotKey: DeepView + Sized {
    fn same_key(&self, other: &Self) -> (r: bool)
        ensures
            r == (self.deep_view() == other.deep_view()),
    ;

    fn copy_key(&self) -> (r: Self)
        ensures
            r.deep_view() == self.deep_view(),
    ;
}

impl SlotKey for BindingId {
    fn same_key(&self, other: &Self) -> (r: bool) {
        same_binding(self, other)
    }

    fn copy_key(&self) -> (r: Self) {
        self.duplicate()
    }
}

impl SlotKey for String {
    fn same_key(&self, other: &Self) -> (r: bool) {
        same(self.as_str(), other.as_str())
    }

    fn copy_key(&self) -> (r: Self) {
        self.clone()
    }
}

impl SlotKey for usize {
    fn same_key(&self, other: &Self) -> (r: bool) {
        *self == *other
    }

    fn copy_key(&self) -> (r: Self) {
        *self
    }
}

/// A static member of a class of the file.
#[derive(Debug, Clone, PartialEq, Eq)]
pub struct StaticName {
    pub class: usize,
    pub name: String,
}

/// What a [`StaticName`] holds.
pub struct StaticNameModel {
    pub class: usize,
    pub name: Seq<char>,
}

impl DeepView for StaticName {
    type V = StaticNameModel;

    open spec fn deep_view(&self) -> StaticNameModel {
        StaticNameModel { class: self.class, name: self.name@ }
    }
}

impl SlotKey for StaticName {
    fn same_key(&self, other: &Self) -> (r: bool) {
        self.class == other.class && same(self.name.as_str(), other.name.as_str())
    }

    fn copy_key(&self) -> (r: Self) {
        StaticName { class: self.class, name: self.name.clone() }
    }
}

/// A table of slots. Each key has at most one.
pub struct Slots<K: SlotKey> {
    entries: Vec<(K, SlotValue)>,
}

pub open spec fn holds_slot<K: SlotKey>(entries: Seq<(K, SlotValue)>, key: K::V) -> bool {
    exists|i: int| 0 <= i < entries.len() && (#[trigger] entries[i]).0.deep_view() == key
}

pub open spec fn slot_place<K: SlotKey>(entries: Seq<(K, SlotValue)>, key: K::V) -> int {
    choose|i: int| 0 <= i < entries.len() && (#[trigger] entries[i]).0.deep_view() == key
}

pub open spec fn slots_of<K: SlotKey>(entries: Seq<(K, SlotValue)>) -> Map<K::V, ValueModel> {
    Map::new(
        |key: K::V| holds_slot(entries, key),
        |key: K::V| entries[slot_place(entries, key)].1.deep_view(),
    )
}

pub open spec fn keys_differ<K: SlotKey>(entries: Seq<(K, SlotValue)>) -> bool {
    forall|i: int, j: int|
        0 <= i < j < entries.len() ==> (#[trigger] entries[i]).0.deep_view() != (#[trigger] entries[j]).0.deep_view()
}

/// A table with a value joined into a slot.
pub open spec fn joined_at<A>(slots: Map<A, ValueModel>, key: A, value: ValueModel) -> Map<A, ValueModel> {
    slots.insert(
        key,
        if slots.contains_key(key) {
            join_values(slots[key], value)
        } else {
            value
        },
    )
}

impl<K: SlotKey> DeepView for Slots<K> {
    type V = Map<K::V, ValueModel>;

    closed spec fn deep_view(&self) -> Map<K::V, ValueModel> {
        slots_of(self.entries@)
    }
}

proof fn entry_is_slot<K: SlotKey>(entries: Seq<(K, SlotValue)>, i: int)
    requires
        keys_differ(entries),
        0 <= i < entries.len(),
    ensures
        slots_of(entries).contains_key(entries[i].0.deep_view()),
        slots_of(entries)[entries[i].0.deep_view()] == entries[i].1.deep_view(),
{
    let key = entries[i].0.deep_view();
    assert(holds_slot(entries, key));
    let j = slot_place(entries, key);
    assert(0 <= j < entries.len() && entries[j].0.deep_view() == key);
    assert(i == j) by {
        if i < j {
            assert(entries[i].0.deep_view() != entries[j].0.deep_view());
        } else if j < i {
            assert(entries[j].0.deep_view() != entries[i].0.deep_view());
        }
    }
}

impl<K: SlotKey> Slots<K> {
    #[verifier::type_invariant]
    spec fn well_formed(self) -> bool {
        keys_differ(self.entries@)
    }

    /// The entries of the table, in some order.
    pub closed spec fn listing(&self) -> Seq<(K, SlotValue)> {
        self.entries@
    }

    pub fn new() -> (r: Self)
        ensures
            r.deep_view() == Map::<K::V, ValueModel>::empty(),
    {
        let r = Slots { entries: Vec::new() };
        assert(r.deep_view() =~= Map::<K::V, ValueModel>::empty());
        r
    }

    pub fn len(&self) -> (n: usize)
        ensures
            n == self.listing().len(),
            self.deep_view() == slots_of(self.listing()),
            keys_differ(self.listing()),
    {
        proof {
            use_type_invariant(self);
        }
        self.entries.len()
    }

    pub fn entry(&self, i: usize) -> (r: (&K, &SlotValue))
        requires
            i < self.listing().len(),
        ensures
            *r.0 == self.listing()[i as int].0,
            *r.1 == self.listing()[i as int].1,
    {
        (&self.entries[i].0, &self.entries[i].1)
    }

    fn find(&self, key: &K) -> (r: Option<usize>)
        ensures
            match r {
                Some(i) => i < self.entries@.len() && self.entries@[i as int].0.deep_view() == key.deep_view(),
                None => !holds_slot(self.entries@, key.deep_view()),
            },
    {
        let mut i: usize = 0;
        while i < self.entries.len()
            invariant
                i <= self.entries.len(),
                forall|j: int| 0 <= j < i ==> (#[trigger] self.entries@[j]).0.deep_view() != key.deep_view(),
            decreases self.entries.len() - i,
        {
            if self.entries[i].0.same_key(key) {
                return Some(i);
            }
            i += 1;
        }
        None
    }

    pub fn get(&self, key: &K) -> (r: Option<&SlotValue>)
        ensures
            match r {
                Some(value) => self.deep_view().contains_key(key.deep_view()) && value.deep_view()
                    == self.deep_view()[key.deep_view()],
                None => !self.deep_view().contains_key(key.deep_view()),
            },
    {
        proof {
            use_type_invariant(self);
        }
        match self.find(key) {
            Some(i) => {
                proof {
                    entry_is_slot(self.entries@, i as int);
                }
                Some(&self.entries[i].1)
            },
            None => None,
        }
    }

    /// Joins a value into a slot. Says whether the table changed.
    pub fn join(&mut self, key: K, value: &SlotValue) -> (changed: bool)
        ensures
            final(self).deep_view() == joined_at(old(self).deep_view(), key.deep_view(), value.deep_view()),
            !changed ==> final(self).deep_view() == old(self).deep_view(),
    {
        proof {
            use_type_invariant(&*self);
        }
        let ghost before = self.entries@;
        let ghost name = key.deep_view();
        match self.find(&key) {
            Some(i) => {
                proof {
                    entry_is_slot(before, i as int);
                }
                let joined = values_joined(&self.entries[i].1, value);
                if same_value(&joined, &self.entries[i].1) {
                    assert(joined_at(slots_of(before), name, value.deep_view()) =~= slots_of(before));
                    return false;
                }
                let ghost after = before.update(i as int, (key, joined));
                assert(keys_differ(after)) by {
                    assert forall|a: int, b: int| 0 <= a < b < after.len() implies (#[trigger] after[a]).0.deep_view() != (
                    #[trigger] after[b]).0.deep_view() by {
                        assert(after[a].0.deep_view() == before[a].0.deep_view());
                        assert(after[b].0.deep_view() == before[b].0.deep_view());
                    }
                }
                let mut entries: Vec<(K, SlotValue)> = Vec::new();
                std::mem::swap(&mut entries, &mut self.entries);
                entries.set(i, (key, joined));
                self.entries = entries;
                assert(self.entries@ =~= after);
                proof {
                    slots_after_update(before, i as int, (key, joined));
                }
                true
            },
            None => {
                let ghost after = before.push((key, *value));
                let copy = value.duplicate();
                assert(keys_differ(before.push((key, copy)))) by {
                    assert forall|a: int, b: int| 0 <= a < b < before.len() + 1 implies (#[trigger] before.push(
                        (key, copy),
                    )[a]).0.deep_view() != (#[trigger] before.push((key, copy))[b]).0.deep_view() by {
                        if b == before.len() {
                            assert(before[a].0.deep_view() != name);
                        } else {
                            assert(before[a].0.deep_view() != before[b].0.deep_view());
                        }
                    }
                }
                let mut entries: Vec<(K, SlotValue)> = Vec::new();
                std::mem::swap(&mut entries, &mut self.entries);
                entries.push((key, copy));
                self.entries = entries;
                proof {
                    slots_after_push(before, (key, copy));
                }
                true
            },
        }
    }

    pub fn copy(&self) -> (r: Self)
        ensures
            r.deep_view() == self.deep_view(),
    {
        proof {
            use_type_invariant(self);
        }
        let mut entries: Vec<(K, SlotValue)> = Vec::new();
        let mut i: usize = 0;
        while i < self.entries.len()
            invariant
                i <= self.entries.len(),
                entries@.len() == i,
                forall|j: int|
                    0 <= j < i ==> (#[trigger] entries@[j]).0.deep_view() == self.entries@[j].0.deep_view()
                        && entries@[j].1.deep_view() == self.entries@[j].1.deep_view(),
            decreases self.entries.len() - i,
        {
            entries.push((self.entries[i].0.copy_key(), self.entries[i].1.duplicate()));
            i += 1;
        }
        proof {
            let a = self.entries@;
            let b = entries@;
            assert forall|i: int, j: int| 0 <= i < j < b.len() implies (#[trigger] b[i]).0.deep_view() != (#[trigger] b[j]).0.deep_view() by {
                assert(a[i].0.deep_view() != a[j].0.deep_view());
            }
            assert forall|key: K::V| holds_slot(a, key) == holds_slot(b, key) by {
                if holds_slot(a, key) {
                    let j = slot_place(a, key);
                    assert(b[j].0.deep_view() == key);
                }
                if holds_slot(b, key) {
                    let j = slot_place(b, key);
                    assert(a[j].0.deep_view() == key);
                }
            }
            assert forall|key: K::V| #[trigger] holds_slot(a, key) implies slots_of(a)[key] == slots_of(b)[key] by {
                let j = slot_place(a, key);
                entry_is_slot(a, j);
                assert(b[j].0.deep_view() == key);
                entry_is_slot(b, j);
            }
            assert(slots_of(a) =~= slots_of(b));
        }
        Slots { entries }
    }
}

proof fn slots_after_update<K: SlotKey>(before: Seq<(K, SlotValue)>, i: int, entry: (K, SlotValue))
    requires
        keys_differ(before),
        0 <= i < before.len(),
        entry.0.deep_view() == before[i].0.deep_view(),
        keys_differ(before.update(i, entry)),
    ensures
        slots_of(before.update(i, entry)) == slots_of(before).insert(entry.0.deep_view(), entry.1.deep_view()),
{
    let after = before.update(i, entry);
    let name = entry.0.deep_view();
    assert(after[i] == entry);
    entry_is_slot(after, i);
    assert forall|key: K::V| holds_slot(after, key) == holds_slot(before, key) by {
        if holds_slot(after, key) {
            let j = slot_place(after, key);
            assert(before[j].0.deep_view() == key);
        }
        if holds_slot(before, key) {
            let j = slot_place(before, key);
            assert(after[j].0.deep_view() == key);
        }
    }
    assert forall|key: K::V| #[trigger] holds_slot(before, key) && key != name implies slots_of(after)[key] == slots_of(
        before,
    )[key] by {
        let j = slot_place(before, key);
        assert(j != i);
        assert(after[j] == before[j]);
        entry_is_slot(before, j);
        entry_is_slot(after, j);
    }
    assert(holds_slot(before, name));
    assert(slots_of(after) =~= slots_of(before).insert(name, entry.1.deep_view()));
}

pub proof fn slots_after_push<K: SlotKey>(before: Seq<(K, SlotValue)>, entry: (K, SlotValue))
    requires
        keys_differ(before),
        !holds_slot(before, entry.0.deep_view()),
        keys_differ(before.push(entry)),
    ensures
        slots_of(before.push(entry)) == slots_of(before).insert(entry.0.deep_view(), entry.1.deep_view()),
{
    let after = before.push(entry);
    let name = entry.0.deep_view();
    assert(after[before.len() as int] == entry);
    entry_is_slot(after, before.len() as int);
    assert forall|key: K::V| holds_slot(after, key) == (holds_slot(before, key) || key == name) by {
        if holds_slot(after, key) {
            let j = slot_place(after, key);
            if j < before.len() {
                assert(before[j].0.deep_view() == key);
            }
        }
        if holds_slot(before, key) {
            let j = slot_place(before, key);
            assert(after[j].0.deep_view() == key);
        }
        if key == name {
            assert(after[before.len() as int].0.deep_view() == key);
        }
    }
    assert forall|key: K::V| #[trigger] holds_slot(before, key) implies slots_of(after)[key] == slots_of(before)[key] by {
        let j = slot_place(before, key);
        assert(after[j] == before[j]);
        entry_is_slot(before, j);
        entry_is_slot(after, j);
    }
    assert(slots_of(after) =~= slots_of(before).insert(name, entry.1.deep_view()));
}

/// A table with many values joined in, one after the other.
pub open spec fn joined_all<A>(slots: Map<A, ValueModel>, values: Seq<(A, ValueModel)>) -> Map<A, ValueModel>
    decreases values.len(),
{
    if values.len() == 0 {
        slots
    } else {
        joined_at(joined_all(slots, values.drop_last()), values.last().0, values.last().1)
    }
}

/// Joins many values in. Says whether the table changed.
pub fn join_all<K: SlotKey>(slots: &mut Slots<K>, values: Vec<(K, SlotValue)>) -> (changed: bool)
    ensures
        final(slots).deep_view() == joined_all(old(slots).deep_view(), values.deep_view()),
        !changed ==> final(slots).deep_view() == old(slots).deep_view(),
{
    let ghost start = slots.deep_view();
    let ghost all = values.deep_view();
    let mut changed = false;
    let mut i: usize = 0;
    while i < values.len()
        invariant
            i <= values.len(),
            start == old(slots).deep_view(),
            all == values.deep_view(),
            slots.deep_view() == joined_all(start, all.take(i as int)),
            !changed ==> slots.deep_view() == start,
        decreases values.len() - i,
    {
        assert(all.take(i + 1).drop_last() =~= all.take(i as int));
        assert(all.take(i + 1).last() == values@[i as int].deep_view());
        if slots.join(values[i].0.copy_key(), &values[i].1) {
            changed = true;
        }
        i += 1;
    }
    assert(all.take(all.len() as int) =~= all);
    changed
}

} // verus!
