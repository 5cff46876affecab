//! Which dependency a value comes from.
//!
//! A slot's value is what is known of it. Nothing known never blocks; two
//! different things known are a conflict, and a conflict is final. The values of
//! a slot form a semilattice under [`join_values`], so what a slot ends up with
//! does not depend on the order in which things became known.

use crate::duplicate::Duplicate;
use crate::external_call_candidates::facts::{same_package, PkgRef, PkgRefModel};
use crate::ordered::{keys_ascend, lists_key, map_of, place_of, TextMap};
use vstd::prelude::*;

verus! {

/// What one property of a record is known to come from. A property holds a
/// dependency and nothing richer, which keeps records from growing without end.
#[derive(Debug, PartialEq, Eq)]
pub enum PropValue {
    Pkg(PkgRef),
    Conflict,
}

/// What a [`PropValue`] holds.
pub enum PropModel {
    Pkg(PkgRefModel),
    Conflict,
}

impl DeepView for PropValue {
    type V = PropModel;

    open spec fn deep_view(&self) -> PropModel {
        match self {
            PropValue::Pkg(package) => PropModel::Pkg(package.deep_view()),
            PropValue::Conflict => PropModel::Conflict,
        }
    }
}

impl Duplicate for PropValue {
    fn duplicate(&self) -> (r: Self) {
        match self {
            PropValue::Pkg(package) => PropValue::Pkg(package.duplicate()),
            PropValue::Conflict => PropValue::Conflict,
        }
    }
}

/// What a slot is known to hold.
#[derive(Debug, PartialEq, Eq)]
pub enum Owner {
    /// A value of a dependency. What is reached off it is the dependency's too.
    Pkg(PkgRef),
    /// An object whose named properties are owned.
    Record(TextMap<PropValue>),
    /// The exports of another file.
    NamespaceOf(usize),
    /// A class of a file, as a value.
    ClassOf(usize, usize),
    /// A function whose calls yield this.
    FnReturning(Box<Owner>),
}

/// What an [`Owner`] holds.
pub enum OwnerModel {
    Pkg(PkgRefModel),
    Record(Map<Seq<char>, PropModel>),
    NamespaceOf(usize),
    ClassOf(usize, usize),
    FnReturning(Box<OwnerModel>),
}

pub open spec fn owner_model(owner: Owner) -> OwnerModel
    decreases owner,
{
    match owner {
        Owner::Pkg(package) => OwnerModel::Pkg(package.deep_view()),
        Owner::Record(fields) => OwnerModel::Record(fields.deep_view()),
        Owner::NamespaceOf(file) => OwnerModel::NamespaceOf(file),
        Owner::ClassOf(file, class) => OwnerModel::ClassOf(file, class),
        Owner::FnReturning(returned) => OwnerModel::FnReturning(Box::new(owner_model(*returned))),
    }
}

impl DeepView for Owner {
    type V = OwnerModel;

    open spec fn deep_view(&self) -> OwnerModel {
        owner_model(*self)
    }
}

/// A slot's value.
#[derive(Debug, PartialEq, Eq)]
pub enum SlotValue {
    Owned(Owner),
    Conflict,
}

/// What a [`SlotValue`] holds.
pub enum ValueModel {
    Owned(OwnerModel),
    Conflict,
}

impl DeepView for SlotValue {
    type V = ValueModel;

    open spec fn deep_view(&self) -> ValueModel {
        match self {
            SlotValue::Owned(owner) => ValueModel::Owned(owner.deep_view()),
            SlotValue::Conflict => ValueModel::Conflict,
        }
    }
}

fn copy_fields(fields: &TextMap<PropValue>) -> (r: TextMap<PropValue>)
    ensures
        r.deep_view() == fields.deep_view(),
{
    fields.duplicate()
}

pub fn copy_owner(owner: &Owner) -> (r: Owner)
    ensures
        r.deep_view() == owner.deep_view(),
    decreases *owner,
{
    match owner {
        Owner::Pkg(package) => Owner::Pkg(package.duplicate()),
        Owner::Record(fields) => Owner::Record(copy_fields(fields)),
        Owner::NamespaceOf(file) => Owner::NamespaceOf(*file),
        Owner::ClassOf(file, class) => Owner::ClassOf(*file, *class),
        Owner::FnReturning(returned) => Owner::FnReturning(Box::new(copy_owner(&**returned))),
    }
}

impl Duplicate for Owner {
    fn duplicate(&self) -> (r: Self) {
        copy_owner(self)
    }
}

impl Duplicate for SlotValue {
    fn duplicate(&self) -> (r: Self) {
        match self {
            SlotValue::Owned(owner) => SlotValue::Owned(copy_owner(owner)),
            SlotValue::Conflict => SlotValue::Conflict,
        }
    }
}

// ---------------------------------------------------------------------------
// Joining
// ---------------------------------------------------------------------------

/// What two records know together. A property that they know differently is in
/// conflict.
pub open spec fn join_records(a: Map<Seq<char>, PropModel>, b: Map<Seq<char>, PropModel>) -> Map<Seq<char>, PropModel> {
    Map::new(
        |k: Seq<char>| a.contains_key(k) || b.contains_key(k),
        |k: Seq<char>|
            if a.contains_key(k) && b.contains_key(k) {
                if a[k] == b[k] {
                    a[k]
                } else {
                    PropModel::Conflict
                }
            } else if a.contains_key(k) {
                a[k]
            } else {
                b[k]
            },
    )
}

/// What two owners are together. Records and functions join part by part; other
/// owners agree or conflict.
pub open spec fn join_owners(a: OwnerModel, b: OwnerModel) -> ValueModel
    decreases a,
{
    if a == b {
        ValueModel::Owned(a)
    } else {
        match (a, b) {
            (OwnerModel::Record(x), OwnerModel::Record(y)) => ValueModel::Owned(OwnerModel::Record(join_records(x, y))),
            (OwnerModel::FnReturning(x), OwnerModel::FnReturning(y)) => match join_owners(*x, *y) {
                ValueModel::Owned(owner) => ValueModel::Owned(OwnerModel::FnReturning(Box::new(owner))),
                ValueModel::Conflict => ValueModel::Conflict,
            },
            _ => ValueModel::Conflict,
        }
    }
}

pub open spec fn join_values(a: ValueModel, b: ValueModel) -> ValueModel {
    match (a, b) {
        (ValueModel::Owned(x), ValueModel::Owned(y)) => join_owners(x, y),
        _ => ValueModel::Conflict,
    }
}

fn same_prop(a: &PropValue, b: &PropValue) -> (r: bool)
    ensures
        r == (a.deep_view() == b.deep_view()),
{
    match (a, b) {
        (PropValue::Pkg(x), PropValue::Pkg(y)) => same_package(x, y),
        (PropValue::Conflict, PropValue::Conflict) => true,
        _ => false,
    }
}

/// Every field of the first record is a field of the second.
fn holds_fields(a: &TextMap<PropValue>, b: &TextMap<PropValue>) -> (r: bool)
    ensures
        r == (forall|k: Seq<char>| #[trigger] a.deep_view().contains_key(k) ==> b.deep_view().contains_key(k)
            && b.deep_view()[k] == a.deep_view()[k]),
{
    let ghost all = a.listing();
    let ghost x = a.deep_view();
    let ghost y = b.deep_view();
    let count: usize = a.len();
    let mut i: usize = 0;
    while i < count
        invariant
            i <= count,
            all == a.listing(),
            count == all.len(),
            x == a.deep_view(),
            y == b.deep_view(),
            a@ == map_of(all),
            forall|j: int|
                0 <= j < i ==> y.contains_key((#[trigger] all[j]).0@) && y[all[j].0@] == all[j].1.deep_view(),
        decreases count - i,
    {
        let (key, value) = a.entry(i);
        assert(x.contains_key(key@) && x[key@] == value.deep_view());
        match b.get(key.as_str()) {
            Some(other) => {
                if !same_prop(value, other) {
                    return false;
                }
            },
            None => {
                return false;
            },
        }
        i += 1;
    }
    assert forall|k: Seq<char>| #[trigger] x.contains_key(k) implies y.contains_key(k) && y[k] == x[k] by {
        let j = place_of(all, k);
        assert(lists_key(all, k));
        assert(all[j].0@ == k);
    }
    true
}

pub fn same_fields(a: &TextMap<PropValue>, b: &TextMap<PropValue>) -> (r: bool)
    ensures
        r == (a.deep_view() == b.deep_view()),
{
    let r = holds_fields(a, b) && holds_fields(b, a);
    if r {
        assert(a.deep_view() =~= b.deep_view());
    }
    r
}

pub fn same_owner(a: &Owner, b: &Owner) -> (r: bool)
    ensures
        r == (a.deep_view() == b.deep_view()),
    decreases *a,
{
    match (a, b) {
        (Owner::Pkg(x), Owner::Pkg(y)) => same_package(x, y),
        (Owner::Record(x), Owner::Record(y)) => same_fields(x, y),
        (Owner::NamespaceOf(x), Owner::NamespaceOf(y)) => *x == *y,
        (Owner::ClassOf(x, c), Owner::ClassOf(y, d)) => *x == *y && *c == *d,
        (Owner::FnReturning(x), Owner::FnReturning(y)) => same_owner(&**x, &**y),
        _ => false,
    }
}

pub fn same_value(a: &SlotValue, b: &SlotValue) -> (r: bool)
    ensures
        r == (a.deep_view() == b.deep_view()),
{
    match (a, b) {
        (SlotValue::Owned(x), SlotValue::Owned(y)) => same_owner(x, y),
        (SlotValue::Conflict, SlotValue::Conflict) => true,
        _ => false,
    }
}

fn merge_records(a: &TextMap<PropValue>, b: &TextMap<PropValue>) -> (r: TextMap<PropValue>)
    ensures
        r.deep_view() == join_records(a.deep_view(), b.deep_view()),
{
    let ghost x = a.deep_view();
    let ghost all = b.listing();
    let ghost view = |p: PropValue| p.deep_view();
    let count: usize = b.len();
    let mut r = copy_fields(a);
    let mut i: usize = 0;
    proof {
        assert(map_of(all.take(0)).map_values(view) =~= Map::<Seq<char>, PropModel>::empty());
        assert(join_records(x, Map::empty()) =~= x);
    }
    while i < count
        invariant
            i <= count,
            all == b.listing(),
            count == all.len(),
            b@ == map_of(all),
            keys_ascend(all),
            view == (|p: PropValue| p.deep_view()),
            x == a.deep_view(),
            r.deep_view() == join_records(x, map_of(all.take(i as int)).map_values(view)),
        decreases count - i,
    {
        let (key, value) = b.entry(i);
        let ghost so_far = map_of(all.take(i as int)).map_values(view);
        let ghost before = r.deep_view();
        proof {
            crate::ordered::map_of_next(all, i as int);
            assert(map_of(all.take(i + 1)).map_values(view) =~= so_far.insert(key@, value.deep_view()));
            assert(!so_far.contains_key(key@));
            assert(before.contains_key(key@) == x.contains_key(key@));
            assert(x.contains_key(key@) ==> before[key@] == x[key@]);
        }
        let joined = match r.get(key.as_str()) {
            Some(existing) => {
                if same_prop(existing, value) {
                    value.duplicate()
                } else {
                    PropValue::Conflict
                }
            },
            None => value.duplicate(),
        };
        let ghost next = join_records(x, so_far.insert(key@, value.deep_view()));
        assert(next[key@] == joined.deep_view());
        r.insert(key.clone(), joined);
        assert(r.deep_view() =~= before.insert(key@, joined.deep_view()));
        assert forall|k: Seq<char>| before.insert(key@, joined.deep_view()).contains_key(k) implies #[trigger] next[k]
            == before.insert(key@, joined.deep_view())[k] by {}
        assert(r.deep_view() =~= next);
        i += 1;
    }
    assert(all.take(all.len() as int) =~= all);
    r
}

pub fn owners_joined(a: &Owner, b: &Owner) -> (r: SlotValue)
    ensures
        r.deep_view() == join_owners(a.deep_view(), b.deep_view()),
    decreases *a,
{
    if same_owner(a, b) {
        return SlotValue::Owned(copy_owner(a));
    }
    match (a, b) {
        (Owner::Record(x), Owner::Record(y)) => SlotValue::Owned(Owner::Record(merge_records(x, y))),
        (Owner::FnReturning(x), Owner::FnReturning(y)) => match owners_joined(&**x, &**y) {
            SlotValue::Owned(owner) => SlotValue::Owned(Owner::FnReturning(Box::new(owner))),
            SlotValue::Conflict => SlotValue::Conflict,
        },
        _ => SlotValue::Conflict,
    }
}

pub fn values_joined(a: &SlotValue, b: &SlotValue) -> (r: SlotValue)
    ensures
        r.deep_view() == join_values(a.deep_view(), b.deep_view()),
{
    match (a, b) {
        (SlotValue::Owned(x), SlotValue::Owned(y)) => owners_joined(x, y),
        _ => SlotValue::Conflict,
    }
}

// ---------------------------------------------------------------------------
// The laws of joining
// ---------------------------------------------------------------------------

/// Joining a value with itself gives it back.
pub proof fn join_is_idempotent(a: ValueModel)
    ensures
        join_values(a, a) == a,
{
}

proof fn join_records_commutes(a: Map<Seq<char>, PropModel>, b: Map<Seq<char>, PropModel>)
    ensures
        join_records(a, b) == join_records(b, a),
{
    assert(join_records(a, b) =~= join_records(b, a));
}

proof fn join_owners_commutes(a: OwnerModel, b: OwnerModel)
    ensures
        join_owners(a, b) == join_owners(b, a),
    decreases a,
{
    match (a, b) {
        (OwnerModel::Record(x), OwnerModel::Record(y)) => {
            join_records_commutes(x, y);
        },
        (OwnerModel::FnReturning(x), OwnerModel::FnReturning(y)) => {
            join_owners_commutes(*x, *y);
        },
        _ => {},
    }
}

/// It does not matter which of two values is known first.
pub proof fn join_commutes(a: ValueModel, b: ValueModel)
    ensures
        join_values(a, b) == join_values(b, a),
{
    if let (ValueModel::Owned(x), ValueModel::Owned(y)) = (a, b) {
        join_owners_commutes(x, y);
    }
}

proof fn join_records_associates(
    a: Map<Seq<char>, PropModel>,
    b: Map<Seq<char>, PropModel>,
    c: Map<Seq<char>, PropModel>,
)
    ensures
        join_records(join_records(a, b), c) == join_records(a, join_records(b, c)),
        join_records(a, a) == a,
{
    assert(join_records(join_records(a, b), c) =~= join_records(a, join_records(b, c)));
    assert(join_records(a, a) =~= a);
}

/// Records join to records, functions to functions, and all else only with
/// itself.
proof fn join_keeps_kinds(a: OwnerModel, b: OwnerModel)
    ensures
        a is Record && b is Record ==> join_owners(a, b) == ValueModel::Owned(
            OwnerModel::Record(join_records(a->Record_0, b->Record_0)),
        ),
        a is FnReturning && b is FnReturning ==> join_owners(a, b) == (match join_owners(
            *(a->FnReturning_0),
            *(b->FnReturning_0),
        ) {
            ValueModel::Owned(owner) => ValueModel::Owned(OwnerModel::FnReturning(Box::new(owner))),
            ValueModel::Conflict => ValueModel::Conflict,
        }),
        !(a is Record && b is Record) && !(a is FnReturning && b is FnReturning) && a != b ==> join_owners(a, b)
            == ValueModel::Conflict,
{
    if a is Record && a == b {
        join_records_associates(a->Record_0, a->Record_0, a->Record_0);
    }
}

proof fn join_owners_associates(a: OwnerModel, b: OwnerModel, c: OwnerModel)
    ensures
        join_values(join_owners(a, b), ValueModel::Owned(c)) == join_values(ValueModel::Owned(a), join_owners(b, c)),
    decreases a,
{
    join_keeps_kinds(a, b);
    join_keeps_kinds(b, c);
    if a is Record && b is Record && c is Record {
        join_records_associates(a->Record_0, b->Record_0, c->Record_0);
        join_keeps_kinds(OwnerModel::Record(join_records(a->Record_0, b->Record_0)), c);
        join_keeps_kinds(a, OwnerModel::Record(join_records(b->Record_0, c->Record_0)));
    } else if a is FnReturning && b is FnReturning && c is FnReturning {
        let x = *(a->FnReturning_0);
        let y = *(b->FnReturning_0);
        let z = *(c->FnReturning_0);
        join_owners_associates(x, y, z);
        if join_owners(x, y) is Owned {
            join_keeps_kinds(OwnerModel::FnReturning(Box::new(join_owners(x, y)->Owned_0)), c);
        }
        if join_owners(y, z) is Owned {
            join_keeps_kinds(a, OwnerModel::FnReturning(Box::new(join_owners(y, z)->Owned_0)));
        }
    } else {
        if join_owners(a, b) is Owned {
            join_keeps_kinds(join_owners(a, b)->Owned_0, c);
        }
        if join_owners(b, c) is Owned {
            join_keeps_kinds(a, join_owners(b, c)->Owned_0);
        }
    }
}

/// It does not matter how what is known is grouped.
pub proof fn join_associates(a: ValueModel, b: ValueModel, c: ValueModel)
    ensures
        join_values(join_values(a, b), c) == join_values(a, join_values(b, c)),
{
    match (a, b, c) {
        (ValueModel::Owned(x), ValueModel::Owned(y), ValueModel::Owned(z)) => {
            join_owners_associates(x, y, z);
        },
        _ => {},
    }
}

/// A conflict is final.
pub proof fn a_conflict_is_final(a: ValueModel)
    ensures
        join_values(a, ValueModel::Conflict) == ValueModel::Conflict,
        join_values(ValueModel::Conflict, a) == ValueModel::Conflict,
{
}

/// Two dependencies that differ conflict, and so do two exports or two entry
/// points of one dependency.
pub proof fn different_anchors_conflict(a: PkgRefModel, b: PkgRefModel)
    requires
        a != b,
    ensures
        join_values(ValueModel::Owned(OwnerModel::Pkg(a)), ValueModel::Owned(OwnerModel::Pkg(b))) == ValueModel::Conflict,
{
}

} // verus!
