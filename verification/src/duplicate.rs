//! Copies that are known to hold what the copied value holds.

use vstd::prelude::*;

verus! {

/// A value that can be copied; the copy holds the same.
pub trait Duplicate: DeepView + Sized {
    fn duplicate(&self) -> (r: Self)
        ensures
            r.deep_view() == self.deep_view(),
    ;
}

impl Duplicate for String {
    fn duplicate(&self) -> (r: Self) {
        self.clone()
    }
}

pub fn duplicate_all<T: Duplicate>(list: &Vec<T>) -> (r: Vec<T>)
    ensures
        r.deep_view() == list.deep_view(),
{
    let mut r: Vec<T> = Vec::new();
    let mut i: usize = 0;
    while i < list.len()
        invariant
            i <= list.len(),
            r.deep_view() == list.deep_view().take(i as int),
        decreases list.len() - i,
    {
        let ghost before = r.deep_view();
        r.push(list[i].duplicate());
        assert(r.deep_view() == before.push(list@[i as int].deep_view()));
        assert(list.deep_view().take(i + 1) == list.deep_view().take(i as int).push(list@[i as int].deep_view()));
        i += 1;
    }
    assert(list.deep_view().take(list@.len() as int) == list.deep_view());
    r
}

pub fn duplicate_option<T: Duplicate>(o: &Option<T>) -> (r: Option<T>)
    ensures
        r.deep_view() == o.deep_view(),
{
    match o {
        Some(x) => Some(x.duplicate()),
        None => None,
    }
}

} // verus!
