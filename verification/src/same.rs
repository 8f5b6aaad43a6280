//! Comparison of values by their mathematical content.

use crate::addr::IpAddr;
use vstd::prelude::*;

verus! {

/// Types whose values can be compared by content.
pub trait Same: DeepView + Sized {
    /// Reports whether two values have the same content.
    fn same(&self, other: &Self) -> (r: bool)
        ensures
            r == (self.deep_view() == other.deep_view()),
    ;
}

impl DeepView for IpAddr {
    type V = IpAddr;

    open spec fn deep_view(&self) -> IpAddr {
        *self
    }
}

impl Same for String {
    fn same(&self, other: &Self) -> (r: bool) {
        *self == *other
    }
}

impl Same for u16 {
    fn same(&self, other: &Self) -> (r: bool) {
        *self == *other
    }
}

impl Same for IpAddr {
    fn same(&self, other: &Self) -> (r: bool) {
        *self == *other
    }
}

impl<T: Same> Same for Option<T> {
    fn same(&self, other: &Self) -> (r: bool) {
        match (self, other) {
            (Some(a), Some(b)) => a.same(b),
            (None, None) => true,
            _ => false,
        }
    }
}

impl<T: Same> Same for Vec<T> {
    fn same(&self, other: &Self) -> (r: bool) {
        if self.len() != other.len() {
            proof {
                assert(self.deep_view().len() != other.deep_view().len());
            }
            return false;
        }
        let mut i: usize = 0;
        while i < self.len()
            invariant
                i <= self@.len(),
                self@.len() == other@.len(),
                forall|j: int| 0 <= j < i ==> self.deep_view()[j] == other.deep_view()[j],
            decreases self@.len() - i,
        {
            if !self[i].same(&other[i]) {
                proof {
                    assert(self.deep_view()[i as int] != other.deep_view()[i as int]);
                }
                return false;
            }
            i = i + 1;
        }
        proof {
            assert(self.deep_view() =~= other.deep_view());
        }
        true
    }
}

/// Reports whether a list holds a value.
pub fn holds<T: Same>(list: &Vec<T>, value: &T) -> (r: bool)
    ensures
        r == list.deep_view().contains(value.deep_view()),
{
    let mut i: usize = 0;
    while i < list.len()
        invariant
            i <= list@.len(),
            forall|j: int| 0 <= j < i ==> list.deep_view()[j] != value.deep_view(),
        decreases list@.len() - i,
    {
        if list[i].same(value) {
            proof {
                assert(list.deep_view()[i as int] == value.deep_view());
            }
            return true;
        }
        i = i + 1;
    }
    false
}

} // verus!
