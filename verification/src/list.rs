//! Lists that are either borrowed or owned.
use vstd::prelude::*;

verus! {

/// A list that is empty, borrows a slice, or owns a vector.
#[derive(Debug)]
pub enum List<'a, T> {
    /// An empty list.
    Empty,
    /// A borrowed list.
    Borrowed(&'a [T]),
    /// An owned list.
    Owned(Vec<T>),
}

impl<'a, T> List<'a, T> {
    /// The elements of the list.
    pub open spec fn elements(&self) -> Seq<T> {
        match self {
            List::Empty => Seq::empty(),
            List::Borrowed(s) => s@,
            List::Owned(v) => v@,
        }
    }

    /// The length of the list.
    pub fn len(&self) -> (r: usize)
        ensures
            r == self.elements().len(),
    {
        match self {
            List::Empty => 0,
            List::Borrowed(v) => v.len(),
            List::Owned(v) => v.len(),
        }
    }

    /// Whether the list has no elements.
    pub fn is_empty(&self) -> (r: bool)
        ensures
            r == (self.elements().len() == 0),
    {
        match self {
            List::Empty => true,
            List::Borrowed(v) => v.len() == 0,
            List::Owned(v) => v.len() == 0,
        }
    }

    /// The elements of the list, as a slice.
    pub fn as_slice(&self) -> (r: &[T])
        ensures
            r@ == self.elements(),
    {
        match self {
            List::Empty => &[],
            List::Borrowed(v) => v,
            List::Owned(v) => v.as_slice(),
        }
    }
}

} // verus!
