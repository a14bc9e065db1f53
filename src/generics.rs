//! Generic helpers: the largest item of a list, and points.
use vstd::prelude::*;

verus! {

/// The largest number in `list`, which must not be empty.
pub fn largest_i32(list: &[i32]) -> (r: &i32)
    requires
        list@.len() > 0,
    ensures
        list@.contains(*r),
        forall|i: int| 0 <= i < list@.len() ==> list@[i] <= *r,
{
    let mut largest: usize = 0;
    let mut i: usize = 1;
    while i < list.len()
        invariant
            0 <= largest < list@.len(),
            1 <= i <= list@.len(),
            forall|j: int| 0 <= j < i ==> list@[j] <= list@[largest as int],
        decreases list@.len() - i,
    {
        if list[i] > list[largest] {
            largest = i;
        }
        i = i + 1;
    }
    &list[largest]
}

/// The largest character in `list`, which must not be empty.
pub fn largest_char(list: &[char]) -> (r: &char)
    requires
        list@.len() > 0,
    ensures
        list@.contains(*r),
        forall|i: int| 0 <= i < list@.len() ==> list@[i] <= *r,
{
    let mut largest: usize = 0;
    let mut i: usize = 1;
    while i < list.len()
        invariant
            0 <= largest < list@.len(),
            1 <= i <= list@.len(),
            forall|j: int| 0 <= j < i ==> list@[j] <= list@[largest as int],
        decreases list@.len() - i,
    {
        if list[i] > list[largest] {
            largest = i;
        }
        i = i + 1;
    }
    &list[largest]
}

/// A point whose coordinates share one type.
pub struct Point<T> {
    pub x: T,
    pub y: T,
}

impl<T> Point<T> {
    /// The first coordinate.
    pub fn x(&self) -> (r: &T)
        ensures
            *r == self.x,
    {
        &self.x
    }
}

/// A point whose coordinates may differ in type.
pub struct Point3<X1, Y1> {
    pub x: X1,
    pub y: Y1,
}

impl<X1, Y1> Point3<X1, Y1> {
    /// A point with this point's first coordinate and `other`'s second.
    pub fn mixup<X2, Y2>(self, other: Point3<X2, Y2>) -> (r: Point3<X1, Y2>)
        ensures
            r.x == self.x,
            r.y == other.y,
    {
        Point3 { x: self.x, y: other.y }
    }
}

} // verus!
