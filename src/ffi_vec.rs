//! A vector that is handed across a language boundary whole, such as the
//! byte buffer of an encoded profile.
use vstd::prelude::*;

verus! {

/// Relies on `Vec::capacity`: a vector has room for at least its elements.
#[verifier::external_body]
fn capacity_of<T>(v: &std::vec::Vec<T>) -> (r: usize)
    ensures
        r >= v@.len(),
{
    v.capacity()
}

/// A vector owned by this library while a host holds it.
#[derive(Debug)]
pub struct Vec<T> {
    inner: std::vec::Vec<T>,
}

impl<T> View for Vec<T> {
    type V = Seq<T>;

    closed spec fn view(&self) -> Seq<T> {
        self.inner@
    }
}

impl<T> Vec<T> {
    /// The vector that holds the elements of `vec`.
    pub fn from_vec(vec: std::vec::Vec<T>) -> (r: Self)
        ensures
            r@ == vec@,
    {
        Vec { inner: vec }
    }

    /// The elements, as a vector of the standard library.
    pub fn into_vec(self) -> (r: std::vec::Vec<T>)
        ensures
            r@ == self@,
    {
        self.inner
    }

    pub fn push(&mut self, value: T)
        ensures
            final(self)@ == old(self)@.push(value),
    {
        self.inner.push(value);
    }

    pub fn len(&self) -> (r: usize)
        ensures
            r == self@.len(),
    {
        self.inner.len()
    }

    pub fn is_empty(&self) -> (r: bool)
        ensures
            r == (self@.len() == 0),
    {
        self.inner.len() == 0
    }

    /// The number of elements the vector has room for.
    pub fn capacity(&self) -> (r: usize)
        ensures
            r >= self@.len(),
    {
        capacity_of(&self.inner)
    }

    pub fn as_slice(&self) -> (r: &[T])
        ensures
            r@ == self@,
    {
        self.inner.as_slice()
    }

    pub fn get(&self, index: usize) -> (r: Option<&T>)
        ensures
            index < self@.len() ==> r == Some(&self@[index as int]),
            index >= self@.len() ==> r is None,
    {
        if index >= self.inner.len() {
            None
        } else {
            Some(&self.inner[index])
        }
    }

    pub fn last(&self) -> (r: Option<&T>)
        ensures
            self@.len() > 0 ==> r == Some(&self@.last()),
            self@.len() == 0 ==> r is None,
    {
        let n = self.inner.len();
        if n == 0 {
            None
        } else {
            Some(&self.inner[n - 1])
        }
    }
}

impl<T> Default for Vec<T> {
    fn default() -> (r: Self)
        ensures
            r@.len() == 0,
    {
        Vec { inner: std::vec::Vec::new() }
    }
}

} // verus!
