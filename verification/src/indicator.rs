//! How the values that an indicator gives for one bar are told apart.
use vstd::prelude::*;

verus! {

/// The name of one value of an indicator and its place among the values.
#[derive(Debug, Clone)]
pub struct ValueIndex {
    pub name: String,
    pub index: usize,
}

impl ValueIndex {
    pub fn new(name: String, index: usize) -> (r: ValueIndex)
        ensures
            r.name == name,
            r.index == index,
    {
        ValueIndex { name, index }
    }

    /// The value at this place among `items`.
    pub fn pick<'a, T>(&self, items: &'a Vec<T>) -> (r: &'a T)
        requires
            self.index < items@.len(),
        ensures
            *r == items@[self.index as int],
    {
        &items[self.index]
    }
}

} // verus!
