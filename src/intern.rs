use vstd::prelude::*;

verus! {

/// Append-only table of built resources, addressed by the index at which
/// each value was interned.
pub struct Intern<T> {
    data: Vec<T>,
}

impl<T> Intern<T> {
    /// The interned values, in the order they were added.
    pub closed spec fn view(&self) -> Seq<T> {
        self.data@
    }

    pub fn new() -> (r: Self)
        ensures
            r@ == Seq::<T>::empty(),
    {
        Intern { data: Vec::new() }
    }

    /// Stores `value` and returns its symbol. Symbols are never reused and
    /// equal values interned twice get distinct symbols.
    pub fn intern(&mut self, value: T) -> (symbol: usize)
        ensures
            symbol == old(self)@.len(),
            final(self)@ == old(self)@.push(value),
    {
        let symbol = self.data.len();
        self.data.push(value);
        symbol
    }

    pub fn get(&self, symbol: usize) -> (r: &T)
        requires
            symbol < self@.len(),
        ensures
            *r == self@[symbol as int],
    {
        &self.data[symbol]
    }

    pub fn len(&self) -> (r: usize)
        ensures
            r == self@.len(),
    {
        self.data.len()
    }
}

impl<T> Default for Intern<T> {
    fn default() -> (r: Self)
        ensures
            r@ == Seq::<T>::empty(),
    {
        Self::new()
    }
}

} // verus!
