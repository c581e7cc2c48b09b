//! The stack the block store keeps its pools in.  Pushes and pops move
//! whole blocks; draining and refilling are what sweep is built from.

use vstd::prelude::*;

verus! {

pub struct AtomicStack<T> {
    pub items: Vec<T>,
}

impl<T> View for AtomicStack<T> {
    type V = Seq<T>;

    open spec fn view(&self) -> Seq<T> {
        self.items@
    }
}

impl<T> AtomicStack<T> {
    pub fn new() -> (r: AtomicStack<T>)
        ensures
            r@ =~= Seq::<T>::empty(),
    {
        AtomicStack { items: Vec::new() }
    }

    pub fn push(&mut self, value: T)
        ensures
            final(self)@ == old(self)@.push(value),
    {
        self.items.push(value);
    }

    pub fn pop(&mut self) -> (r: Option<T>)
        ensures
            old(self)@.len() == 0 ==> r is None && final(self)@ == old(self)@,
            old(self)@.len() > 0 ==> r == Some(old(self)@.last()) && final(self)@ == old(self)@.drop_last(),
    {
        self.items.pop()
    }

    /// Empty the stack into a vector, most recently pushed item first.
    pub fn drain_to_vec(&mut self) -> (r: Vec<T>)
        ensures
            final(self)@.len() == 0,
            r@ == old(self)@.reverse(),
    {
        let mut out: Vec<T> = Vec::new();
        while self.items.len() > 0
            invariant
                old(self)@ =~= self@ + out@.reverse(),
            decreases self@.len(),
        {
            let x = self.pop();
            match x {
                Some(v) => {
                    out.push(v);
                    proof {
                        assert(old(self)@ =~= self@ + out@.reverse());
                    }
                },
                None => {},
            }
        }
        proof {
            assert(out@ =~= old(self)@.reverse());
        }
        out
    }

    /// Push every item of `items`, draining it from its back.
    pub fn push_from_iter(&mut self, items: Vec<T>)
        ensures
            final(self)@ == old(self)@ + items@.reverse(),
    {
        let ghost items0 = items@;
        let mut rem = items;
        while rem.len() > 0
            invariant
                self@ + rem@.reverse() =~= old(self)@ + items0.reverse(),
            decreases rem@.len(),
        {
            let x = rem.pop();
            match x {
                Some(v) => {
                    self.push(v);
                    proof {
                        assert(self@ + rem@.reverse() =~= old(self)@ + items0.reverse());
                    }
                },
                None => {},
            }
        }
        proof {
            assert(self@ =~= old(self)@ + items0.reverse());
        }
    }
}

} // verus!
