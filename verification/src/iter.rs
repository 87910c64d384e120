//! Taking a ring apart: its nodes, one at a time, in ring order.

use vstd::prelude::*;


verus! {

/// The nodes of a consumed ring, handed out in ascending order of position.
pub struct HashRingIterator<T> {
    /// The nodes still to come, the next one last.
    rest: Vec<T>,
}

impl<T> View for HashRingIterator<T> {
    type V = Seq<T>;

    /// The nodes still to come, the next one first.
    closed spec fn view(&self) -> Seq<T> {
        self.rest@.reverse()
    }
}

impl<T> HashRingIterator<T> {
    /// An iterator over the nodes of `rest` taken from the back.
    pub(crate) fn from_back(rest: Vec<T>) -> (it: HashRingIterator<T>)
        ensures
            it@ == rest@.reverse(),
    {
        HashRingIterator { rest }
    }

    /// The next node in ring order, or `None` when every node has been
    /// handed out.
    pub fn next(&mut self) -> (r: Option<T>)
        ensures
            old(self)@.len() == 0 ==> r is None && final(self)@ == old(self)@,
            old(self)@.len() > 0 ==> r == Some(old(self)@[0]) && final(self)@ == old(self)@.drop_first(),
    {
        let ghost before = self@;
        let r = self.rest.pop();
        proof {
            if before.len() > 0 {
                assert(self@ =~= before.drop_first());
            }
        }
        r
    }
}

} // verus!
