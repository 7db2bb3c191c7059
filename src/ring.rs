//! A ring buffer that keeps the last `CAP` items pushed.

use vstd::prelude::*;

verus! {

/// The capacity of the event logs.
pub const DEFAULT_CAP: usize = 30;

/// The last `CAP` items pushed, oldest first. Once full, each push
/// overwrites the oldest item.
#[derive(Debug)]
pub struct Ring<T, const CAP: usize> {
    items: Vec<T>,
    index: usize,
}

impl<T, const CAP: usize> View for Ring<T, CAP> {
    type V = Seq<T>;

    closed spec fn view(&self) -> Seq<T> {
        if self.items@.len() == CAP {
            self.items@.subrange(self.index as int, CAP as int) + self.items@.subrange(0, self.index as int)
        } else {
            self.items@
        }
    }
}

impl<T, const CAP: usize> Ring<T, CAP> {
    /// Whether the storage is laid out as the ring expects.
    pub closed spec fn wf(&self) -> bool {
        &&& CAP > 0
        &&& self.items@.len() <= CAP
        &&& self.items@.len() < CAP ==> self.index == self.items@.len()
        &&& self.items@.len() == CAP ==> self.index < CAP
    }

    /// An empty ring.
    pub fn new() -> (r: Self)
        requires
            CAP > 0,
        ensures
            r.wf(),
            r@ == Seq::<T>::empty(),
    {
        Ring { items: Vec::new(), index: 0 }
    }

    /// How many items it holds.
    pub fn len(&self) -> (r: usize)
        requires
            self.wf(),
        ensures
            r == self@.len(),
            r <= CAP,
    {
        if self.is_full() {
            CAP
        } else {
            self.index
        }
    }

    /// Whether it holds `CAP` items.
    pub fn is_full(&self) -> (r: bool)
        requires
            self.wf(),
        ensures
            r == (self@.len() == CAP),
    {
        self.items.len() == CAP
    }

    /// The `i`-th item, oldest first.
    pub fn get(&self, i: usize) -> (r: &T)
        requires
            self.wf(),
            i < self@.len(),
        ensures
            *r == self@[i as int],
    {
        if self.items.len() == CAP {
            let k = CAP - self.index;
            if i < k {
                &self.items[self.index + i]
            } else {
                &self.items[i - k]
            }
        } else {
            &self.items[i]
        }
    }

    /// Adds `elem` as the newest item, dropping the oldest one when full.
    #[verifier::spinoff_prover]
    #[verifier::rlimit(30)]
    pub fn push(&mut self, elem: T)
        requires
            old(self).wf(),
        ensures
            final(self).wf(),
            final(self)@ == if old(self)@.len() == CAP {
                old(self)@.drop_first().push(elem)
            } else {
                old(self)@.push(elem)
            },
    {
        let ghost before = self.items@;
        let ghost idx = self.index as int;
        if self.items.len() == CAP {
            self.items.set(self.index, elem);
            proof {
                let after = self.items@;
                assert(after =~= before.update(idx, elem));
                if idx + 1 < CAP {
                    assert(after.subrange(idx + 1, CAP as int) + after.subrange(0, idx + 1) =~= (
                    before.subrange(idx, CAP as int) + before.subrange(0, idx)).drop_first().push(elem));
                } else {
                    assert(after.subrange(0, CAP as int) + after.subrange(0, 0) =~= (before.subrange(
                        idx,
                        CAP as int,
                    ) + before.subrange(0, idx)).drop_first().push(elem));
                }
            }
        } else {
            self.items.push(elem);
            proof {
                if self.items@.len() == CAP {
                    assert(self.items@.subrange(0, CAP as int) + self.items@.subrange(0, 0)
                        =~= before.push(elem));
                }
            }
        }
        self.inc();
    }

    /// Empties it.
    pub fn clear(&mut self)
        requires
            old(self).wf(),
        ensures
            final(self).wf(),
            final(self)@ == Seq::<T>::empty(),
    {
        self.items.clear();
        self.index = 0;
    }

    fn inc(&mut self)
        requires
            CAP > 0,
            old(self).index < CAP,
        ensures
            final(self).items == old(self).items,
            final(self).index == if old(self).index + 1 == CAP {
                0
            } else {
                old(self).index + 1
            },
    {
        if self.index + 1 == CAP {
            self.index = 0;
        } else {
            self.index += 1;
        }
    }
}

} // verus!
