//! A first-in, first-out log of values: values are appended at the back and
//! popped from the front, in the order in which they came.

use std::collections::VecDeque;

use vstd::prelude::*;

verus! {

/// An append/pop log; `length` counts the values it holds.
pub struct TransactionLog<T> {
    values: VecDeque<T>,
    length: u64,
}

impl<T> View for TransactionLog<T> {
    type V = Seq<T>;

    /// The values held, oldest first.
    closed spec fn view(&self) -> Seq<T> {
        self.values@
    }
}

impl<T> TransactionLog<T> {
    /// The counter agrees with the number of values held.
    pub closed spec fn wf(&self) -> bool {
        self.length == self.values@.len()
    }

    /// An empty log.
    pub fn new_empty() -> (r: TransactionLog<T>)
        ensures
            r.wf(),
            r@ == Seq::<T>::empty(),
    {
        TransactionLog { values: VecDeque::new(), length: 0 }
    }

    /// Appends `value` after every value already held.
    pub fn append(&mut self, value: T)
        requires
            old(self).wf(),
            old(self)@.len() < u64::MAX,
        ensures
            final(self).wf(),
            final(self)@ == old(self)@.push(value),
    {
        self.values.push_back(value);
        self.length = self.length + 1;
    }

    /// Removes and returns the oldest value, or `None` when the log is empty.
    pub fn pop(&mut self) -> (r: Option<T>)
        requires
            old(self).wf(),
        ensures
            final(self).wf(),
            old(self)@.len() == 0 ==> r is None && final(self)@ == old(self)@,
            old(self)@.len() > 0 ==> r == Some(old(self)@[0]) && final(self)@ == old(self)@.drop_first(),
    {
        let r = self.values.pop_front();
        if r.is_some() {
            self.length = self.length - 1;
        }
        r
    }

    /// Number of values held.
    pub fn length(&self) -> (r: u64)
        requires
            self.wf(),
        ensures
            r == self@.len(),
    {
        self.length
    }
}

impl<T: Clone> TransactionLog<T> {
    /// A cursor over clones of the values, placed on the oldest one.
    pub fn iter(&self) -> (r: ListIterator<T>)
        requires
            self.wf(),
        ensures
            r.wf(),
            r.items().len() == self@.len(),
            forall|i: int| 0 <= i < self@.len() ==> cloned(self@[i], #[trigger] r.items()[i]),
            r.position() == (if self@.len() == 0 {
                None::<int>
            } else {
                Some(0int)
            }),
    {
        let values = self.values.clone();
        let start = if values.len() == 0 {
            None
        } else {
            Some(0)
        };
        ListIterator::new(values, start)
    }
}

impl<T> TransactionLog<T> {
    /// A cursor over the values, placed on the newest one.
    pub fn back_iter(self) -> (r: ListIterator<T>)
        requires
            self.wf(),
        ensures
            r.wf(),
            r.items() == self@,
            r.position() == (if self@.len() == 0 {
                None::<int>
            } else {
                Some(self@.len() - 1)
            }),
    {
        let n = self.values.len();
        let start = if n == 0 {
            None
        } else {
            Some(n - 1)
        };
        ListIterator::new(self.values, start)
    }
}

/// A cursor over a log's values. It stands on one value, or on none once it
/// has walked off either end.
pub struct ListIterator<T> {
    values: VecDeque<T>,
    current: Option<usize>,
}

impl<T> ListIterator<T> {
    /// The values walked over, oldest first.
    pub closed spec fn items(&self) -> Seq<T> {
        self.values@
    }

    /// The index of the value the cursor stands on.
    pub closed spec fn position(&self) -> Option<int> {
        match self.current {
            Some(c) => Some(c as int),
            None => None,
        }
    }

    /// The position, if any, lies within the values.
    pub closed spec fn wf(&self) -> bool {
        match self.current {
            Some(c) => c < self.values@.len(),
            None => true,
        }
    }

    fn new(values: VecDeque<T>, start_at: Option<usize>) -> (r: ListIterator<T>)
        requires
            match start_at {
                Some(c) => c < values@.len(),
                None => true,
            },
        ensures
            r.wf(),
            r.items() == values@,
            r.current == start_at,
    {
        ListIterator { values, current: start_at }
    }
}

impl<T: Clone> ListIterator<T> {
    /// Yields a clone of the current value and steps to the next newer one;
    /// `None` once the cursor stands on nothing.
    pub fn next(&mut self) -> (r: Option<T>)
        requires
            old(self).wf(),
        ensures
            final(self).wf(),
            final(self).items() == old(self).items(),
            match old(self).position() {
                None => r is None && final(self).position() is None,
                Some(c) => {
                    &&& r is Some
                    &&& cloned(old(self).items()[c], r->0)
                    &&& final(self).position() == (if c + 1 < old(self).items().len() {
                        Some(c + 1)
                    } else {
                        None::<int>
                    })
                },
            },
    {
        match self.current {
            None => None,
            Some(c) => {
                let value = self.values[c].clone();
                let n = self.values.len();
                self.current = if c < n - 1 {
                    Some(c + 1)
                } else {
                    None
                };
                Some(value)
            },
        }
    }

    /// Yields a clone of the current value and steps to the next older one;
    /// `None` once the cursor stands on nothing.
    pub fn next_back(&mut self) -> (r: Option<T>)
        requires
            old(self).wf(),
        ensures
            final(self).wf(),
            final(self).items() == old(self).items(),
            match old(self).position() {
                None => r is None && final(self).position() is None,
                Some(c) => {
                    &&& r is Some
                    &&& cloned(old(self).items()[c], r->0)
                    &&& final(self).position() == (if c > 0 {
                        Some(c - 1)
                    } else {
                        None::<int>
                    })
                },
            },
    {
        match self.current {
            None => None,
            Some(c) => {
                let value = self.values[c].clone();
                self.current = if c > 0 {
                    Some(c - 1)
                } else {
                    None
                };
                Some(value)
            },
        }
    }
}

} // verus!
