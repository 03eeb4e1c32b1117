//! The spill container: an append-only typed vector.
//!
//! In the original engine the backing store is a private temporary file
//! grown by resize-and-remap, so tens of millions of fixed-size records
//! ride the page cache instead of the heap.  The verified container keeps
//! the same interface and growth arithmetic over owned storage; the
//! file-backed variant is the surrounding application's concern.

use vstd::prelude::*;

verus! {

/// Append-only typed vector with reserve-ahead growth.
pub struct MapQueue<T: Copy> {
    data: Vec<T>,
    capacity: usize,
}

impl<T: Copy> MapQueue<T> {
    /// The stored elements, oldest first.
    pub closed spec fn view(&self) -> Seq<T> {
        self.data@
    }

    pub closed spec fn spec_capacity(&self) -> usize {
        self.capacity
    }

    /// The element count never passes the reserved capacity, and both stay
    /// small enough for the growth arithmetic.
    pub closed spec fn wf(&self) -> bool {
        &&& self.data@.len() <= self.capacity
        &&& self.capacity <= 0x2000_0000
    }

    /// An empty container with nothing reserved.
    pub fn new() -> (r: Self)
        ensures
            r.wf(),
            r.view() =~= Seq::<T>::empty(),
            r.spec_capacity() == 0,
    {
        MapQueue { data: Vec::new(), capacity: 0 }
    }

    /// An empty container with room for `capacity` elements.
    pub fn with_capacity(capacity: usize) -> (r: Result<Self, ()>)
        requires
            capacity <= 0x2000_0000,
        ensures
            r matches Ok(q) && q.wf() && q.view() =~= Seq::<T>::empty() && q.spec_capacity()
                == capacity,
    {
        let mut q: MapQueue<T> = MapQueue::new();
        q.reserve(capacity)?;
        Ok(q)
    }

    pub fn len(&self) -> (r: usize)
        ensures
            r == self.view().len(),
    {
        self.data.len()
    }

    pub fn is_empty(&self) -> (r: bool)
        ensures
            r == (self.view().len() == 0),
    {
        self.data.len() == 0
    }

    pub fn capacity(&self) -> (r: usize)
        ensures
            r == self.spec_capacity(),
    {
        self.capacity
    }

    /// Forgets the contents; the reservation stays.
    pub fn clear(&mut self)
        requires
            old(self).wf(),
        ensures
            final(self).wf(),
            final(self).view() =~= Seq::<T>::empty(),
            final(self).spec_capacity() == old(self).spec_capacity(),
    {
        self.data.clear();
    }

    /// Shortens to `new_len` elements; a longer request changes nothing.
    pub fn truncate(&mut self, new_len: usize)
        requires
            old(self).wf(),
        ensures
            final(self).wf(),
            final(self).spec_capacity() == old(self).spec_capacity(),
            new_len < old(self).view().len() ==> final(self).view() =~= old(self).view().take(
                new_len as int,
            ),
            new_len >= old(self).view().len() ==> final(self).view() =~= old(self).view(),
    {
        if new_len < self.data.len() {
            self.data.truncate(new_len);
        }
    }

    /// Reserves room for at least `new_capacity` elements.  (The original
    /// grows by re-creating the backing file at the new size and copying
    /// the live prefix.)
    pub fn reserve(&mut self, new_capacity: usize) -> (r: Result<(), ()>)
        requires
            old(self).wf(),
            new_capacity <= 0x2000_0000,
        ensures
            final(self).wf(),
            r is Ok,
            final(self).view() =~= old(self).view(),
            final(self).spec_capacity() == if new_capacity <= old(self).spec_capacity() {
                old(self).spec_capacity() as int
            } else {
                new_capacity as int
            },
    {
        if new_capacity <= self.capacity {
            return Ok(());
        }
        self.data.reserve(new_capacity - self.data.len());
        self.capacity = new_capacity;
        Ok(())
    }

    /// The capacity after growing for at least `min_capacity`: half again
    /// the current reservation (from an initial kilobyte), or the demand
    /// itself if larger.
    pub fn grow_capacity(&self, min_capacity: usize) -> (r: usize)
        requires
            self.wf(),
            min_capacity <= 0x2000_0000,
        ensures
            r == if (if self.spec_capacity() == 0 {
                1024int
            } else {
                self.spec_capacity() + self.spec_capacity() / 2
            }) > min_capacity {
                if self.spec_capacity() == 0 {
                    1024int
                } else {
                    self.spec_capacity() + self.spec_capacity() / 2
                }
            } else {
                min_capacity as int
            },
            min_capacity <= r <= 0x3000_0000,
    {
        let grown: usize = if self.capacity == 0 {
            1024
        } else {
            self.capacity + self.capacity / 2
        };
        if grown > min_capacity {
            grown
        } else {
            min_capacity
        }
    }

    /// Appends one element, growing the reservation when it is full.
    pub fn push(&mut self, value: T) -> (r: Result<(), ()>)
        requires
            old(self).wf(),
            old(self).view().len() + 1 <= 0x2000_0000,
        ensures
            final(self).wf(),
            r is Ok,
            final(self).view() =~= old(self).view().push(value),
    {
        if self.data.len() == self.capacity {
            let need: usize = self.data.len() + 1;
            let grown: usize = self.grow_capacity(need);
            let capped: usize = if grown > 0x2000_0000 {
                0x2000_0000
            } else {
                grown
            };
            self.reserve(capped)?;
        }
        self.data.push(value);
        Ok(())
    }

    /// Appends a whole slice in order.
    pub fn extend_from_slice(&mut self, values: &[T]) -> (r: Result<(), ()>)
        requires
            old(self).wf(),
            old(self).view().len() + values@.len() <= 0x2000_0000,
        ensures
            final(self).wf(),
            r is Ok,
            final(self).view() =~= old(self).view() + values@,
    {
        let n: usize = values.len();
        let mut i: usize = 0;
        while i < n
            invariant
                i <= n,
                n == values@.len(),
                self.wf(),
                old(self).view().len() + n <= 0x2000_0000,
                self.view() =~= old(self).view() + values@.take(i as int),
            decreases n - i,
        {
            proof {
                assert((old(self).view() + values@.take(i as int)).push(values@[i as int]) =~= old(self).view() + values@.take(i + 1));
            }
            let v: T = *vstd::slice::slice_index_get(values, i);
            self.push(v)?;
            i += 1;
        }
        proof {
            assert(values@.take(n as int) =~= values@);
        }
        Ok(())
    }

    /// Removes and returns the last element.
    pub fn pop(&mut self) -> (r: Option<T>)
        requires
            old(self).wf(),
        ensures
            final(self).wf(),
            final(self).spec_capacity() == old(self).spec_capacity(),
            old(self).view().len() == 0 ==> r is None && final(self).view() =~= old(self).view(),
            old(self).view().len() > 0 ==> r == Some(old(self).view().last()) && final(self).view() =~= old(self).view().drop_last(),
    {
        self.data.pop()
    }

    /// Grows or shrinks to `new_len` elements, filling new slots with
    /// `value`.
    pub fn resize(&mut self, new_len: usize, value: T) -> (r: Result<(), ()>)
        requires
            old(self).wf(),
            new_len <= 0x2000_0000,
        ensures
            final(self).wf(),
            r is Ok,
            final(self).view().len() == new_len,
            forall|i: int|
                0 <= i < new_len ==> final(self).view()[i] == if i < old(self).view().len() {
                    old(self).view()[i]
                } else {
                    value
                },
    {
        if new_len <= self.data.len() {
            self.data.truncate(new_len);
            Ok(())
        } else {
            while self.data.len() < new_len
                invariant
                    self.wf(),
                    new_len <= 0x2000_0000,
                    old(self).view().len() <= self.view().len() <= new_len,
                    forall|i: int|
                        0 <= i < self.view().len() ==> self.view()[i] == if i < old(self).view().len() {
                            old(self).view()[i]
                        } else {
                            value
                        },
                decreases new_len - self.view().len(),
            {
                let need: usize = self.data.len() + 1;
                if self.data.len() == self.capacity {
                    let grown: usize = self.grow_capacity(need);
                    let capped: usize = if grown > 0x2000_0000 {
                        0x2000_0000
                    } else {
                        grown
                    };
                    self.reserve(capped)?;
                }
                self.data.push(value);
            }
            Ok(())
        }
    }

    /// The element at `index`.
    pub fn get(&self, index: usize) -> (r: Option<&T>)
        ensures
            index < self.view().len() ==> (r matches Some(v) && *v == self.view()[index as int]),
            index >= self.view().len() ==> r is None,
    {
        if index < self.data.len() {
            Some(&self.data[index])
        } else {
            None
        }
    }

    /// Overwrites the element at `index`.
    pub fn set(&mut self, index: usize, value: T)
        requires
            old(self).wf(),
            index < old(self).view().len(),
        ensures
            final(self).wf(),
            final(self).spec_capacity() == old(self).spec_capacity(),
            final(self).view() =~= old(self).view().update(index as int, value),
    {
        self.data.set(index, value);
    }

    pub fn first(&self) -> (r: Option<&T>)
        ensures
            self.view().len() > 0 ==> (r matches Some(v) && *v == self.view()[0]),
            self.view().len() == 0 ==> r is None,
    {
        self.get(0)
    }

    pub fn last(&self) -> (r: Option<&T>)
        ensures
            self.view().len() > 0 ==> (r matches Some(v) && *v == self.view().last()),
            self.view().len() == 0 ==> r is None,
    {
        if self.data.len() == 0 {
            None
        } else {
            self.get(self.data.len() - 1)
        }
    }

    /// The contents as a slice.
    pub fn as_slice(&self) -> (r: &[T])
        ensures
            r@ == self.view(),
    {
        self.data.as_slice()
    }
}

} // verus!
