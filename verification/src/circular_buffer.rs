//! A bounded first-in-first-out buffer over an arbitrary element type. The
//! bound is fixed at construction; writing to a full buffer and reading from
//! an empty one fail, while `overwrite` evicts the oldest element instead.

use vstd::prelude::*;

verus! {

pub struct CircularBuffer<T> {
    data: Vec<T>,
    capacity: usize,
}

#[derive(Debug, PartialEq, Eq, Structural)]
pub enum Error {
    EmptyBuffer,
    FullBuffer,
}

impl<T> CircularBuffer<T> {
    /// The queued elements, oldest first.
    pub closed spec fn contents(&self) -> Seq<T> {
        self.data@
    }

    /// The fixed bound on how many elements may be queued at once.
    pub closed spec fn cap(&self) -> nat {
        self.capacity as nat
    }

    /// The buffer never holds more elements than its bound.
    pub closed spec fn wf(&self) -> bool {
        self.data@.len() <= self.capacity
    }

    fn is_full(&self) -> (r: bool)
        ensures
            r == (self.contents().len() == self.cap()),
    {
        self.data.len() == self.capacity
    }

    fn dequeue(&mut self) -> (r: T)
        requires
            old(self).contents().len() > 0,
        ensures
            r == old(self).contents()[0],
            final(self).contents() == old(self).contents().subrange(
                1,
                old(self).contents().len() as int,
            ),
            final(self).cap() == old(self).cap(),
    {
        self.data.remove(0)
    }

    fn push(&mut self, element: T)
        ensures
            final(self).contents() == old(self).contents().push(element),
            final(self).cap() == old(self).cap(),
    {
        self.data.push(element);
    }

    pub fn new(capacity: usize) -> (r: Self)
        ensures
            r.wf(),
            r.cap() == capacity,
            r.contents() == Seq::<T>::empty(),
    {
        CircularBuffer { data: Vec::with_capacity(capacity), capacity }
    }

    /// Queue `element`, unless the buffer is already at its bound.
    pub fn write(&mut self, element: T) -> (r: Result<(), Error>)
        requires
            old(self).wf(),
        ensures
            final(self).wf(),
            final(self).cap() == old(self).cap(),
            old(self).contents().len() == old(self).cap() ==> r == Result::<(), Error>::Err(
                Error::FullBuffer,
            ) && final(self).contents() == old(self).contents(),
            old(self).contents().len() < old(self).cap() ==> r == Result::<(), Error>::Ok(())
                && final(self).contents() == old(self).contents().push(element),
    {
        match self.is_full() {
            true => Err(Error::FullBuffer),
            false => Ok(self.push(element)),
        }
    }

    /// Hand out the oldest element, unless the buffer is empty.
    pub fn read(&mut self) -> (r: Result<T, Error>)
        requires
            old(self).wf(),
        ensures
            final(self).wf(),
            final(self).cap() == old(self).cap(),
            old(self).contents().len() == 0 ==> r == Result::<T, Error>::Err(Error::EmptyBuffer)
                && final(self).contents() == old(self).contents(),
            old(self).contents().len() > 0 ==> r == Result::<T, Error>::Ok(
                old(self).contents()[0],
            ) && final(self).contents() == old(self).contents().subrange(
                1,
                old(self).contents().len() as int,
            ),
    {
        match self.data.is_empty() {
            true => Err(Error::EmptyBuffer),
            false => Ok(self.dequeue()),
        }
    }

    /// Drop every queued element; the bound stays.
    pub fn clear(&mut self)
        ensures
            final(self).wf(),
            final(self).cap() == old(self).cap(),
            final(self).contents() == Seq::<T>::empty(),
    {
        self.data.clear()
    }

    /// Queue `element`, evicting the oldest element first when the buffer is
    /// at its bound.
    pub fn overwrite(&mut self, element: T)
        requires
            old(self).wf(),
            old(self).cap() > 0,
        ensures
            final(self).wf(),
            final(self).cap() == old(self).cap(),
            old(self).contents().len() == old(self).cap() ==> final(self).contents() == old(
                self,
            ).contents().subrange(1, old(self).contents().len() as int).push(element),
            old(self).contents().len() < old(self).cap() ==> final(self).contents() == old(
                self,
            ).contents().push(element),
    {
        if self.is_full() {
            self.dequeue();
        }
        self.push(element);
    }
}

} // verus!
