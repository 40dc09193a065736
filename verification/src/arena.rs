use crate::err::Error;
use vstd::prelude::*;

verus! {

/// A bump-pointer arena over one contiguous byte region.
///
/// The allocator hands out *handles*: absolute offsets into the process-wide
/// address space of regions, starting at `base`. Allocation advances a cursor
/// (`end`); reclamation happens only in LIFO order through [`Allocator::dealloc`]
/// or in bulk through [`Allocator::clear`]. A child arena is a sub-lease carved
/// at the parent's cursor; its backing range stays accounted to the parent.
/// A handle is an index, not a machine address, so a request is charged its
/// exact byte size and no alignment padding is inserted.
pub struct Allocator {
    base: usize,
    capacity: usize,
    end: usize,
}

impl Allocator {
    /// Handle of the first byte of this arena's region.
    pub closed spec fn spec_base(&self) -> int {
        self.base as int
    }

    /// Total number of bytes the arena owns.
    pub closed spec fn spec_cap(&self) -> int {
        self.capacity as int
    }

    /// Current cursor: bytes `[base, base + end)` are carved out.
    pub closed spec fn spec_end(&self) -> int {
        self.end as int
    }

    /// Bytes still available.
    pub open spec fn spec_free(&self) -> int {
        self.spec_cap() - self.spec_end()
    }

    /// The cursor stays inside the region and handles never overflow.
    pub open spec fn wf(&self) -> bool {
        &&& 0 <= self.spec_end() <= self.spec_cap()
        &&& 0 <= self.spec_base()
        &&& self.spec_base() + self.spec_cap() <= usize::MAX
    }

    /// Reserves `capacity` bytes with the cursor at zero.
    pub fn new(capacity: usize) -> (r: Allocator)
        ensures
            r.wf(),
            r.spec_base() == 0,
            r.spec_cap() == capacity,
            r.spec_end() == 0,
    {
        Allocator { base: 0, capacity, end: 0 }
    }

    /// Carves `size` bytes and returns the handle of the region's first byte.
    /// Fails with `Error::Allocation`, leaving the cursor untouched, whenever
    /// the request exceeds the free space; there is no partial allocation.
    pub fn reserve(&mut self, size: usize) -> (r: Result<usize, Error>)
        requires
            old(self).wf(),
        ensures
            final(self).wf(),
            final(self).spec_base() == old(self).spec_base(),
            final(self).spec_cap() == old(self).spec_cap(),
            size > old(self).spec_free() ==> r == Err::<usize, Error>(Error::Allocation)
                && final(self).spec_end() == old(self).spec_end(),
            size <= old(self).spec_free() ==> r is Ok && r.unwrap() == old(self).spec_base()
                + old(self).spec_end() && final(self).spec_end() == old(self).spec_end() + size,
    {
        if size > self.capacity - self.end {
            Err(Error::Allocation)
        } else {
            let handle = self.base + self.end;
            self.end = self.end + size;
            Ok(handle)
        }
    }

    /// Carves `capacity` bytes and turns them into a fresh arena with its own
    /// zero cursor. The parent's cursor advances by the child's capacity at
    /// creation time; the child's range never returns to the parent except by
    /// the LIFO rule of [`Allocator::dealloc`].
    pub fn child(&mut self, capacity: usize) -> (r: Result<Allocator, Error>)
        requires
            old(self).wf(),
        ensures
            final(self).wf(),
            final(self).spec_base() == old(self).spec_base(),
            final(self).spec_cap() == old(self).spec_cap(),
            capacity > old(self).spec_free() ==> r is Err
                && r == Err::<Allocator, Error>(Error::Allocation)
                && final(self).spec_end() == old(self).spec_end(),
            capacity <= old(self).spec_free() ==> r is Ok
                && final(self).spec_end() == old(self).spec_end() + capacity
                && r.unwrap().wf()
                && r.unwrap().spec_base() == old(self).spec_base() + old(self).spec_end()
                && r.unwrap().spec_cap() == capacity
                && r.unwrap().spec_end() == 0,
    {
        let base = self.reserve(capacity)?;
        Ok(Allocator { base, capacity, end: 0 })
    }

    /// Total capacity in bytes.
    pub fn capacity(&self) -> (r: usize)
        ensures
            r == self.spec_cap(),
    {
        self.capacity
    }

    /// Handle of the arena's first byte.
    pub fn bytes(&self) -> (r: usize)
        ensures
            r == self.spec_base(),
    {
        self.base
    }

    /// Bytes still available for allocation.
    pub fn free_size(&self) -> (r: usize)
        requires
            self.wf(),
        ensures
            r == self.spec_free(),
    {
        self.capacity - self.end
    }

    /// Reclaims a region only when it is exactly the most recent allocation
    /// (`handle + size` meets the cursor); any other call is a silent no-op.
    /// This is a deliberate LIFO discipline, not a general free list.
    pub fn dealloc(&mut self, handle: usize, size: usize)
        requires
            old(self).wf(),
        ensures
            final(self).wf(),
            final(self).spec_base() == old(self).spec_base(),
            final(self).spec_cap() == old(self).spec_cap(),
            (size <= old(self).spec_end() && handle == old(self).spec_base()
                + old(self).spec_end() - size) ==> final(self).spec_end()
                == old(self).spec_end() - size,
            !(size <= old(self).spec_end() && handle == old(self).spec_base()
                + old(self).spec_end() - size) ==> final(self).spec_end()
                == old(self).spec_end(),
    {
        if size <= self.end && handle == self.base + (self.end - size) {
            self.end = self.end - size;
        }
    }

    /// Resets the cursor to zero, invalidating every outstanding allocation.
    pub fn clear(&mut self)
        requires
            old(self).wf(),
        ensures
            final(self).wf(),
            final(self).spec_base() == old(self).spec_base(),
            final(self).spec_cap() == old(self).spec_cap(),
            final(self).spec_end() == 0,
    {
        self.end = 0;
    }
}

} // verus!
