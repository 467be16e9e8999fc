//! Owning and borrowed handles to header-preceded blocks.
//!
//! An [`AscBox`] owns one block: it is created only by the constructors of
//! this crate, right after the allocation, and it is neither `Clone` nor
//! `Copy`, so a block is released at most once. An [`AscRef`] is a plain view
//! of a block that somebody else owns (the guest or the host); it has no way
//! to release anything. The type parameter names the layout that the block
//! holds.

use crate::heap::{block_size, rt_size_of, BlockLayout, Heap, ALIGN, DATA_OFFSET, MEMORY_LIMIT};
use crate::sequence::{bytes_at, units_at};
use vstd::prelude::*;

verus! {

/// Layout marker: a block whose payload is a run of `E`.
#[derive(Clone, Copy)]
pub struct AscSlice<E> {
    marker: Ghost<Option<E>>,
}

/// An owned block that holds a `T`.
pub struct AscBox<T> {
    ptr: u32,
    marker: Ghost<Option<T>>,
}

/// A borrowed block that holds a `T`.
#[derive(Clone, Copy)]
pub struct AscRef<T> {
    ptr: u32,
    marker: Ghost<Option<T>>,
}

/// An owned block that holds a `T`, or the null pointer.
pub struct AscNullableBox<T> {
    ptr: u32,
    marker: Ghost<Option<T>>,
}

/// Either a borrowed or an owned block.
pub enum AscCow<T> {
    Borrowed(AscRef<T>),
    Owned(AscBox<T>),
}

impl<T> View for AscBox<T> {
    type V = u32;

    closed spec fn view(&self) -> u32 {
        self.ptr
    }
}

impl<T> View for AscRef<T> {
    type V = u32;

    closed spec fn view(&self) -> u32 {
        self.ptr
    }
}

impl<T> View for AscNullableBox<T> {
    type V = u32;

    closed spec fn view(&self) -> u32 {
        self.ptr
    }
}

impl<T> AscCow<T> {
    /// The data pointer of the block, whoever owns it.
    pub open spec fn ptr(&self) -> u32 {
        match self {
            AscCow::Borrowed(r) => r@,
            AscCow::Owned(b) => b@,
        }
    }

    /// A borrowed view of the block.
    pub fn as_asc_ref(&self) -> (r: AscRef<T>)
        ensures
            r@ == self.ptr(),
    {
        match self {
            AscCow::Borrowed(r) => AscRef { ptr: r.ptr, marker: Ghost(None) },
            AscCow::Owned(b) => b.as_asc_ref(),
        }
    }
}

impl<T> AscBox<T> {
    /// What every owned block's pointer is: a data pointer, so not null and
    /// aligned.
    #[verifier::type_invariant]
    spec fn inv(&self) -> bool {
        self.ptr >= DATA_OFFSET && self.ptr % ALIGN == 0
    }

    /// Takes ownership of the block at `ptr`, which was just allocated or is
    /// being released.
    pub(crate) fn from_ptr(ptr: u32) -> (r: AscBox<T>)
        requires
            ptr >= DATA_OFFSET,
            ptr % ALIGN == 0,
        ensures
            r@ == ptr,
    {
        AscBox { ptr, marker: Ghost(None) }
    }

    /// Data pointer of the block, as handed to the host: not null, aligned,
    /// and the same on every call.
    pub fn as_ptr(&self) -> (r: u32)
        ensures
            r == self@,
            r != 0,
            r >= DATA_OFFSET,
            r % ALIGN == 0,
    {
        proof {
            use_type_invariant(self);
        }
        self.ptr
    }

    /// A borrowed view of the block; ownership stays here.
    pub fn as_asc_ref(&self) -> (r: AscRef<T>)
        ensures
            r@ == self@,
    {
        AscRef { ptr: self.ptr, marker: Ghost(None) }
    }

    /// The block as a borrowed copy-on-write handle.
    pub fn borrowed(&self) -> (r: AscCow<T>)
        ensures
            r is Borrowed,
            r.ptr() == self@,
    {
        AscCow::Borrowed(self.as_asc_ref())
    }

    /// The block as an owned copy-on-write handle.
    pub fn owned(self) -> (r: AscCow<T>)
        ensures
            r is Owned,
            r.ptr() == self@,
    {
        AscCow::Owned(self)
    }

    /// Releases this block alone (not the blocks that it points to) and
    /// returns the layout read back from its header.
    pub fn release(self, heap: &mut Heap) -> (r: BlockLayout)
        requires
            old(heap).wf(),
            old(heap).is_block(self@ as int),
        ensures
            final(heap).wf(),
            final(heap).mem() == old(heap).mem(),
            forall|q: int| #[trigger] final(heap).is_block(q) == old(heap).is_block(q),
            r.root == self@ - DATA_OFFSET,
            r.size == block_size(rt_size_of(old(heap).mem(), self@ as int) as int),
            r.align == ALIGN,
            old(heap).live().contains(self@) ==> exists|i: int|
                0 <= i < old(heap).live().len() && old(heap).live()[i] == self@
                    && final(heap).live() == old(heap).live().remove(i),
            !old(heap).live().contains(self@) ==> final(heap).live() == old(heap).live(),
            final(heap).released_from(*old(heap)),
            !final(heap).live().contains(self@),
            forall|q: u32| #[trigger] old(heap).live().contains(q) && q != self@ ==> final(heap).live().contains(q),
            final(heap).only_below(*old(heap), self@ + 1),
    {
        heap.deallocate(self.ptr)
    }
}

impl AscBox<AscSlice<u16>> {
    /// Allocates a sequence of the `len` 16-bit items of `items`; `None` when
    /// memory is exhausted. `items` must hold exactly `len` items.
    pub fn with_len(heap: &mut Heap, len: usize, items: Vec<u16>) -> (r: Option<AscBox<AscSlice<u16>>>)
        requires
            old(heap).wf(),
            items@.len() == len,
        ensures
            final(heap).wf(),
            r is Some <==> old(heap).mem().len() + block_size(2 * len as int) <= MEMORY_LIMIT,
            match r {
                Some(b) => {
                    &&& final(heap).grown_by(*old(heap), b@)
                    &&& units_at(final(heap).mem(), b@ as int) == items@
                    &&& units_at(final(heap).mem(), b@ as int).len() == len
                },
                None => *final(heap) == *old(heap),
            },
    {
        match heap.allocate_units(&items) {
            Some(p) => Some(AscBox::from_ptr(p)),
            None => None,
        }
    }
}

impl AscBox<AscSlice<u8>> {
    /// Allocates a sequence holding a copy of `items`.
    pub fn from_slice(heap: &mut Heap, items: &[u8]) -> (r: Option<AscBox<AscSlice<u8>>>)
        requires
            old(heap).wf(),
        ensures
            final(heap).wf(),
            r is Some <==> old(heap).mem().len() + block_size(items@.len() as int) <= MEMORY_LIMIT,
            match r {
                Some(b) => {
                    &&& final(heap).grown_by(*old(heap), b@)
                    &&& bytes_at(final(heap).mem(), b@ as int) == items@
                },
                None => *final(heap) == *old(heap),
            },
    {
        match heap.allocate_bytes(vstd::slice::slice_to_vec(items)) {
            Some(p) => Some(AscBox::from_ptr(p)),
            None => None,
        }
    }
}

impl AscRef<AscSlice<u16>> {
    /// The items, as many as the header's byte length holds whole.
    pub fn as_slice(&self, heap: &Heap) -> (r: Vec<u16>)
        requires
            heap.wf(),
            heap.is_block(self@ as int),
        ensures
            r@ == units_at(heap.mem(), self@ as int),
            r@.len() == rt_size_of(heap.mem(), self@ as int) / 2,
    {
        let n = heap.rt_size(self.ptr);
        assert(crate::heap::payload_of(heap.mem(), self@ as int).len() == n);
        heap.units_of(self.ptr)
    }
}

impl AscRef<AscSlice<u8>> {
    /// The bytes.
    pub fn as_slice(&self, heap: &Heap) -> (r: Vec<u8>)
        requires
            heap.wf(),
            heap.is_block(self@ as int),
        ensures
            r@ == bytes_at(heap.mem(), self@ as int),
    {
        heap.bytes_of(self.ptr)
    }
}

impl<T> AscRef<T> {
    /// A view of the block at `ptr`, which the caller has read from a record.
    pub(crate) fn at(ptr: u32) -> (r: AscRef<T>)
        ensures
            r@ == ptr,
    {
        AscRef { ptr, marker: Ghost(None) }
    }

    /// Reinterprets `ptr` as a view of the block whose data starts there;
    /// `None` when no block starts at `ptr`.
    pub fn from_ptr(heap: &Heap, ptr: u32) -> (r: Option<AscRef<T>>)
        ensures
            r is Some <==> heap.is_block(ptr as int),
            r matches Some(v) ==> v@ == ptr,
    {
        if heap.has_block(ptr) {
            Some(AscRef { ptr, marker: Ghost(None) })
        } else {
            None
        }
    }

    /// Data pointer of the block.
    pub fn as_ptr(&self) -> (r: u32)
        ensures
            r == self@,
    {
        self.ptr
    }

    /// The view as a borrowed copy-on-write handle.
    pub fn borrowed(&self) -> (r: AscCow<T>)
        ensures
            r is Borrowed,
            r.ptr() == self@,
    {
        AscCow::Borrowed(AscRef { ptr: self.ptr, marker: Ghost(None) })
    }
}

impl<T> AscNullableBox<T> {
    /// The null pointer: no value.
    pub fn null() -> (r: AscNullableBox<T>)
        ensures
            r@ == 0,
    {
        AscNullableBox { ptr: 0, marker: Ghost(None) }
    }

    /// Takes over the block that `b` owns.
    pub fn new(b: AscBox<T>) -> (r: AscNullableBox<T>)
        ensures
            r@ == b@,
            r@ != 0,
    {
        let p = b.as_ptr();
        AscNullableBox { ptr: p, marker: Ghost(None) }
    }

    /// Data pointer of the block, or 0.
    pub fn as_ptr(&self) -> (r: u32)
        ensures
            r == self@,
    {
        self.ptr
    }

    /// A view of the block, or `None` for the null pointer.
    pub fn as_asc_ref(&self) -> (r: Option<AscRef<T>>)
        ensures
            r is None <==> self@ == 0,
            r matches Some(v) ==> v@ == self@,
    {
        if self.ptr == 0 {
            None
        } else {
            Some(AscRef { ptr: self.ptr, marker: Ghost(None) })
        }
    }

    /// Releases the block if there is one; the null pointer leaves the heap
    /// as it was.
    pub fn release(self, heap: &mut Heap) -> (r: Option<BlockLayout>)
        requires
            old(heap).wf(),
            self@ != 0 ==> old(heap).is_block(self@ as int),
        ensures
            final(heap).wf(),
            self@ == 0 ==> r is None && *final(heap) == *old(heap),
            self@ != 0 ==> {
                &&& (r matches Some(l) && l.root == self@ - DATA_OFFSET)
                &&& final(heap).mem() == old(heap).mem()
                &&& old(heap).live().contains(self@) ==> final(heap).live().len() + 1
                    == old(heap).live().len()
            },
    {
        if self.ptr == 0 {
            None
        } else {
            proof {
                heap.lemma_block_below_top(self.ptr as int);
            }
            let b: AscBox<T> = AscBox::from_ptr(self.ptr);
            Some(b.release(heap))
        }
    }
}

} // verus!
