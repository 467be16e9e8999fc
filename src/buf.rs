//! Array buffers, and typed views into them.
//!
//! A typed array is a three-word record: the buffer it views, the absolute
//! address where its items start, and its length in bytes. The buffer is
//! allocated first, so it always lies below the record that views it.

use crate::boxed::{AscBox, AscRef, AscSlice};
use crate::heap::{block_size, rt_size_of, Heap, MEMORY_LIMIT};
use crate::sequence::{bytes_at, words_at};
use vstd::prelude::*;

verus! {

/// An item type that a typed array can view a buffer as.
pub trait AscTypedArrayItem {
    /// Bytes per item.
    spec fn spec_size() -> nat;

    fn size() -> (r: u32)
        ensures
            r == Self::spec_size(),
            1 <= r <= 8,
    ;
}

impl AscTypedArrayItem for u8 {
    open spec fn spec_size() -> nat {
        1
    }

    fn size() -> (r: u32) {
        1
    }
}

impl AscTypedArrayItem for u16 {
    open spec fn spec_size() -> nat {
        2
    }

    fn size() -> (r: u32) {
        2
    }
}

/// An owned host `ArrayBuffer`: a block of raw bytes.
pub struct AscArrayBuffer {
    inner: AscBox<AscSlice<u8>>,
}

impl View for AscArrayBuffer {
    type V = u32;

    closed spec fn view(&self) -> u32 {
        self.inner@
    }
}

/// Layout marker: a typed view of items `T` into an array buffer.
pub struct AscTypedArray<T> {
    marker: Ghost<Option<T>>,
}

/// The bytes that the typed array at `p` views, when its record is well
/// formed: its buffer is a block below it, and the view lies inside that
/// buffer.
pub open spec fn typed_array_bytes(heap: Heap, p: int) -> Option<Seq<u8>> {
    let w = words_at(heap.mem(), p);
    if heap.is_block(p) && w.len() >= 3 && w[0] < p && heap.is_block(w[0] as int) && w[0] <= w[1] && w[1] + w[2]
        <= w[0] + rt_size_of(heap.mem(), w[0] as int) {
        Some(heap.mem().subrange(w[1] as int, w[1] + w[2]))
    } else {
        None
    }
}

/// A typed array read the same in a memory that grew from the one it was
/// read in.
pub proof fn lemma_typed_array_kept(new: Heap, old: Heap, p: int)
    requires
        old.wf(),
        new.grows_from(old),
        old.is_block(p),
    ensures
        typed_array_bytes(new, p) == typed_array_bytes(old, p),
{
    new.lemma_keeps(old, p);
    old.lemma_block_below_top(p);
    let w = words_at(old.mem(), p);
    if w.len() >= 3 && w[0] < p {
        if old.is_block(w[0] as int) {
            new.lemma_keeps(old, w[0] as int);
            old.lemma_block_below_top(w[0] as int);
            if w[0] <= w[1] && w[1] + w[2] <= w[0] + rt_size_of(old.mem(), w[0] as int) {
                crate::heap::lemma_extends_subrange(new.mem(), old.mem(), w[1] as int, w[1] + w[2]);
            }
        }
    }
}

impl AscArrayBuffer {
    /// Allocates a buffer holding `bytes`; `None` when memory is exhausted.
    pub fn new(heap: &mut Heap, bytes: &[u8]) -> (r: Option<AscArrayBuffer>)
        requires
            old(heap).wf(),
        ensures
            final(heap).wf(),
            r is Some <==> old(heap).mem().len() + block_size(bytes@.len() as int) <= MEMORY_LIMIT,
            match r {
                Some(b) => {
                    &&& final(heap).grown_by(*old(heap), b@)
                    &&& bytes_at(final(heap).mem(), b@ as int) == bytes@
                },
                None => *final(heap) == *old(heap),
            },
    {
        let v = vstd::slice::slice_to_vec(bytes);
        match heap.allocate_bytes(v) {
            Some(p) => Some(AscArrayBuffer { inner: AscBox::from_ptr(p) }),
            None => None,
        }
    }

    /// The buffer's bytes.
    pub fn as_bytes(&self, heap: &Heap) -> (r: Vec<u8>)
        requires
            heap.wf(),
            heap.is_block(self@ as int),
        ensures
            r@ == bytes_at(heap.mem(), self@ as int),
    {
        heap.bytes_of(self.inner.as_ptr())
    }

    /// Data pointer of the buffer.
    pub fn as_ptr(&self) -> (r: u32)
        ensures
            r == self@,
    {
        self.inner.as_ptr()
    }
}

impl<T: AscTypedArrayItem> AscTypedArray<T> {
    /// Allocates a view of the whole of `buffer` as items `T`. A trailing
    /// part shorter than one item is left out of the view's byte length.
    pub fn new(heap: &mut Heap, buffer: AscArrayBuffer) -> (r: Option<AscBox<AscTypedArray<T>>>)
        requires
            old(heap).wf(),
            old(heap).is_block(buffer@ as int),
        ensures
            final(heap).wf(),
            r is Some <==> old(heap).mem().len() + block_size(12) <= MEMORY_LIMIT,
            match r {
                Some(a) => {
                    let len = rt_size_of(old(heap).mem(), buffer@ as int);
                    &&& final(heap).grown_by(*old(heap), a@)
                    &&& words_at(final(heap).mem(), a@ as int) == seq![
                        buffer@,
                        buffer@,
                        (len as int - len as int % T::spec_size() as int) as u32,
                    ]
                },
                None => *final(heap) == *old(heap),
            },
    {
        let b = buffer.as_ptr();
        let len = heap.rt_size(b);
        let sz = T::size();
        let trailing = len % sz;
        assert(trailing <= len) by (nonlinear_arith)
            requires
                trailing == len % sz,
                sz >= 1,
        ;
        let mut words: Vec<u32> = Vec::new();
        words.push(b);
        words.push(b);
        words.push(len - trailing);
        assert(words@ =~= seq![b, b, (len as int - len as int % T::spec_size() as int) as u32]);
        match heap.allocate_words(&words) {
            Some(p) => Some(AscBox::from_ptr(p)),
            None => None,
        }
    }
}

impl AscTypedArray<u8> {
    /// Allocates a buffer holding `bytes` and a byte view of all of it.
    pub fn from_bytes(heap: &mut Heap, bytes: &[u8]) -> (r: Option<AscBox<AscTypedArray<u8>>>)
        requires
            old(heap).wf(),
        ensures
            final(heap).wf(),
            r is Some <==> old(heap).mem().len() + block_size(bytes@.len() as int) + block_size(12)
                <= MEMORY_LIMIT,
            r is None ==> *final(heap) == *old(heap),
            final(heap).grows_from(*old(heap)),
            r matches Some(a) ==> {
                &&& final(heap).is_block(a@ as int)
                &&& !old(heap).is_block(a@ as int)
                &&& typed_array_bytes(*final(heap), a@ as int) == Some(bytes@)
                &&& final(heap).mem().len() == old(heap).mem().len() + block_size(
                    bytes@.len() as int,
                ) + block_size(12)
            },
    {
        let ghost h0 = *heap;
        proof {
            h0.lemma_grows_refl();
        }
        if bytes.len() as u64 > MEMORY_LIMIT as u64 {
            return None;
        }
        let need: u64 = ((32 + bytes.len() as u64 + 15) / 16) * 16 + 48;
        if heap.len() as u64 + need > MEMORY_LIMIT as u64 {
            return None;
        }
        let buffer = match AscArrayBuffer::new(heap, bytes) {
            Some(b) => b,
            None => return None,
        };
        let ghost h1 = *heap;
        let ghost b = buffer@;
        let r = Self::new(heap, buffer);
        proof {
            h1.lemma_grown_by_grows(h0, b);
            if r is Some {
                let a = r->Some_0;
                heap.lemma_grown_by_grows(h1, a@);
                heap.lemma_grows_trans(h1, h0);
                heap.lemma_keeps(h1, b as int);
                h1.lemma_block_below_top(b as int);
                let n = bytes@.len();
                assert(rt_size_of(h1.mem(), b as int) == n);
                assert(n as int % 1 == 0);
                assert(words_at(heap.mem(), a@ as int) == seq![b, b, n as u32]);
                assert(b < a@);
                assert(heap.is_block(b as int));
                assert(rt_size_of(heap.mem(), b as int) == n);
                assert(heap.mem().subrange(b as int, b + n) == bytes_at(h1.mem(), b as int));
                assert(bytes_at(h1.mem(), b as int) == bytes@);
                if h0.is_block(a@ as int) {
                    h0.lemma_block_below_top(a@ as int);
                }
                assert(typed_array_bytes(*heap, a@ as int) == Some(bytes@));
            }
        }
        r
    }
}

/// The bytes that the typed array at `p` views; `None` when no block starts
/// at `p` or its record is malformed.
pub fn typed_bytes_at(heap: &Heap, p: u32) -> (r: Option<Vec<u8>>)
    requires
        heap.wf(),
    ensures
        match typed_array_bytes(*heap, p as int) {
            Some(b) => (r matches Some(v) && v@ == b),
            None => r is None,
        },
{
    if !heap.has_block(p) {
        return None;
    }
    let a: AscRef<AscTypedArray<u8>> = AscRef::at(p);
    a.as_slice(heap)
}

impl AscRef<AscTypedArray<u8>> {
    /// The bytes that this view covers; `None` when its record does not
    /// describe a view inside a buffer below it.
    pub fn as_slice(&self, heap: &Heap) -> (r: Option<Vec<u8>>)
        requires
            heap.wf(),
            heap.is_block(self@ as int),
        ensures
            match typed_array_bytes(*heap, self@ as int) {
                Some(b) => (r matches Some(v) && v@ == b),
                None => r is None,
            },
    {
        let p = self.as_ptr();
        let (buf, start, len) = match (heap.word_of(p, 0), heap.word_of(p, 1), heap.word_of(p, 2)) {
            (Some(a), Some(b), Some(c)) => (a, b, c),
            _ => return None,
        };
        if !(buf < p && heap.has_block(buf) && buf <= start) {
            return None;
        }
        let n = heap.rt_size(buf);
        if start as u64 + len as u64 > buf as u64 + n as u64 {
            return None;
        }
        let mut r: Vec<u8> = Vec::new();
        let mut i: u32 = 0;
        while i < len
            invariant
                heap.wf(),
                start + len <= buf + n <= heap.mem().len() <= MEMORY_LIMIT,
                i <= len,
                r@ =~= heap.mem().subrange(start as int, start + i),
            decreases len - i,
        {
            r.push(heap.read_u8(start + i));
            i += 1;
        }
        Some(r)
    }
}

} // verus!
