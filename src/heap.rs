//! Header-compatible allocator over the guest's linear memory.
//!
//! Layout of one block (addresses grow to the right):
//!
//! ```text
//! +---------+------------------------------------------+---------+---------+
//! | padding | mm_info gc_info gc_info2 rt_id rt_size   | data    | padding |
//! +---------+------------------------------------------+---------+---------+
//! root                                                 ^ root + DATA_OFFSET
//! ```
//!
//! Blocks are handed out from the top of memory and never move, so a block's
//! bytes stay as they were written for as long as the heap lives.

use vstd::bytes::*;
use vstd::prelude::*;
use vstd::slice::slice_subrange;

verus! {

/// Alignment of every block root and every data pointer.
pub const ALIGN: u32 = 16;

/// Runtime type identifier written into every header. The guest does not
/// dispatch on it, so one constant serves all types.
pub const TYPE_ID: u32 = 0;

/// Size of the object header of a 32-bit guest: three pointer-sized words and
/// two 32-bit words.
pub const HEADER_SIZE: u32 = 20;

/// Distance from a block's root to its data: the header size padded to `ALIGN`.
pub const DATA_OFFSET: u32 = 32;

/// `x`, or one past the memory limit when `x` is beyond it.
pub open spec fn capped(x: int) -> int {
    if x <= MEMORY_LIMIT {
        x
    } else {
        MEMORY_LIMIT + 1
    }
}

/// `a + b` kept at most one past the memory limit.
pub fn capped_add(a: u64, b: u64) -> (r: u64)
    requires
        a <= 4 * MEMORY_LIMIT,
        b <= 4 * MEMORY_LIMIT,
    ensures
        r == if a + b <= MEMORY_LIMIT {
            a + b
        } else {
            MEMORY_LIMIT + 1
        },
{
    if a + b <= MEMORY_LIMIT as u64 {
        a + b
    } else {
        MEMORY_LIMIT as u64 + 1
    }
}

/// Bytes taken by a block whose payload holds `n` bytes.
pub fn block_bytes(n: u64) -> (r: u64)
    requires
        n <= MEMORY_LIMIT,
    ensures
        r == block_size(n as int),
        r <= n + 47,
{
    ((32 + n + 15) / 16) * 16
}

/// The runtime type identifier that the host asks for by type index. The
/// guest does not dispatch on type identifiers, so every index gets the same.
pub fn id_of_type(type_index: u32) -> (r: u32)
    ensures
        r == TYPE_ID,
{
    TYPE_ID
}

/// Highest address that the linear memory may reach.
pub const MEMORY_LIMIT: u32 = 0x8000_0000;

/// `n` rounded up to a multiple of `ALIGN`.
pub open spec fn pad_to_align(n: int) -> int {
    ((n + 15) / 16) * 16
}

/// Bytes taken by a block whose payload holds `payload_len` bytes.
pub open spec fn block_size(payload_len: int) -> int {
    pad_to_align(DATA_OFFSET + payload_len)
}

pub open spec fn zeros(n: int) -> Seq<u8> {
    Seq::new(n as nat, |i: int| 0u8)
}

/// The header's five fields in memory order.
pub open spec fn header_image(size: u32, rt_id: u32, rt_size: u32) -> Seq<u8> {
    spec_u32_to_le_bytes(size) + spec_u32_to_le_bytes(ALIGN) + spec_u32_to_le_bytes(DATA_OFFSET)
        + spec_u32_to_le_bytes(rt_id) + spec_u32_to_le_bytes(rt_size)
}

/// The bytes of a whole block holding `payload`, from its root on.
pub open spec fn block_image(rt_id: u32, payload: Seq<u8>) -> Seq<u8> {
    let size = block_size(payload.len() as int);
    zeros((DATA_OFFSET - HEADER_SIZE) as int) + header_image(size as u32, rt_id, payload.len() as u32)
        + payload + zeros(size - DATA_OFFSET - payload.len())
}

/// The little-endian `u32` that starts at `at`.
pub open spec fn u32_at(mem: Seq<u8>, at: int) -> u32 {
    spec_u32_from_le_bytes(mem.subrange(at, at + 4))
}

/// Header fields of the block whose data starts at `p`.
pub open spec fn mm_info_of(mem: Seq<u8>, p: int) -> u32 {
    u32_at(mem, p - 20)
}

pub open spec fn gc_info_of(mem: Seq<u8>, p: int) -> u32 {
    u32_at(mem, p - 16)
}

pub open spec fn gc_info2_of(mem: Seq<u8>, p: int) -> u32 {
    u32_at(mem, p - 12)
}

pub open spec fn rt_id_of(mem: Seq<u8>, p: int) -> u32 {
    u32_at(mem, p - 8)
}

pub open spec fn rt_size_of(mem: Seq<u8>, p: int) -> u32 {
    u32_at(mem, p - 4)
}

/// The payload bytes of the block whose data starts at `p`.
pub open spec fn payload_of(mem: Seq<u8>, p: int) -> Seq<u8> {
    mem.subrange(p, p + rt_size_of(mem, p))
}

/// The layout that a block was allocated with, as `deallocate` recovers it.
#[derive(Clone, Copy, Debug, PartialEq, Eq, Structural)]
pub struct BlockLayout {
    pub root: u32,
    pub size: u32,
    pub align: u32,
}

/// The guest's linear memory, with the blocks allocated in it.
pub struct Heap {
    mem: Vec<u8>,
    /// Data pointers of the blocks that are allocated and not yet released,
    /// oldest first.
    live: Vec<u32>,
    /// Data pointers of every block ever allocated, in ascending order.
    blocks: Vec<u32>,
}

impl Heap {
    /// The memory's contents.
    pub closed spec fn mem(&self) -> Seq<u8> {
        self.mem@
    }

    /// Whether a block's data starts at `p`.
    pub closed spec fn is_block(&self, p: int) -> bool {
        0 <= p <= u32::MAX && self.blocks@.contains(p as u32)
    }

    /// Data pointers of the live blocks, oldest first.
    pub closed spec fn live(&self) -> Seq<u32> {
        self.live@
    }

    /// What every block satisfies: a header that describes it, and data that
    /// fits in memory.
    pub open spec fn block_wf(mem: Seq<u8>, p: int) -> bool {
        &&& DATA_OFFSET <= p
        &&& p % 16 == 0
        &&& p + rt_size_of(mem, p) <= mem.len()
        &&& mm_info_of(mem, p) == block_size(rt_size_of(mem, p) as int)
        &&& gc_info_of(mem, p) == ALIGN
        &&& gc_info2_of(mem, p) == DATA_OFFSET
        &&& p - DATA_OFFSET + mm_info_of(mem, p) <= mem.len()
    }

    pub closed spec fn wf(&self) -> bool {
        &&& self.mem@.len() % 16 == 0
        &&& self.mem@.len() <= MEMORY_LIMIT
        &&& forall|i: int|
            0 <= i < self.blocks@.len() ==> Self::block_wf(self.mem@, #[trigger] self.blocks@[i] as int)
        &&& forall|i: int| 0 <= i < self.live@.len() ==> self.blocks@.contains(#[trigger] self.live@[i])
        &&& self.live@.no_duplicates()
    }

    /// An empty memory.
    pub fn new() -> (r: Heap)
        ensures
            r.wf(),
            r.mem() == Seq::<u8>::empty(),
            r.live() == Seq::<u32>::empty(),
            forall|p: int| !r.is_block(p),
    {
        Heap { mem: Vec::new(), live: Vec::new(), blocks: Vec::new() }
    }

    /// Number of bytes in use, which is also the address of the next root.
    pub fn len(&self) -> (r: u32)
        requires
            self.wf(),
        ensures
            r == self.mem().len(),
    {
        self.mem.len() as u32
    }

    /// Number of blocks allocated and not yet released.
    pub fn live_count(&self) -> (r: usize)
        ensures
            r == self.live().len(),
    {
        self.live.len()
    }

    /// Whether a block with data at `p` is allocated and not yet released.
    pub fn is_live(&self, p: u32) -> (r: bool)
        ensures
            r == self.live().contains(p),
    {
        let mut i: usize = 0;
        while i < self.live.len()
            invariant
                0 <= i <= self.live@.len(),
                forall|j: int| 0 <= j < i ==> self.live@[j] != p,
            decreases self.live@.len() - i,
        {
            if self.live[i] == p {
                return true;
            }
            i += 1;
        }
        false
    }
}


/// `new` holds `old` as its prefix.
pub open spec fn extends(new: Seq<u8>, old: Seq<u8>) -> bool {
    &&& old.len() <= new.len()
    &&& new.subrange(0, old.len() as int) == old
}

pub proof fn lemma_extends_subrange(new: Seq<u8>, old: Seq<u8>, a: int, b: int)
    requires
        extends(new, old),
        0 <= a <= b <= old.len(),
    ensures
        new.subrange(a, b) == old.subrange(a, b),
{
    assert(new.subrange(a, b) =~= new.subrange(0, old.len() as int).subrange(a, b));
}

/// Every fact about a block that `block_wf` states survives growth of memory.
pub proof fn lemma_extends_block(new: Seq<u8>, old: Seq<u8>, p: int)
    requires
        extends(new, old),
        Heap::block_wf(old, p),
    ensures
        Heap::block_wf(new, p),
        rt_size_of(new, p) == rt_size_of(old, p),
        rt_id_of(new, p) == rt_id_of(old, p),
        payload_of(new, p) == payload_of(old, p),
{
    lemma_extends_subrange(new, old, p - 20, p - 16);
    lemma_extends_subrange(new, old, p - 16, p - 12);
    lemma_extends_subrange(new, old, p - 12, p - 8);
    lemma_extends_subrange(new, old, p - 8, p - 4);
    lemma_extends_subrange(new, old, p - 4, p);
    lemma_extends_subrange(new, old, p, p + rt_size_of(old, p));
}

/// Reading a field back from a freshly written block.
proof fn lemma_block_image_fields(old: Seq<u8>, rt_id: u32, payload: Seq<u8>)
    requires
        old.len() % 16 == 0,
        old.len() + block_size(payload.len() as int) <= MEMORY_LIMIT,
    ensures
        ({
            let mem = old + block_image(rt_id, payload);
            let p = old.len() + DATA_OFFSET;
            &&& mem.len() == old.len() + block_size(payload.len() as int)
            &&& extends(mem, old)
            &&& mm_info_of(mem, p) == block_size(payload.len() as int)
            &&& gc_info_of(mem, p) == ALIGN
            &&& gc_info2_of(mem, p) == DATA_OFFSET
            &&& rt_id_of(mem, p) == rt_id
            &&& rt_size_of(mem, p) == payload.len()
            &&& payload_of(mem, p) == payload
            &&& Heap::block_wf(mem, p)
        }),
{
    let mem = old + block_image(rt_id, payload);
    let p = old.len() + DATA_OFFSET;
    let size = block_size(payload.len() as int);
    lemma_auto_spec_u32_to_from_le_bytes();
    let b = old.len() as int;
    assert(mem.subrange(0, b) =~= old);
    assert(mem.subrange(b + 12, b + 16) =~= spec_u32_to_le_bytes(size as u32));
    assert(mem.subrange(b + 16, b + 20) =~= spec_u32_to_le_bytes(ALIGN));
    assert(mem.subrange(b + 20, b + 24) =~= spec_u32_to_le_bytes(DATA_OFFSET));
    assert(mem.subrange(b + 24, b + 28) =~= spec_u32_to_le_bytes(rt_id));
    assert(mem.subrange(b + 28, b + 32) =~= spec_u32_to_le_bytes(payload.len() as u32));
    assert(mem.subrange(p, p + payload.len()) =~= payload);
}

impl Heap {
    /// What one allocation at `p` did to `old`: memory grew by one block at
    /// its top, and that block is new and live.
    pub open spec fn grown_by(&self, old: Heap, p: u32) -> bool {
        &&& p == old.mem().len() + DATA_OFFSET
        &&& p % ALIGN == 0
        &&& extends(self.mem(), old.mem())
        &&& self.mem().len() == old.mem().len() + block_size(rt_size_of(self.mem(), p as int) as int)
        &&& self.live() == old.live().push(p)
        &&& forall|q: int| #[trigger] self.is_block(q) <==> (old.is_block(q) || q == p)
        &&& self.is_block(p as int)
    }

    /// `self` is `old` after any number of allocations and releases: memory
    /// only grew, every block stayed, and every new block lies above the old
    /// top of memory.
    pub open spec fn grows_from(&self, old: Heap) -> bool {
        &&& extends(self.mem(), old.mem())
        &&& forall|q: int| #[trigger] old.is_block(q) ==> self.is_block(q)
        &&& forall|q: int|
            #[trigger] self.is_block(q) && !old.is_block(q) ==> q >= old.mem().len() + DATA_OFFSET
    }

    /// `self` is `old` after releases only: the same memory and blocks, and
    /// no block live that was not live before.
    pub open spec fn released_from(&self, old: Heap) -> bool {
        &&& self.mem() == old.mem()
        &&& forall|q: int| #[trigger] self.is_block(q) == old.is_block(q)
        &&& forall|q: u32| #[trigger] self.live().contains(q) ==> old.live().contains(q)
    }

    /// Every block that was live in `old` and is not in `self` lies below `b`.
    pub open spec fn only_below(&self, old: Heap, b: int) -> bool {
        forall|x: u32| #[trigger] old.live().contains(x) && !self.live().contains(x) ==> x < b
    }

    pub proof fn lemma_only_below_trans(&self, mid: Heap, old: Heap, b: int)
        requires
            self.only_below(mid, b),
            mid.only_below(old, b),
            self.released_from(mid),
        ensures
            self.only_below(old, b),
    {
        assert forall|x: u32| #[trigger] old.live().contains(x) && !self.live().contains(x) implies x < b by {
            if mid.live().contains(x) {
            }
        }
    }

    pub proof fn lemma_released_trans(&self, mid: Heap, old: Heap)
        requires
            self.released_from(mid),
            mid.released_from(old),
        ensures
            self.released_from(old),
    {
    }

    pub proof fn lemma_released_refl(&self)
        ensures
            self.released_from(*self),
    {
    }

    pub proof fn lemma_grows_refl(&self)
        ensures
            self.grows_from(*self),
    {
        assert(self.mem().subrange(0, self.mem().len() as int) =~= self.mem());
    }

    pub proof fn lemma_grows_trans(&self, mid: Heap, old: Heap)
        requires
            self.grows_from(mid),
            mid.grows_from(old),
        ensures
            self.grows_from(old),
    {
        lemma_extends_subrange(self.mem(), mid.mem(), 0, old.mem().len() as int);
    }

    pub proof fn lemma_grown_by_grows(&self, old: Heap, p: u32)
        requires
            self.grown_by(old, p),
        ensures
            self.grows_from(old),
    {
    }

    /// Every block starts at or below the top of memory.
    pub proof fn lemma_block_below_top(&self, q: int)
        requires
            self.wf(),
            self.is_block(q),
        ensures
            DATA_OFFSET <= q <= self.mem().len(),
            q % ALIGN as int == 0,
            q + rt_size_of(self.mem(), q) <= self.mem().len(),
    {
        let k = choose|k: int| 0 <= k < self.blocks@.len() && self.blocks@[k] == q as u32;
        assert(Heap::block_wf(self.mem@, self.blocks@[k] as int));
    }

    /// A block of `old` reads the same in a memory that extends it.
    pub proof fn lemma_keeps(&self, old: Heap, q: int)
        requires
            old.wf(),
            extends(self.mem(), old.mem()),
            old.is_block(q),
        ensures
            payload_of(self.mem(), q) == payload_of(old.mem(), q),
            rt_size_of(self.mem(), q) == rt_size_of(old.mem(), q),
            rt_id_of(self.mem(), q) == rt_id_of(old.mem(), q),
    {
        let k = choose|k: int| 0 <= k < old.blocks@.len() && old.blocks@[k] == q as u32;
        assert(Heap::block_wf(old.mem@, old.blocks@[k] as int));
        lemma_extends_block(self.mem(), old.mem(), q);
    }

    proof fn lemma_grow(&self, new_mem: Seq<u8>)
        requires
            self.wf(),
            extends(new_mem, self.mem@),
        ensures
            forall|i: int|
                0 <= i < self.blocks@.len() ==> Heap::block_wf(new_mem, #[trigger] self.blocks@[i] as int),
    {
        assert forall|i: int| 0 <= i < self.blocks@.len() implies Heap::block_wf(
            new_mem,
            #[trigger] self.blocks@[i] as int,
        ) by {
            lemma_extends_block(new_mem, self.mem@, self.blocks@[i] as int);
        }
    }

    /// Whether a block's data starts at `p`.
    pub fn has_block(&self, p: u32) -> (r: bool)
        ensures
            r == self.is_block(p as int),
    {
        let mut i: usize = 0;
        while i < self.blocks.len()
            invariant
                0 <= i <= self.blocks@.len(),
                forall|j: int| 0 <= j < i ==> self.blocks@[j] != p,
            decreases self.blocks@.len() - i,
        {
            if self.blocks[i] == p {
                return true;
            }
            i += 1;
        }
        false
    }

    /// The little-endian `u32` at address `at`.
    pub fn read_u32(&self, at: u32) -> (r: u32)
        requires
            self.wf(),
            at + 4 <= self.mem().len(),
        ensures
            r == u32_at(self.mem(), at as int),
    {
        let s = slice_subrange(self.mem.as_slice(), at as usize, at as usize + 4);
        u32_from_le_bytes(s)
    }

    /// The byte at address `at`.
    pub fn read_u8(&self, at: u32) -> (r: u8)
        requires
            self.wf(),
            at < self.mem().len(),
        ensures
            r == self.mem()[at as int],
    {
        self.mem[at as usize]
    }

    /// Allocates a block that holds `payload`, tagged with `rt_id`, and returns
    /// its data pointer; `None` when memory cannot grow by the block's size.
    pub fn allocate(&mut self, rt_id: u32, payload: Vec<u8>) -> (r: Option<u32>)
        requires
            old(self).wf(),
        ensures
            final(self).wf(),
            r.is_some() <==> old(self).mem().len() + block_size(payload@.len() as int)
                <= MEMORY_LIMIT,
            match r {
                Some(p) => {
                    &&& final(self).grown_by(*old(self), p)
                    &&& p == old(self).mem().len() + DATA_OFFSET
                    &&& p % ALIGN == 0
                    &&& final(self).mem() == old(self).mem() + block_image(rt_id, payload@)
                    &&& final(self).mem().len() == old(self).mem().len() + block_size(
                        payload@.len() as int,
                    )
                    &&& extends(final(self).mem(), old(self).mem())
                    &&& final(self).live() == old(self).live().push(p)
                    &&& forall|q: int| #[trigger]
                        final(self).is_block(q) <==> (old(self).is_block(q) || q == p)
                    &&& rt_id_of(final(self).mem(), p as int) == rt_id
                    &&& rt_size_of(final(self).mem(), p as int) == payload@.len()
                    &&& payload_of(final(self).mem(), p as int) == payload@
                },
                None => *final(self) == *old(self),
            },
    {
        let n = payload.len();
        let base = self.mem.len();
        if n as u64 > MEMORY_LIMIT as u64 {
            return None;
        }
        let size: u64 = ((DATA_OFFSET as u64 + n as u64 + 15) / 16) * 16;
        if base as u64 + size > MEMORY_LIMIT as u64 {
            return None;
        }
        let ghost old_mem = self.mem@;
        proof {
            lemma_block_image_fields(old_mem, rt_id, payload@);
        }
        let mut image: Vec<u8> = Vec::new();
        let mut i: usize = 0;
        while i < 12
            invariant
                i <= 12,
                image@ =~= zeros(i as int),
            decreases 12 - i,
        {
            image.push(0u8);
            i += 1;
        }
        let mut f = u32_to_le_bytes(size as u32);
        image.append(&mut f);
        let mut f = u32_to_le_bytes(ALIGN);
        image.append(&mut f);
        let mut f = u32_to_le_bytes(DATA_OFFSET);
        image.append(&mut f);
        let mut f = u32_to_le_bytes(rt_id);
        image.append(&mut f);
        let mut f = u32_to_le_bytes(n as u32);
        image.append(&mut f);
        let mut payload = payload;
        let ghost pl = payload@;
        image.append(&mut payload);
        let tail = (size - DATA_OFFSET as u64 - n as u64) as usize;
        let ghost before_tail = image@;
        let mut i: usize = 0;
        while i < tail
            invariant
                i <= tail,
                image@ =~= before_tail + zeros(i as int),
            decreases tail - i,
        {
            image.push(0u8);
            i += 1;
        }
        assert(image@ =~= block_image(rt_id, pl));
        let ghost old_self = *self;
        proof {
            old_self.lemma_grow(old_mem + image@);
        }
        self.mem.append(&mut image);
        let p = (base + DATA_OFFSET as usize) as u32;
        proof {
            assert forall|j: int| 0 <= j < old_self.live@.len() implies old_self.live@[j] != p by {
                let k = choose|k: int| 0 <= k < old_self.blocks@.len() && old_self.blocks@[k] == old_self.live@[j];
                assert(Heap::block_wf(old_mem, old_self.blocks@[k] as int));
            }
        }
        self.live.push(p);
        self.blocks.push(p);
        proof {
            assert forall|a: int, b: int| 0 <= a < b < self.live@.len() implies self.live@[a] != self.live@[b] by {
                if b < old_self.live@.len() {
                    assert(old_self.live@.no_duplicates());
                }
            }
        }
        proof {
            lemma_block_image_fields(old_mem, rt_id, pl);
        }
        assert forall|j: int| 0 <= j < self.live@.len() implies self.blocks@.contains(
            #[trigger] self.live@[j],
        ) by {
            if j < old_self.live@.len() {
                let k = choose|k: int| 0 <= k < old_self.blocks@.len() && old_self.blocks@[k] == old_self.live@[j];
                assert(self.blocks@[k] == self.live@[j]);
            } else {
                assert(self.blocks@[self.blocks@.len() - 1] == p);
            }
        }
        assert forall|q: int| #[trigger] self.is_block(q) <==> (old_self.is_block(q) || q == p) by {
            if old_self.is_block(q) {
                let k = choose|k: int| 0 <= k < old_self.blocks@.len() && old_self.blocks@[k] == q as u32;
                assert(self.blocks@[k] == q as u32);
            }
            if q == p {
                assert(self.blocks@[self.blocks@.len() - 1] == p);
            }
            if self.is_block(q) && q != p {
                let k = choose|k: int| 0 <= k < self.blocks@.len() && self.blocks@[k] == q as u32;
                assert(k < old_self.blocks@.len());
                assert(old_self.blocks@[k] == q as u32);
            }
        }
        Some(p)
    }

    /// Entry point for the host: allocates an uninitialised (zeroed) block of
    /// `size` bytes and returns its data pointer, or 0 when memory cannot
    /// grow by that much.
    pub fn allocate_for_host(&mut self, size: u32) -> (r: u32)
        requires
            old(self).wf(),
        ensures
            final(self).wf(),
            r != 0 <==> old(self).mem().len() + block_size(size as int) <= MEMORY_LIMIT,
            r != 0 ==> {
                &&& final(self).grown_by(*old(self), r)
                &&& r % ALIGN == 0
                &&& payload_of(final(self).mem(), r as int) == zeros(size as int)
            },
            r == 0 ==> *final(self) == *old(self),
    {
        if size > MEMORY_LIMIT {
            return 0;
        }
        let mut payload: Vec<u8> = Vec::new();
        let mut i: u32 = 0;
        while i < size
            invariant
                i <= size,
                payload@ =~= zeros(i as int),
            decreases size - i,
        {
            payload.push(0u8);
            i += 1;
        }
        match self.allocate(TYPE_ID, payload) {
            Some(p) => {
                assert(p % 16 == 0);
                p
            },
            None => 0,
        }
    }

    /// Header of the block whose data starts at `p`: the layout that it was
    /// allocated with.
    pub fn layout_of(&self, p: u32) -> (r: BlockLayout)
        requires
            self.wf(),
            self.is_block(p as int),
        ensures
            r.root == p - DATA_OFFSET,
            r.size == block_size(rt_size_of(self.mem(), p as int) as int),
            r.align == ALIGN,
    {
        proof {
            let k = choose|k: int| 0 <= k < self.blocks@.len() && self.blocks@[k] == p;
            assert(Self::block_wf(self.mem@, self.blocks@[k] as int));
        }
        let size = self.read_u32(p - 20);
        let align = self.read_u32(p - 16);
        let offset = self.read_u32(p - 12);
        BlockLayout { root: p - offset, size, align }
    }

    /// Payload length in bytes recorded in the header of the block at `p`.
    pub fn rt_size(&self, p: u32) -> (r: u32)
        requires
            self.wf(),
            self.is_block(p as int),
        ensures
            r == rt_size_of(self.mem(), p as int),
            p + r <= self.mem().len() <= MEMORY_LIMIT,
    {
        proof {
            let k = choose|k: int| 0 <= k < self.blocks@.len() && self.blocks@[k] == p;
            assert(Self::block_wf(self.mem@, self.blocks@[k] as int));
        }
        self.read_u32(p - 4)
    }

    /// Releases the block at `p`: reads its layout back from the header and
    /// returns it, and takes the block off the live list.
    pub(crate) fn deallocate(&mut self, p: u32) -> (r: BlockLayout)
        requires
            old(self).wf(),
            old(self).is_block(p as int),
        ensures
            final(self).wf(),
            final(self).mem() == old(self).mem(),
            forall|q: int| #[trigger] final(self).is_block(q) == old(self).is_block(q),
            r.root == p - DATA_OFFSET,
            r.size == block_size(rt_size_of(old(self).mem(), p as int) as int),
            r.align == ALIGN,
            old(self).live().contains(p) ==> exists|i: int|
                0 <= i < old(self).live().len() && old(self).live()[i] == p && final(self).live()
                    == old(self).live().remove(i),
            !old(self).live().contains(p) ==> final(self).live() == old(self).live(),
            forall|q: u32| #[trigger] final(self).live().contains(q) ==> old(self).live().contains(q),
            !final(self).live().contains(p),
            forall|q: u32| #[trigger] old(self).live().contains(q) && q != p ==> final(self).live().contains(q),
    {
        let layout = self.layout_of(p);
        let mut i: usize = 0;
        while i < self.live.len()
            invariant
                0 <= i <= self.live@.len(),
                forall|j: int| 0 <= j < i ==> self.live@[j] != p,
                self.wf(),
                self.mem@ == old(self).mem@,
                self.live@ == old(self).live@,
                self.blocks@ == old(self).blocks@,
                layout.root == p - DATA_OFFSET,
                layout.size == block_size(rt_size_of(old(self).mem(), p as int) as int),
                layout.align == ALIGN,
            decreases self.live@.len() - i,
        {
            if self.live[i] == p {
                let ghost before = self.live@;
                self.live.remove(i);
                proof {
                    assert forall|a: int, b: int| 0 <= a < b < self.live@.len() implies self.live@[a]
                        != self.live@[b] by {
                        let a2 = if a < i { a } else { a + 1 };
                        let b2 = if b < i { b } else { b + 1 };
                        assert(self.live@[a] == before[a2]);
                        assert(self.live@[b] == before[b2]);
                    }
                    assert forall|q: u32| #[trigger] self.live@.contains(q) implies before.contains(q) by {
                        let k = choose|k: int| 0 <= k < self.live@.len() && self.live@[k] == q;
                        if k < i {
                            assert(before[k] == q);
                        } else {
                            assert(before[k + 1] == q);
                        }
                    }
                    assert forall|q: u32| #[trigger] before.contains(q) && q != p implies self.live@.contains(q) by {
                        let k = choose|k: int| 0 <= k < before.len() && before[k] == q;
                        if k < i {
                            assert(self.live@[k] == q);
                        } else {
                            assert(k != i);
                            assert(self.live@[k - 1] == q);
                        }
                    }
                    assert forall|k: int| 0 <= k < self.live@.len() implies self.live@[k] != p by {
                        if k < i {
                            assert(self.live@[k] == before[k]);
                        } else {
                            assert(self.live@[k] == before[k + 1]);
                            assert(before[i as int] == p);
                        }
                    }
                }
                assert forall|j: int| 0 <= j < self.live@.len() implies self.blocks@.contains(
                    #[trigger] self.live@[j],
                ) by {
                    if j < i {
                        assert(self.live@[j] == before[j]);
                        assert(self.blocks@.contains(before[j]));
                    } else {
                        assert(self.live@[j] == before[j + 1]);
                        assert(self.blocks@.contains(before[j + 1]));
                    }
                }
                return layout;
            }
            i += 1;
        }
        layout
    }
}

} // verus!
