//! Runs of fixed-width little-endian items in a block's payload, and the one
//! operation that recovers their count from the header.
//!
//! A run of `n` items of width `w` occupies exactly `n * w` payload bytes. On
//! the way back the count is `rt_size / w`: a payload whose length is not a
//! multiple of `w` loses its trailing bytes instead of being read past its end.

use crate::heap::{block_size, payload_of, rt_size_of, Heap, MEMORY_LIMIT, TYPE_ID};
use vstd::prelude::*;

verus! {

/// Little-endian bytes of a run of 16-bit items.
pub open spec fn units_image(s: Seq<u16>) -> Seq<u8> {
    Seq::new(
        2 * s.len(),
        |j: int|
            if j % 2 == 0 {
                (s[j / 2] & 0xff) as u8
            } else {
                (s[j / 2] >> 8) as u8
            },
    )
}

/// 16-bit items read back from bytes; a trailing odd byte is dropped.
pub open spec fn units_from(b: Seq<u8>) -> Seq<u16> {
    Seq::new(b.len() / 2, |i: int| (b[2 * i] as u16) | ((b[2 * i + 1] as u16) << 8))
}

pub open spec fn byte_of_word(x: u32, k: int) -> u8 {
    if k == 0 {
        (x & 0xff) as u8
    } else if k == 1 {
        ((x >> 8) & 0xff) as u8
    } else if k == 2 {
        ((x >> 16) & 0xff) as u8
    } else {
        (x >> 24) as u8
    }
}

/// Little-endian bytes of a run of 32-bit words.
pub open spec fn words_image(s: Seq<u32>) -> Seq<u8> {
    Seq::new(4 * s.len(), |j: int| byte_of_word(s[j / 4], j % 4))
}

pub open spec fn word_from(b0: u8, b1: u8, b2: u8, b3: u8) -> u32 {
    (b0 as u32) | ((b1 as u32) << 8) | ((b2 as u32) << 16) | ((b3 as u32) << 24)
}

/// 32-bit words read back from bytes; up to three trailing bytes are dropped.
pub open spec fn words_from(b: Seq<u8>) -> Seq<u32> {
    Seq::new(
        b.len() / 4,
        |i: int| word_from(b[4 * i], b[4 * i + 1], b[4 * i + 2], b[4 * i + 3]),
    )
}

/// The bytes of the block at `p`.
pub open spec fn bytes_at(mem: Seq<u8>, p: int) -> Seq<u8> {
    payload_of(mem, p)
}

/// The 16-bit items of the block at `p`.
pub open spec fn units_at(mem: Seq<u8>, p: int) -> Seq<u16> {
    units_from(payload_of(mem, p))
}

/// The 32-bit words of the block at `p`.
pub open spec fn words_at(mem: Seq<u8>, p: int) -> Seq<u32> {
    words_from(payload_of(mem, p))
}

proof fn lemma_unit_bytes(x: u16)
    ensures
        (((x & 0xff) as u8) as u16) | ((((x >> 8) as u8) as u16) << 8) == x,
{
    assert((((x & 0xff) as u8) as u16) | ((((x >> 8) as u8) as u16) << 8) == x) by (bit_vector);
}

proof fn lemma_word_bytes(x: u32)
    ensures
        word_from(byte_of_word(x, 0), byte_of_word(x, 1), byte_of_word(x, 2), byte_of_word(x, 3))
            == x,
{
    assert((((x & 0xff) as u8) as u32) | (((((x >> 8) & 0xff) as u8) as u32) << 8) | (
    ((((x >> 16) & 0xff) as u8) as u32) << 16) | ((((x >> 24) as u8) as u32) << 24) == x)
        by (bit_vector);
}

pub proof fn lemma_units_round_trip(s: Seq<u16>)
    ensures
        units_from(units_image(s)) == s,
        units_image(s).len() == 2 * s.len(),
{
    let b = units_image(s);
    assert forall|i: int| 0 <= i < s.len() implies #[trigger] units_from(b)[i] == s[i] by {
        assert((2 * i) / 2 == i);
        assert((2 * i + 1) / 2 == i);
        assert((2 * i) % 2 == 0);
        assert((2 * i + 1) % 2 == 1);
        lemma_unit_bytes(s[i]);
    }
    assert(units_from(b) =~= s);
}

pub proof fn lemma_words_round_trip(s: Seq<u32>)
    ensures
        words_from(words_image(s)) == s,
        words_image(s).len() == 4 * s.len(),
{
    let b = words_image(s);
    assert forall|i: int| 0 <= i < s.len() implies #[trigger] words_from(b)[i] == s[i] by {
        assert((4 * i) / 4 == i && (4 * i) % 4 == 0);
        assert((4 * i + 1) / 4 == i && (4 * i + 1) % 4 == 1);
        assert((4 * i + 2) / 4 == i && (4 * i + 2) % 4 == 2);
        assert((4 * i + 3) / 4 == i && (4 * i + 3) % 4 == 3);
        lemma_word_bytes(s[i]);
    }
    assert(words_from(b) =~= s);
}

/// Little-endian bytes of `items`.
pub fn encode_units(items: &Vec<u16>) -> (r: Vec<u8>)
    requires
        items@.len() <= MEMORY_LIMIT,
    ensures
        r@ == units_image(items@),
{
    let mut r: Vec<u8> = Vec::new();
    let mut i: usize = 0;
    while i < items.len()
        invariant
            i <= items@.len() <= MEMORY_LIMIT,
            r@ =~= units_image(items@.subrange(0, i as int)),
        decreases items@.len() - i,
    {
        let x = items[i];
        r.push((x & 0xff) as u8);
        r.push((x >> 8) as u8);
        i += 1;
        assert(r@ =~= units_image(items@.subrange(0, i as int)));
    }
    assert(items@.subrange(0, i as int) =~= items@);
    r
}

/// Little-endian bytes of `items`.
pub fn encode_words(items: &Vec<u32>) -> (r: Vec<u8>)
    requires
        items@.len() <= MEMORY_LIMIT,
    ensures
        r@ == words_image(items@),
{
    let mut r: Vec<u8> = Vec::new();
    let mut i: usize = 0;
    while i < items.len()
        invariant
            i <= items@.len() <= MEMORY_LIMIT,
            r@ =~= words_image(items@.subrange(0, i as int)),
        decreases items@.len() - i,
    {
        let x = items[i];
        r.push((x & 0xff) as u8);
        r.push(((x >> 8) & 0xff) as u8);
        r.push(((x >> 16) & 0xff) as u8);
        r.push((x >> 24) as u8);
        i += 1;
        assert(r@ =~= words_image(items@.subrange(0, i as int)));
    }
    assert(items@.subrange(0, i as int) =~= items@);
    r
}

impl Heap {
    /// Allocates a block holding `items` as bytes.
    pub fn allocate_bytes(&mut self, items: Vec<u8>) -> (r: Option<u32>)
        requires
            old(self).wf(),
        ensures
            final(self).wf(),
            r.is_some() <==> old(self).mem().len() + block_size(items@.len() as int)
                <= MEMORY_LIMIT,
            match r {
                Some(p) => {
                    &&& final(self).grown_by(*old(self), p)
                    &&& bytes_at(final(self).mem(), p as int) == items@
                },
                None => *final(self) == *old(self),
            },
    {
        self.allocate(TYPE_ID, items)
    }

    /// Allocates a block holding `items` as little-endian 16-bit units.
    pub fn allocate_units(&mut self, items: &Vec<u16>) -> (r: Option<u32>)
        requires
            old(self).wf(),
        ensures
            final(self).wf(),
            r.is_some() <==> old(self).mem().len() + block_size(2 * items@.len() as int) <= MEMORY_LIMIT,
            match r {
                Some(p) => {
                    &&& final(self).grown_by(*old(self), p)
                    &&& units_at(final(self).mem(), p as int) == items@
                    &&& rt_size_of(final(self).mem(), p as int) == 2 * items@.len()
                },
                None => *final(self) == *old(self),
            },
    {
        if items.len() > MEMORY_LIMIT as usize {
            return None;
        }
        let b = encode_units(items);
        proof {
            lemma_units_round_trip(items@);
        }
        self.allocate(TYPE_ID, b)
    }

    /// Allocates a block holding `items` as little-endian 32-bit words.
    pub fn allocate_words(&mut self, items: &Vec<u32>) -> (r: Option<u32>)
        requires
            old(self).wf(),
        ensures
            final(self).wf(),
            r.is_some() <==> old(self).mem().len() + block_size(4 * items@.len() as int) <= MEMORY_LIMIT,
            match r {
                Some(p) => {
                    &&& final(self).grown_by(*old(self), p)
                    &&& words_at(final(self).mem(), p as int) == items@
                    &&& rt_size_of(final(self).mem(), p as int) == 4 * items@.len()
                },
                None => *final(self) == *old(self),
            },
    {
        if items.len() > MEMORY_LIMIT as usize {
            return None;
        }
        let b = encode_words(items);
        proof {
            lemma_words_round_trip(items@);
        }
        self.allocate(TYPE_ID, b)
    }

    /// The bytes of the block at `p`.
    pub fn bytes_of(&self, p: u32) -> (r: Vec<u8>)
        requires
            self.wf(),
            self.is_block(p as int),
        ensures
            r@ == bytes_at(self.mem(), p as int),
    {
        let n = self.rt_size(p);
        let mut r: Vec<u8> = Vec::new();
        let mut i: u32 = 0;
        while i < n
            invariant
                self.wf(),
                n == rt_size_of(self.mem(), p as int),
                p + n <= self.mem().len() <= MEMORY_LIMIT,
                i <= n,
                r@ =~= self.mem().subrange(p as int, p + i),
            decreases n - i,
        {
            r.push(self.read_u8(p + i));
            i += 1;
        }
        r
    }

    /// The 16-bit units of the block at `p`; the count is the recorded payload
    /// length divided by two.
    pub fn units_of(&self, p: u32) -> (r: Vec<u16>)
        requires
            self.wf(),
            self.is_block(p as int),
        ensures
            r@ == units_at(self.mem(), p as int),
    {
        let n = self.rt_size(p) / 2;
        let ghost b = payload_of(self.mem(), p as int);
        let mut r: Vec<u16> = Vec::new();
        let mut i: u32 = 0;
        while i < n
            invariant
                self.wf(),
                b == payload_of(self.mem(), p as int),
                b.len() == rt_size_of(self.mem(), p as int),
                n == b.len() / 2,
                p + b.len() <= self.mem().len() <= MEMORY_LIMIT,
                i <= n,
                r@ =~= units_from(b).subrange(0, i as int),
            decreases n - i,
        {
            let lo = self.read_u8(p + 2 * i);
            let hi = self.read_u8(p + 2 * i + 1);
            proof {
                assert(2 * i + 1 < b.len());
                assert(b == self.mem().subrange(p as int, p + b.len()));
                assert(b[2 * i as int] == self.mem()[p + 2 * i]);
                assert(b[2 * i as int + 1] == self.mem()[p + 2 * i + 1]);
            }
            r.push((lo as u16) | ((hi as u16) << 8));
            i += 1;
        }
        r
    }

    /// The 32-bit words of the block at `p`; the count is the recorded payload
    /// length divided by four.
    pub fn words_of(&self, p: u32) -> (r: Vec<u32>)
        requires
            self.wf(),
            self.is_block(p as int),
        ensures
            r@ == words_at(self.mem(), p as int),
    {
        let n = self.rt_size(p) / 4;
        let ghost b = payload_of(self.mem(), p as int);
        let mut r: Vec<u32> = Vec::new();
        let mut i: u32 = 0;
        while i < n
            invariant
                self.wf(),
                b == payload_of(self.mem(), p as int),
                b.len() == rt_size_of(self.mem(), p as int),
                n == b.len() / 4,
                p + b.len() <= self.mem().len() <= MEMORY_LIMIT,
                i <= n,
                r@ =~= words_from(b).subrange(0, i as int),
            decreases n - i,
        {
            let b0 = self.read_u8(p + 4 * i);
            let b1 = self.read_u8(p + 4 * i + 1);
            let b2 = self.read_u8(p + 4 * i + 2);
            let b3 = self.read_u8(p + 4 * i + 3);
            proof {
                assert(4 * i + 3 < b.len());
                assert(b == self.mem().subrange(p as int, p + b.len()));
                assert(b[4 * i as int] == self.mem()[p + 4 * i]);
                assert(b[4 * i as int + 1] == self.mem()[p + 4 * i + 1]);
                assert(b[4 * i as int + 2] == self.mem()[p + 4 * i + 2]);
                assert(b[4 * i as int + 3] == self.mem()[p + 4 * i + 3]);
            }
            r.push((b0 as u32) | ((b1 as u32) << 8) | ((b2 as u32) << 16) | ((b3 as u32) << 24));
            i += 1;
        }
        r
    }

    /// Word `k` of the block at `p`, or `None` past the end of its payload.
    pub fn word_of(&self, p: u32, k: u32) -> (r: Option<u32>)
        requires
            self.wf(),
            self.is_block(p as int),
        ensures
            r == (if k < words_at(self.mem(), p as int).len() {
                Some(words_at(self.mem(), p as int)[k as int])
            } else {
                None::<u32>
            }),
    {
        let n = self.rt_size(p) / 4;
        proof {
            assert(payload_of(self.mem(), p as int).len() == rt_size_of(self.mem(), p as int));
        }
        if k >= n {
            return None;
        }
        let b0 = self.read_u8(p + 4 * k);
        let b1 = self.read_u8(p + 4 * k + 1);
        let b2 = self.read_u8(p + 4 * k + 2);
        let b3 = self.read_u8(p + 4 * k + 3);
        Some((b0 as u32) | ((b1 as u32) << 8) | ((b2 as u32) << 16) | ((b3 as u32) << 24))
    }
}

} // verus!
