//! Arrays, string-keyed maps, results and the three tagged unions that carry
//! dynamic values to and from the host.
//!
//! A tagged value is a four-word record: its tag, a padding word, and the two
//! halves of a 64-bit payload. Small arms (integers, booleans, null) live in
//! the payload; every other arm stores the data pointer of the block that it
//! owns in the payload's low word.

use crate::boxed::{AscBox, AscRef};
use crate::buf::AscTypedArray;
use crate::heap::{block_size, rt_size_of, Heap, MEMORY_LIMIT};
use crate::num::{AscBigDecimal, AscBigInt};
use crate::sequence::{words_at, words_from};
use crate::string::{AscStr, AscString};
use vstd::prelude::*;

verus! {

/// The four words of a tagged value.
pub open spec fn tagged_words(tag: u32, payload: u32) -> Seq<u32> {
    seq![tag, 0u32, payload, 0u32]
}

/// Allocates the record of a tagged value.
fn allocate_tagged<T>(heap: &mut Heap, tag: u32, payload: u32) -> (r: Option<AscBox<T>>)
    requires
        old(heap).wf(),
    ensures
        final(heap).wf(),
        r is Some <==> old(heap).mem().len() + block_size(16) <= MEMORY_LIMIT,
        match r {
            Some(b) => {
                &&& final(heap).grown_by(*old(heap), b@)
                &&& words_at(final(heap).mem(), b@ as int) == tagged_words(tag, payload)
                &&& final(heap).mem().len() == old(heap).mem().len() + block_size(16)
            },
            None => *final(heap) == *old(heap),
        },
{
    let mut words: Vec<u32> = Vec::new();
    words.push(tag);
    words.push(0);
    words.push(payload);
    words.push(0);
    assert(words@ =~= tagged_words(tag, payload));
    match heap.allocate_words(&words) {
        Some(p) => Some(AscBox::from_ptr(p)),
        None => None,
    }
}

/// Tag and payload word of the tagged value at `p`; `None` when its record
/// is shorter than four words.
fn read_tagged(heap: &Heap, p: u32) -> (r: Option<(u32, u32)>)
    requires
        heap.wf(),
        heap.is_block(p as int),
    ensures
        ({
            let w = words_at(heap.mem(), p as int);
            r == (if w.len() >= 4 {
                Some((w[0], w[2]))
            } else {
                None::<(u32, u32)>
            })
        }),
{
    match (heap.word_of(p, 0), heap.word_of(p, 3)) {
        (Some(tag), Some(_)) => {
            match heap.word_of(p, 2) {
                Some(payload) => Some((tag, payload)),
                None => None,
            }
        },
        _ => None,
    }
}

// ---------------------------------------------------------------- arrays
/// A host array record: buffer, start of items, byte length, item count.
pub struct AscArray<T> {
    marker: Ghost<Option<T>>,
}

/// Data pointers held by the array record at `p`, when it is well formed:
/// its buffer is a block below it and its items lie inside that buffer.
pub open spec fn array_items(heap: Heap, p: int) -> Option<Seq<u32>> {
    let w = words_at(heap.mem(), p);
    if heap.is_block(p) && w.len() >= 4 && w[0] < p && heap.is_block(w[0] as int) && w[0] <= w[1] && w[1] + 4 * w[3]
        <= w[0] + rt_size_of(heap.mem(), w[0] as int) {
        Some(words_from(heap.mem().subrange(w[1] as int, w[1] + 4 * w[3])))
    } else {
        None
    }
}

/// The data pointers of a sequence of handles.
pub open spec fn ptrs_of<T>(v: Seq<AscBox<T>>) -> Seq<u32> {
    Seq::new(v.len(), |i: int| v[i]@)
}

pub open spec fn ref_ptrs_of<T>(v: Seq<AscRef<T>>) -> Seq<u32> {
    Seq::new(v.len(), |i: int| v[i]@)
}

/// An array reads the same in a memory that grew from the one it was read in.
pub proof fn lemma_array_kept(new: Heap, old: Heap, p: int)
    requires
        old.wf(),
        new.grows_from(old),
        old.is_block(p),
    ensures
        array_items(new, p) == array_items(old, p),
{
    new.lemma_keeps(old, p);
    old.lemma_block_below_top(p);
    let w = words_at(old.mem(), p);
    if w.len() >= 4 && w[0] < p {
        if old.is_block(w[0] as int) {
            new.lemma_keeps(old, w[0] as int);
            old.lemma_block_below_top(w[0] as int);
            if w[0] <= w[1] && w[1] + 4 * w[3] <= w[0] + rt_size_of(old.mem(), w[0] as int) {
                crate::heap::lemma_extends_subrange(
                    new.mem(),
                    old.mem(),
                    w[1] as int,
                    w[1] + 4 * w[3],
                );
            }
        }
    }
}

impl<T> AscArray<T> {
    /// Allocates an array that takes ownership of `items`: their pointers go
    /// into a buffer, and the record over the buffer comes last.
    pub fn new(heap: &mut Heap, items: Vec<AscBox<T>>) -> (r: Option<AscBox<AscArray<T>>>)
        requires
            old(heap).wf(),
        ensures
            final(heap).wf(),
            final(heap).grows_from(*old(heap)),
            r is Some <==> old(heap).mem().len() + block_size(4 * items@.len() as int) + block_size(
                16,
            ) <= MEMORY_LIMIT,
            r is None ==> *final(heap) == *old(heap),
            r matches Some(a) ==> {
                &&& final(heap).is_block(a@ as int)
                &&& !old(heap).is_block(a@ as int)
                &&& a@ == final(heap).mem().len() - block_size(16) + 32
                &&& array_items(*final(heap), a@ as int) == Some(ptrs_of(items@))
                &&& final(heap).mem().len() == old(heap).mem().len() + block_size(
                    4 * items@.len() as int,
                ) + block_size(16)
                &&& words_at(final(heap).mem(), a@ as int).len() == 4
                &&& words_at(final(heap).mem(), a@ as int)[1] == words_at(final(heap).mem(), a@ as int)[0]
                &&& words_at(final(heap).mem(), a@ as int)[2] == 4 * items@.len()
                &&& words_at(final(heap).mem(), a@ as int)[3] == items@.len()
            },
    {
        let ghost h0 = *heap;
        proof {
            h0.lemma_grows_refl();
        }
        let n = items.len();
        if n as u64 > MEMORY_LIMIT as u64 / 4 {
            return None;
        }
        let need: u64 = ((32 + 4 * n as u64 + 15) / 16) * 16 + 48;
        if heap.len() as u64 + need > MEMORY_LIMIT as u64 {
            return None;
        }
        let mut ptrs: Vec<u32> = Vec::new();
        let mut i: usize = 0;
        while i < n
            invariant
                n == items@.len(),
                i <= n,
                ptrs@ =~= ptrs_of(items@).subrange(0, i as int),
            decreases n - i,
        {
            ptrs.push(items[i].as_ptr());
            i += 1;
        }
        assert(ptrs@ =~= ptrs_of(items@));
        let buf = match heap.allocate_words(&ptrs) {
            Some(b) => b,
            None => return None,
        };
        let ghost h1 = *heap;
        let mut words: Vec<u32> = Vec::new();
        words.push(buf);
        words.push(buf);
        words.push((4 * n) as u32);
        words.push(n as u32);
        let r = heap.allocate_words(&words);
        match r {
            Some(a) => {
                proof {
                    h1.lemma_grown_by_grows(h0, buf);
                    heap.lemma_grown_by_grows(h1, a);
                    heap.lemma_grows_trans(h1, h0);
                    heap.lemma_keeps(h1, buf as int);
                    h1.lemma_block_below_top(buf as int);
                    if h0.is_block(a as int) {
                        h0.lemma_block_below_top(a as int);
                    }
                    let w = words_at(heap.mem(), a as int);
                    assert(w =~= words@);
                    assert(words@[2] == 4 * n);
                    assert(words@[3] == n);
                    assert(rt_size_of(heap.mem(), buf as int) == 4 * n);
                    assert(heap.mem().subrange(buf as int, buf + 4 * n) == crate::sequence::bytes_at(
                        h1.mem(),
                        buf as int,
                    ));
                }
                Some(AscBox::from_ptr(a))
            },
            None => None,
        }
    }
}

impl<T> AscRef<AscArray<T>> {
    /// The array's items, as views; `None` when the record is malformed.
    pub fn as_slice(&self, heap: &Heap) -> (r: Option<Vec<AscRef<T>>>)
        requires
            heap.wf(),
            heap.is_block(self@ as int),
        ensures
            match array_items(*heap, self@ as int) {
                Some(s) => (r matches Some(v) && ref_ptrs_of(v@) == s),
                None => r is None,
            },
    {
        let p = self.as_ptr();
        let (buf, start, len) = match (heap.word_of(p, 0), heap.word_of(p, 1), heap.word_of(p, 3)) {
            (Some(a), Some(b), Some(c)) => (a, b, c),
            _ => return None,
        };
        if !(buf < p && heap.has_block(buf) && buf <= start) {
            return None;
        }
        let n = heap.rt_size(buf);
        if start as u64 + 4 * len as u64 > buf as u64 + n as u64 {
            return None;
        }
        let ghost b = heap.mem().subrange(start as int, start + 4 * len);
        let mut r: Vec<AscRef<T>> = Vec::new();
        let mut i: u32 = 0;
        while i < len
            invariant
                heap.wf(),
                start + 4 * len <= buf + n <= heap.mem().len() <= MEMORY_LIMIT,
                b == heap.mem().subrange(start as int, start + 4 * len),
                i <= len,
                ref_ptrs_of(r@) =~= words_from(b).subrange(0, i as int),
            decreases len - i,
        {
            let at = start + 4 * i;
            let b0 = heap.read_u8(at);
            let b1 = heap.read_u8(at + 1);
            let b2 = heap.read_u8(at + 2);
            let b3 = heap.read_u8(at + 3);
            let q = (b0 as u32) | ((b1 as u32) << 8) | ((b2 as u32) << 16) | ((b3 as u32) << 24);
            proof {
                assert(b[4 * i as int] == heap.mem()[at as int]);
                assert(b[4 * i as int + 1] == heap.mem()[at + 1]);
                assert(b[4 * i as int + 2] == heap.mem()[at + 2]);
                assert(b[4 * i as int + 3] == heap.mem()[at + 3]);
            }
            let ghost before = r@;
            r.push(AscRef::at(q));
            proof {
                assert(b.len() == 4 * len);
                assert(words_from(b)[i as int] == q);
                assert(ref_ptrs_of(r@) =~= ref_ptrs_of(before).push(q));
                assert(words_from(b).subrange(0, i + 1) =~= words_from(b).subrange(0, i as int).push(q));
            }
            i += 1;
        }
        proof {
            assert(words_from(b).subrange(0, len as int) =~= words_from(b));
        }
        Some(r)
    }
}

// ---------------------------------------------------------------- maps
/// A host map record: one word, the array of its entries.
pub struct AscMap<T> {
    marker: Ghost<Option<T>>,
}

/// A host map entry record: the key string, then the value.
pub struct AscMapEntry<T> {
    marker: Ghost<Option<T>>,
}

impl<T> AscMapEntry<T> {
    /// Allocates an entry that owns `key` and `value`.
    pub fn new(heap: &mut Heap, key: AscString, value: AscBox<T>) -> (r: Option<
        AscBox<AscMapEntry<T>>,
    >)
        requires
            old(heap).wf(),
        ensures
            final(heap).wf(),
            r is Some <==> old(heap).mem().len() + block_size(8) <= MEMORY_LIMIT,
            match r {
                Some(e) => {
                    &&& final(heap).grown_by(*old(heap), e@)
                    &&& words_at(final(heap).mem(), e@ as int) == seq![key@, value@]
                    &&& final(heap).mem().len() == old(heap).mem().len() + block_size(8)
                },
                None => *final(heap) == *old(heap),
            },
    {
        let mut words: Vec<u32> = Vec::new();
        words.push(key.as_ptr());
        words.push(value.as_ptr());
        assert(words@ =~= seq![key@, value@]);
        match heap.allocate_words(&words) {
            Some(p) => Some(AscBox::from_ptr(p)),
            None => None,
        }
    }
}

impl<T> AscRef<AscMapEntry<T>> {
    /// The entry's key; `None` when the record is too short.
    pub fn key(&self, heap: &Heap) -> (r: Option<AscStr>)
        requires
            heap.wf(),
            heap.is_block(self@ as int),
        ensures
            ({
                let w = words_at(heap.mem(), self@ as int);
                match r {
                    Some(k) => w.len() >= 1 && k@ == w[0],
                    None => w.len() < 1,
                }
            }),
    {
        match heap.word_of(self.as_ptr(), 0) {
            Some(p) => Some(AscStr::at(p)),
            None => None,
        }
    }

    /// The entry's value; `None` when the record is too short.
    pub fn value(&self, heap: &Heap) -> (r: Option<AscRef<T>>)
        requires
            heap.wf(),
            heap.is_block(self@ as int),
        ensures
            ({
                let w = words_at(heap.mem(), self@ as int);
                match r {
                    Some(v) => w.len() >= 2 && v@ == w[1],
                    None => w.len() < 2,
                }
            }),
    {
        match heap.word_of(self.as_ptr(), 1) {
            Some(p) => Some(AscRef::at(p)),
            None => None,
        }
    }
}

impl<T> AscMap<T> {
    /// Allocates a map over `entries`, in the order given: the entries'
    /// buffer, the array over it, then the map record.
    pub fn new(heap: &mut Heap, entries: Vec<AscBox<AscMapEntry<T>>>) -> (r: Option<
        AscBox<AscMap<T>>,
    >)
        requires
            old(heap).wf(),
        ensures
            final(heap).wf(),
            r is Some <==> old(heap).mem().len() + block_size(4 * entries@.len() as int) + block_size(
                16,
            ) + block_size(4) <= MEMORY_LIMIT,
            r is None ==> *final(heap) == *old(heap),
            final(heap).grows_from(*old(heap)),
            r matches Some(m) ==> {
                let w = words_at(final(heap).mem(), m@ as int);
                &&& final(heap).is_block(m@ as int)
                &&& !old(heap).is_block(m@ as int)
                &&& final(heap).mem().len() == old(heap).mem().len() + block_size(
                    4 * entries@.len() as int,
                ) + block_size(16) + block_size(4)
                &&& w.len() == 1
                &&& w[0] < m@
                &&& final(heap).is_block(w[0] as int)
                &&& array_items(*final(heap), w[0] as int) == Some(ptrs_of(entries@))
            },
    {
        let ghost h0 = *heap;
        proof {
            h0.lemma_grows_refl();
        }
        let n = entries.len();
        if n as u64 > MEMORY_LIMIT as u64 / 4 {
            return None;
        }
        let need = crate::heap::block_bytes(4 * n as u64) + crate::heap::block_bytes(16)
            + crate::heap::block_bytes(4);
        if heap.len() as u64 + need > MEMORY_LIMIT as u64 {
            return None;
        }
        let ghost ptrs = ptrs_of(entries@);
        let arr = AscArray::new(heap, entries).unwrap();
        let ghost h1 = *heap;
        let mut words: Vec<u32> = Vec::new();
        words.push(arr.as_ptr());
        let m = heap.allocate_words(&words).unwrap();
        proof {
            heap.lemma_grown_by_grows(h1, m);
            heap.lemma_grows_trans(h1, h0);
            lemma_array_kept(*heap, h1, arr@ as int);
            h1.lemma_block_below_top(arr@ as int);
            assert(words_at(heap.mem(), m as int) =~= words@);
            if h0.is_block(m as int) {
                h0.lemma_block_below_top(m as int);
            }
        }
        Some(AscBox::from_ptr(m))
    }
}

impl<T> AscRef<AscMap<T>> {
    /// The map's entries in their order; `None` when the record is malformed.
    pub fn entries(&self, heap: &Heap) -> (r: Option<Vec<AscRef<AscMapEntry<T>>>>)
        requires
            heap.wf(),
            heap.is_block(self@ as int),
        ensures
            ({
                let w = words_at(heap.mem(), self@ as int);
                if w.len() >= 1 && w[0] < self@ && heap.is_block(w[0] as int) {
                    match array_items(*heap, w[0] as int) {
                        Some(s) => (r matches Some(v) && ref_ptrs_of(v@) == s),
                        None => r is None,
                    }
                } else {
                    r is None
                }
            }),
    {
        let p = self.as_ptr();
        let a = match heap.word_of(p, 0) {
            Some(a) => a,
            None => return None,
        };
        if !(a < p && heap.has_block(a)) {
            return None;
        }
        let arr: AscRef<AscArray<AscMapEntry<T>>> = AscRef::at(a);
        arr.as_slice(heap)
    }
}

// ---------------------------------------------------------------- results
/// A host result record: a nullable success value, then a nullable error.
pub struct AscResult<T, E> {
    marker: Ghost<Option<(T, E)>>,
}

/// A result record sets exactly one of its two arms.
pub open spec fn result_consistent(w: Seq<u32>) -> bool {
    w.len() >= 2 && (w[0] == 0) != (w[1] == 0)
}

impl<T, E> AscRef<AscResult<T, E>> {
    /// Whether exactly one of the two arms is set; any other record is
    /// malformed and has no reading.
    pub fn is_consistent(&self, heap: &Heap) -> (r: bool)
        requires
            heap.wf(),
            heap.is_block(self@ as int),
        ensures
            r == result_consistent(words_at(heap.mem(), self@ as int)),
    {
        let p = self.as_ptr();
        match (heap.word_of(p, 0), heap.word_of(p, 1)) {
            (Some(ok), Some(err)) => (ok == 0) != (err == 0),
            _ => false,
        }
    }

    /// `Ok` over the success value when it is set, `Err` over the error when
    /// it is.
    pub fn as_std_result(&self, heap: &Heap) -> (r: Result<AscRef<T>, AscRef<E>>)
        requires
            heap.wf(),
            heap.is_block(self@ as int),
            result_consistent(words_at(heap.mem(), self@ as int)),
        ensures
            ({
                let w = words_at(heap.mem(), self@ as int);
                match r {
                    Ok(v) => w[0] != 0 && v@ == w[0],
                    Err(e) => w[0] == 0 && e@ == w[1],
                }
            }),
    {
        let p = self.as_ptr();
        let ok = match heap.word_of(p, 0) {
            Some(x) => x,
            None => 0,
        };
        let err = match heap.word_of(p, 1) {
            Some(x) => x,
            None => 0,
        };
        if ok != 0 {
            Ok(AscRef::at(ok))
        } else {
            Err(AscRef::at(err))
        }
    }
}

// ---------------------------------------------------------------- storage values
/// What a storage value record holds: its variant, and its payload read as
/// that variant's data (a data pointer for the arms that own a block).
#[derive(PartialEq, Eq, Structural)]
pub enum ValueRecord {
    String(u32),
    Int(i32),
    BigDecimal(u32),
    Bool(bool),
    Array(u32),
    Null,
    Bytes(u32),
    BigInt(u32),
}

/// A borrowed view of the data that a storage value holds.
pub enum AscValueData {
    String(AscStr),
    Int(i32),
    BigDecimal(AscRef<AscBigDecimal>),
    Bool(bool),
    Array(AscRef<AscArray<AscValue>>),
    Null,
    Bytes(AscRef<AscTypedArray<u8>>),
    BigInt(AscRef<AscBigInt>),
}

impl View for AscValueData {
    type V = ValueRecord;

    open spec fn view(&self) -> ValueRecord {
        match self {
            AscValueData::String(x) => ValueRecord::String(x@),
            AscValueData::Int(x) => ValueRecord::Int(*x),
            AscValueData::BigDecimal(x) => ValueRecord::BigDecimal(x@),
            AscValueData::Bool(x) => ValueRecord::Bool(*x),
            AscValueData::Array(x) => ValueRecord::Array(x@),
            AscValueData::Null => ValueRecord::Null,
            AscValueData::Bytes(x) => ValueRecord::Bytes(x@),
            AscValueData::BigInt(x) => ValueRecord::BigInt(x@),
        }
    }
}

/// The record written for each variant.
pub open spec fn value_words(v: ValueRecord) -> Seq<u32> {
    match v {
        ValueRecord::String(p) => tagged_words(0, p),
        ValueRecord::Int(x) => tagged_words(1, x as u32),
        ValueRecord::BigDecimal(p) => tagged_words(2, p),
        ValueRecord::Bool(b) => tagged_words(3, if b { 1 } else { 0 }),
        ValueRecord::Array(p) => tagged_words(4, p),
        ValueRecord::Null => tagged_words(5, 0),
        ValueRecord::Bytes(p) => tagged_words(6, p),
        ValueRecord::BigInt(p) => tagged_words(7, p),
    }
}

/// The variant that a record holds; `None` for a record shorter than four
/// words or with an unknown tag.
pub open spec fn value_of_words(w: Seq<u32>) -> Option<ValueRecord> {
    if w.len() < 4 {
        None
    }
 else if w[0] == 0 {
        Some(ValueRecord::String(w[2]))
    }
 else if w[0] == 1 {
        Some(ValueRecord::Int(w[2] as i32))
    }
 else if w[0] == 2 {
        Some(ValueRecord::BigDecimal(w[2]))
    }
 else if w[0] == 3 {
        Some(ValueRecord::Bool(w[2] != 0))
    }
 else if w[0] == 4 {
        Some(ValueRecord::Array(w[2]))
    }
 else if w[0] == 5 {
        Some(ValueRecord::Null)
    }
 else if w[0] == 6 {
        Some(ValueRecord::Bytes(w[2]))
    }
 else if w[0] == 7 {
        Some(ValueRecord::BigInt(w[2]))
    } else {
        None
    }
}

/// Reading back the record of any storage value variant gives that variant and
/// its payload.
pub proof fn lemma_value_record_round_trip(v: ValueRecord)
    ensures
        value_of_words(value_words(v)) == Some(v),
{
    if let ValueRecord::Int(x) = v {
        assert((x as u32) as i32 == x) by (bit_vector);
    }
}

/// A storage value: a tagged record.
pub struct AscValue {
    marker: Ghost<()>,
}

impl AscValue {
    /// Allocates a `String` value that takes ownership of `value`.
    pub fn string(heap: &mut Heap, value: AscString) -> (r: Option<AscBox<AscValue>>)
        requires
            old(heap).wf(),
        ensures
            final(heap).wf(),
            r is Some <==> old(heap).mem().len() + block_size(16) <= MEMORY_LIMIT,
            match r {
                Some(b) => {
                    &&& final(heap).grown_by(*old(heap), b@)
                    &&& words_at(final(heap).mem(), b@ as int) == value_words(ValueRecord::String(value@))
                    &&& final(heap).mem().len() == old(heap).mem().len() + block_size(16)
                },
                None => *final(heap) == *old(heap),
            },
    {
        allocate_tagged(heap, 0, value.as_ptr())
    }

    /// Allocates a `Int` value holding `value`.
    pub fn integer(heap: &mut Heap, value: i32) -> (r: Option<AscBox<AscValue>>)
        requires
            old(heap).wf(),
        ensures
            final(heap).wf(),
            r is Some <==> old(heap).mem().len() + block_size(16) <= MEMORY_LIMIT,
            match r {
                Some(b) => {
                    &&& final(heap).grown_by(*old(heap), b@)
                    &&& words_at(final(heap).mem(), b@ as int) == value_words(ValueRecord::Int(value))
                    &&& final(heap).mem().len() == old(heap).mem().len() + block_size(16)
                },
                None => *final(heap) == *old(heap),
            },
    {
        allocate_tagged(heap, 1, value as u32)
    }

    /// Allocates a `BigDecimal` value that takes ownership of `value`.
    pub fn bigdecimal(heap: &mut Heap, value: AscBox<AscBigDecimal>) -> (r: Option<AscBox<AscValue>>)
        requires
            old(heap).wf(),
        ensures
            final(heap).wf(),
            r is Some <==> old(heap).mem().len() + block_size(16) <= MEMORY_LIMIT,
            match r {
                Some(b) => {
                    &&& final(heap).grown_by(*old(heap), b@)
                    &&& words_at(final(heap).mem(), b@ as int) == value_words(ValueRecord::BigDecimal(value@))
                    &&& final(heap).mem().len() == old(heap).mem().len() + block_size(16)
                },
                None => *final(heap) == *old(heap),
            },
    {
        allocate_tagged(heap, 2, value.as_ptr())
    }

    /// Allocates a `Bool` value holding `value`.
    pub fn bool(heap: &mut Heap, value: bool) -> (r: Option<AscBox<AscValue>>)
        requires
            old(heap).wf(),
        ensures
            final(heap).wf(),
            r is Some <==> old(heap).mem().len() + block_size(16) <= MEMORY_LIMIT,
            match r {
                Some(b) => {
                    &&& final(heap).grown_by(*old(heap), b@)
                    &&& words_at(final(heap).mem(), b@ as int) == value_words(ValueRecord::Bool(value))
                    &&& final(heap).mem().len() == old(heap).mem().len() + block_size(16)
                },
                None => *final(heap) == *old(heap),
            },
    {
        allocate_tagged(heap, 3, if value { 1 } else { 0 })
    }

    /// Allocates a `Array` value that takes ownership of `value`.
    pub fn array(heap: &mut Heap, value: AscBox<AscArray<AscValue>>) -> (r: Option<AscBox<AscValue>>)
        requires
            old(heap).wf(),
        ensures
            final(heap).wf(),
            r is Some <==> old(heap).mem().len() + block_size(16) <= MEMORY_LIMIT,
            match r {
                Some(b) => {
                    &&& final(heap).grown_by(*old(heap), b@)
                    &&& words_at(final(heap).mem(), b@ as int) == value_words(ValueRecord::Array(value@))
                    &&& final(heap).mem().len() == old(heap).mem().len() + block_size(16)
                },
                None => *final(heap) == *old(heap),
            },
    {
        allocate_tagged(heap, 4, value.as_ptr())
    }

    /// Allocates a `Null` value.
    pub fn null(heap: &mut Heap) -> (r: Option<AscBox<AscValue>>)
        requires
            old(heap).wf(),
        ensures
            final(heap).wf(),
            r is Some <==> old(heap).mem().len() + block_size(16) <= MEMORY_LIMIT,
            match r {
                Some(b) => {
                    &&& final(heap).grown_by(*old(heap), b@)
                    &&& words_at(final(heap).mem(), b@ as int) == value_words(ValueRecord::Null)
                    &&& final(heap).mem().len() == old(heap).mem().len() + block_size(16)
                },
                None => *final(heap) == *old(heap),
            },
    {
        allocate_tagged(heap, 5, 0)
    }

    /// Allocates a `Bytes` value that takes ownership of `value`.
    pub fn bytes(heap: &mut Heap, value: AscBox<AscTypedArray<u8>>) -> (r: Option<AscBox<AscValue>>)
        requires
            old(heap).wf(),
        ensures
            final(heap).wf(),
            r is Some <==> old(heap).mem().len() + block_size(16) <= MEMORY_LIMIT,
            match r {
                Some(b) => {
                    &&& final(heap).grown_by(*old(heap), b@)
                    &&& words_at(final(heap).mem(), b@ as int) == value_words(ValueRecord::Bytes(value@))
                    &&& final(heap).mem().len() == old(heap).mem().len() + block_size(16)
                },
                None => *final(heap) == *old(heap),
            },
    {
        allocate_tagged(heap, 6, value.as_ptr())
    }

    /// Allocates a `BigInt` value that takes ownership of `value`.
    pub fn bigint(heap: &mut Heap, value: AscBox<AscBigInt>) -> (r: Option<AscBox<AscValue>>)
        requires
            old(heap).wf(),
        ensures
            final(heap).wf(),
            r is Some <==> old(heap).mem().len() + block_size(16) <= MEMORY_LIMIT,
            match r {
                Some(b) => {
                    &&& final(heap).grown_by(*old(heap), b@)
                    &&& words_at(final(heap).mem(), b@ as int) == value_words(ValueRecord::BigInt(value@))
                    &&& final(heap).mem().len() == old(heap).mem().len() + block_size(16)
                },
                None => *final(heap) == *old(heap),
            },
    {
        allocate_tagged(heap, 7, value.as_ptr())
    }

}

impl AscRef<AscValue> {
    /// Whether the record holds a known tag; only such a value has data.
    pub fn has_known_tag(&self, heap: &Heap) -> (r: bool)
        requires
            heap.wf(),
            heap.is_block(self@ as int),
        ensures
            r == value_of_words(words_at(heap.mem(), self@ as int)) is Some,
    {
        match read_tagged(heap, self.as_ptr()) {
            Some((tag, _)) => tag <= 7,
            None => false,
        }
    }

    /// The value's data, after its tag. A record that is too short or holds
    /// an unknown tag has no data; `has_known_tag` tells.
    pub fn data(&self, heap: &Heap) -> (r: AscValueData)
        requires
            heap.wf(),
            heap.is_block(self@ as int),
            value_of_words(words_at(heap.mem(), self@ as int)) is Some,
        ensures
            value_of_words(words_at(heap.mem(), self@ as int)) == Some(r@),
    {
        let (tag, payload) = match read_tagged(heap, self.as_ptr()) {
            Some(x) => x,
            None => (0, 0),
        };
        if tag == 0 {
            AscValueData::String(AscStr::at(payload))
        } else if tag == 1 {
            AscValueData::Int(payload as i32)
        } else if tag == 2 {
            AscValueData::BigDecimal(AscRef::at(payload))
        } else if tag == 3 {
            AscValueData::Bool(payload != 0)
        } else if tag == 4 {
            AscValueData::Array(AscRef::at(payload))
        } else if tag == 5 {
            AscValueData::Null
        } else if tag == 6 {
            AscValueData::Bytes(AscRef::at(payload))
        } else {
            AscValueData::BigInt(AscRef::at(payload))
        }
    }
}

// ---------------------------------------------------------------- JSON values
/// What a JSON value record holds: its variant, and its payload read as
/// that variant's data (a data pointer for the arms that own a block).
#[derive(PartialEq, Eq, Structural)]
pub enum JsonValueRecord {
    Null,
    Bool(bool),
    Number(u32),
    String(u32),
    Array(u32),
    Object(u32),
}

/// A borrowed view of the data that a JSON value holds.
pub enum AscJsonValueData {
    Null,
    Bool(bool),
    Number(AscStr),
    String(AscStr),
    Array(AscRef<AscArray<AscJsonValue>>),
    Object(AscRef<AscMap<AscJsonValue>>),
}

impl View for AscJsonValueData {
    type V = JsonValueRecord;

    open spec fn view(&self) -> JsonValueRecord {
        match self {
            AscJsonValueData::Null => JsonValueRecord::Null,
            AscJsonValueData::Bool(x) => JsonValueRecord::Bool(*x),
            AscJsonValueData::Number(x) => JsonValueRecord::Number(x@),
            AscJsonValueData::String(x) => JsonValueRecord::String(x@),
            AscJsonValueData::Array(x) => JsonValueRecord::Array(x@),
            AscJsonValueData::Object(x) => JsonValueRecord::Object(x@),
        }
    }
}

/// The record written for each variant.
pub open spec fn json_value_words(v: JsonValueRecord) -> Seq<u32> {
    match v {
        JsonValueRecord::Null => tagged_words(0, 0),
        JsonValueRecord::Bool(b) => tagged_words(1, if b { 1 } else { 0 }),
        JsonValueRecord::Number(p) => tagged_words(2, p),
        JsonValueRecord::String(p) => tagged_words(3, p),
        JsonValueRecord::Array(p) => tagged_words(4, p),
        JsonValueRecord::Object(p) => tagged_words(5, p),
    }
}

/// The variant that a record holds; `None` for a record shorter than four
/// words or with an unknown tag.
pub open spec fn json_value_of_words(w: Seq<u32>) -> Option<JsonValueRecord> {
    if w.len() < 4 {
        None
    }
 else if w[0] == 0 {
        Some(JsonValueRecord::Null)
    }
 else if w[0] == 1 {
        Some(JsonValueRecord::Bool(w[2] != 0))
    }
 else if w[0] == 2 {
        Some(JsonValueRecord::Number(w[2]))
    }
 else if w[0] == 3 {
        Some(JsonValueRecord::String(w[2]))
    }
 else if w[0] == 4 {
        Some(JsonValueRecord::Array(w[2]))
    }
 else if w[0] == 5 {
        Some(JsonValueRecord::Object(w[2]))
    } else {
        None
    }
}

/// Reading back the record of any JSON value variant gives that variant and
/// its payload.
pub proof fn lemma_json_value_record_round_trip(v: JsonValueRecord)
    ensures
        json_value_of_words(json_value_words(v)) == Some(v),
{
}

/// A JSON value: a tagged record.
pub struct AscJsonValue {
    marker: Ghost<()>,
}

impl AscJsonValue {
    /// Allocates a `Null` value.
    pub fn null(heap: &mut Heap) -> (r: Option<AscBox<AscJsonValue>>)
        requires
            old(heap).wf(),
        ensures
            final(heap).wf(),
            r is Some <==> old(heap).mem().len() + block_size(16) <= MEMORY_LIMIT,
            match r {
                Some(b) => {
                    &&& final(heap).grown_by(*old(heap), b@)
                    &&& words_at(final(heap).mem(), b@ as int) == json_value_words(JsonValueRecord::Null)
                    &&& final(heap).mem().len() == old(heap).mem().len() + block_size(16)
                },
                None => *final(heap) == *old(heap),
            },
    {
        allocate_tagged(heap, 0, 0)
    }

    /// Allocates a `Bool` value holding `value`.
    pub fn bool(heap: &mut Heap, value: bool) -> (r: Option<AscBox<AscJsonValue>>)
        requires
            old(heap).wf(),
        ensures
            final(heap).wf(),
            r is Some <==> old(heap).mem().len() + block_size(16) <= MEMORY_LIMIT,
            match r {
                Some(b) => {
                    &&& final(heap).grown_by(*old(heap), b@)
                    &&& words_at(final(heap).mem(), b@ as int) == json_value_words(JsonValueRecord::Bool(value))
                    &&& final(heap).mem().len() == old(heap).mem().len() + block_size(16)
                },
                None => *final(heap) == *old(heap),
            },
    {
        allocate_tagged(heap, 1, if value { 1 } else { 0 })
    }

    /// Allocates a `Number` value that takes ownership of `value`.
    pub fn number(heap: &mut Heap, value: AscString) -> (r: Option<AscBox<AscJsonValue>>)
        requires
            old(heap).wf(),
        ensures
            final(heap).wf(),
            r is Some <==> old(heap).mem().len() + block_size(16) <= MEMORY_LIMIT,
            match r {
                Some(b) => {
                    &&& final(heap).grown_by(*old(heap), b@)
                    &&& words_at(final(heap).mem(), b@ as int) == json_value_words(JsonValueRecord::Number(value@))
                    &&& final(heap).mem().len() == old(heap).mem().len() + block_size(16)
                },
                None => *final(heap) == *old(heap),
            },
    {
        allocate_tagged(heap, 2, value.as_ptr())
    }

    /// Allocates a `String` value that takes ownership of `value`.
    pub fn string(heap: &mut Heap, value: AscString) -> (r: Option<AscBox<AscJsonValue>>)
        requires
            old(heap).wf(),
        ensures
            final(heap).wf(),
            r is Some <==> old(heap).mem().len() + block_size(16) <= MEMORY_LIMIT,
            match r {
                Some(b) => {
                    &&& final(heap).grown_by(*old(heap), b@)
                    &&& words_at(final(heap).mem(), b@ as int) == json_value_words(JsonValueRecord::String(value@))
                    &&& final(heap).mem().len() == old(heap).mem().len() + block_size(16)
                },
                None => *final(heap) == *old(heap),
            },
    {
        allocate_tagged(heap, 3, value.as_ptr())
    }

    /// Allocates a `Array` value that takes ownership of `value`.
    pub fn array(heap: &mut Heap, value: AscBox<AscArray<AscJsonValue>>) -> (r: Option<AscBox<AscJsonValue>>)
        requires
            old(heap).wf(),
        ensures
            final(heap).wf(),
            r is Some <==> old(heap).mem().len() + block_size(16) <= MEMORY_LIMIT,
            match r {
                Some(b) => {
                    &&& final(heap).grown_by(*old(heap), b@)
                    &&& words_at(final(heap).mem(), b@ as int) == json_value_words(JsonValueRecord::Array(value@))
                    &&& final(heap).mem().len() == old(heap).mem().len() + block_size(16)
                },
                None => *final(heap) == *old(heap),
            },
    {
        allocate_tagged(heap, 4, value.as_ptr())
    }

    /// Allocates a `Object` value that takes ownership of `value`.
    pub fn object(heap: &mut Heap, value: AscBox<AscMap<AscJsonValue>>) -> (r: Option<AscBox<AscJsonValue>>)
        requires
            old(heap).wf(),
        ensures
            final(heap).wf(),
            r is Some <==> old(heap).mem().len() + block_size(16) <= MEMORY_LIMIT,
            match r {
                Some(b) => {
                    &&& final(heap).grown_by(*old(heap), b@)
                    &&& words_at(final(heap).mem(), b@ as int) == json_value_words(JsonValueRecord::Object(value@))
                    &&& final(heap).mem().len() == old(heap).mem().len() + block_size(16)
                },
                None => *final(heap) == *old(heap),
            },
    {
        allocate_tagged(heap, 5, value.as_ptr())
    }

}

impl AscRef<AscJsonValue> {
    /// Whether the record holds a known tag; only such a value has data.
    pub fn has_known_tag(&self, heap: &Heap) -> (r: bool)
        requires
            heap.wf(),
            heap.is_block(self@ as int),
        ensures
            r == json_value_of_words(words_at(heap.mem(), self@ as int)) is Some,
    {
        match read_tagged(heap, self.as_ptr()) {
            Some((tag, _)) => tag <= 5,
            None => false,
        }
    }

    /// The value's data, after its tag. A record that is too short or holds
    /// an unknown tag has no data; `has_known_tag` tells.
    pub fn data(&self, heap: &Heap) -> (r: AscJsonValueData)
        requires
            heap.wf(),
            heap.is_block(self@ as int),
            json_value_of_words(words_at(heap.mem(), self@ as int)) is Some,
        ensures
            json_value_of_words(words_at(heap.mem(), self@ as int)) == Some(r@),
    {
        let (tag, payload) = match read_tagged(heap, self.as_ptr()) {
            Some(x) => x,
            None => (0, 0),
        };
        if tag == 0 {
            AscJsonValueData::Null
        } else if tag == 1 {
            AscJsonValueData::Bool(payload != 0)
        } else if tag == 2 {
            AscJsonValueData::Number(AscStr::at(payload))
        } else if tag == 3 {
            AscJsonValueData::String(AscStr::at(payload))
        } else if tag == 4 {
            AscJsonValueData::Array(AscRef::at(payload))
        } else {
            AscJsonValueData::Object(AscRef::at(payload))
        }
    }
}

// ---------------------------------------------------------------- ABI values
/// What a ABI value record holds: its variant, and its payload read as
/// that variant's data (a data pointer for the arms that own a block).
#[derive(PartialEq, Eq, Structural)]
pub enum EthereumValueRecord {
    Address(u32),
    FixedBytes(u32),
    Bytes(u32),
    Int(u32),
    Uint(u32),
    Bool(bool),
    String(u32),
    FixedArray(u32),
    Array(u32),
    Tuple(u32),
}

/// A borrowed view of the data that a ABI value holds.
pub enum AscEthereumValueData {
    Address(AscRef<AscTypedArray<u8>>),
    FixedBytes(AscRef<AscTypedArray<u8>>),
    Bytes(AscRef<AscTypedArray<u8>>),
    Int(AscRef<AscBigInt>),
    Uint(AscRef<AscBigInt>),
    Bool(bool),
    String(AscStr),
    FixedArray(AscRef<AscArray<AscEthereumValue>>),
    Array(AscRef<AscArray<AscEthereumValue>>),
    Tuple(AscRef<AscArray<AscEthereumValue>>),
}

impl View for AscEthereumValueData {
    type V = EthereumValueRecord;

    open spec fn view(&self) -> EthereumValueRecord {
        match self {
            AscEthereumValueData::Address(x) => EthereumValueRecord::Address(x@),
            AscEthereumValueData::FixedBytes(x) => EthereumValueRecord::FixedBytes(x@),
            AscEthereumValueData::Bytes(x) => EthereumValueRecord::Bytes(x@),
            AscEthereumValueData::Int(x) => EthereumValueRecord::Int(x@),
            AscEthereumValueData::Uint(x) => EthereumValueRecord::Uint(x@),
            AscEthereumValueData::Bool(x) => EthereumValueRecord::Bool(*x),
            AscEthereumValueData::String(x) => EthereumValueRecord::String(x@),
            AscEthereumValueData::FixedArray(x) => EthereumValueRecord::FixedArray(x@),
            AscEthereumValueData::Array(x) => EthereumValueRecord::Array(x@),
            AscEthereumValueData::Tuple(x) => EthereumValueRecord::Tuple(x@),
        }
    }
}

/// The record written for each variant.
pub open spec fn ethereum_value_words(v: EthereumValueRecord) -> Seq<u32> {
    match v {
        EthereumValueRecord::Address(p) => tagged_words(0, p),
        EthereumValueRecord::FixedBytes(p) => tagged_words(1, p),
        EthereumValueRecord::Bytes(p) => tagged_words(2, p),
        EthereumValueRecord::Int(p) => tagged_words(3, p),
        EthereumValueRecord::Uint(p) => tagged_words(4, p),
        EthereumValueRecord::Bool(b) => tagged_words(5, if b { 1 } else { 0 }),
        EthereumValueRecord::String(p) => tagged_words(6, p),
        EthereumValueRecord::FixedArray(p) => tagged_words(7, p),
        EthereumValueRecord::Array(p) => tagged_words(8, p),
        EthereumValueRecord::Tuple(p) => tagged_words(9, p),
    }
}

/// The variant that a record holds; `None` for a record shorter than four
/// words or with an unknown tag.
pub open spec fn ethereum_value_of_words(w: Seq<u32>) -> Option<EthereumValueRecord> {
    if w.len() < 4 {
        None
    }
 else if w[0] == 0 {
        Some(EthereumValueRecord::Address(w[2]))
    }
 else if w[0] == 1 {
        Some(EthereumValueRecord::FixedBytes(w[2]))
    }
 else if w[0] == 2 {
        Some(EthereumValueRecord::Bytes(w[2]))
    }
 else if w[0] == 3 {
        Some(EthereumValueRecord::Int(w[2]))
    }
 else if w[0] == 4 {
        Some(EthereumValueRecord::Uint(w[2]))
    }
 else if w[0] == 5 {
        Some(EthereumValueRecord::Bool(w[2] != 0))
    }
 else if w[0] == 6 {
        Some(EthereumValueRecord::String(w[2]))
    }
 else if w[0] == 7 {
        Some(EthereumValueRecord::FixedArray(w[2]))
    }
 else if w[0] == 8 {
        Some(EthereumValueRecord::Array(w[2]))
    }
 else if w[0] == 9 {
        Some(EthereumValueRecord::Tuple(w[2]))
    } else {
        None
    }
}

/// Reading back the record of any ABI value variant gives that variant and
/// its payload.
pub proof fn lemma_ethereum_value_record_round_trip(v: EthereumValueRecord)
    ensures
        ethereum_value_of_words(ethereum_value_words(v)) == Some(v),
{
}

/// A ABI value: a tagged record.
pub struct AscEthereumValue {
    marker: Ghost<()>,
}

impl AscEthereumValue {
    /// Allocates a `Address` value that takes ownership of `value`.
    pub fn address(heap: &mut Heap, value: AscBox<AscTypedArray<u8>>) -> (r: Option<AscBox<AscEthereumValue>>)
        requires
            old(heap).wf(),
        ensures
            final(heap).wf(),
            r is Some <==> old(heap).mem().len() + block_size(16) <= MEMORY_LIMIT,
            match r {
                Some(b) => {
                    &&& final(heap).grown_by(*old(heap), b@)
                    &&& words_at(final(heap).mem(), b@ as int) == ethereum_value_words(EthereumValueRecord::Address(value@))
                    &&& final(heap).mem().len() == old(heap).mem().len() + block_size(16)
                },
                None => *final(heap) == *old(heap),
            },
    {
        allocate_tagged(heap, 0, value.as_ptr())
    }

    /// Allocates a `FixedBytes` value that takes ownership of `value`.
    pub fn fixedbytes(heap: &mut Heap, value: AscBox<AscTypedArray<u8>>) -> (r: Option<AscBox<AscEthereumValue>>)
        requires
            old(heap).wf(),
        ensures
            final(heap).wf(),
            r is Some <==> old(heap).mem().len() + block_size(16) <= MEMORY_LIMIT,
            match r {
                Some(b) => {
                    &&& final(heap).grown_by(*old(heap), b@)
                    &&& words_at(final(heap).mem(), b@ as int) == ethereum_value_words(EthereumValueRecord::FixedBytes(value@))
                    &&& final(heap).mem().len() == old(heap).mem().len() + block_size(16)
                },
                None => *final(heap) == *old(heap),
            },
    {
        allocate_tagged(heap, 1, value.as_ptr())
    }

    /// Allocates a `Bytes` value that takes ownership of `value`.
    pub fn bytes(heap: &mut Heap, value: AscBox<AscTypedArray<u8>>) -> (r: Option<AscBox<AscEthereumValue>>)
        requires
            old(heap).wf(),
        ensures
            final(heap).wf(),
            r is Some <==> old(heap).mem().len() + block_size(16) <= MEMORY_LIMIT,
            match r {
                Some(b) => {
                    &&& final(heap).grown_by(*old(heap), b@)
                    &&& words_at(final(heap).mem(), b@ as int) == ethereum_value_words(EthereumValueRecord::Bytes(value@))
                    &&& final(heap).mem().len() == old(heap).mem().len() + block_size(16)
                },
                None => *final(heap) == *old(heap),
            },
    {
        allocate_tagged(heap, 2, value.as_ptr())
    }

    /// Allocates a `Int` value that takes ownership of `value`.
    pub fn integer(heap: &mut Heap, value: AscBox<AscBigInt>) -> (r: Option<AscBox<AscEthereumValue>>)
        requires
            old(heap).wf(),
        ensures
            final(heap).wf(),
            r is Some <==> old(heap).mem().len() + block_size(16) <= MEMORY_LIMIT,
            match r {
                Some(b) => {
                    &&& final(heap).grown_by(*old(heap), b@)
                    &&& words_at(final(heap).mem(), b@ as int) == ethereum_value_words(EthereumValueRecord::Int(value@))
                    &&& final(heap).mem().len() == old(heap).mem().len() + block_size(16)
                },
                None => *final(heap) == *old(heap),
            },
    {
        allocate_tagged(heap, 3, value.as_ptr())
    }

    /// Allocates a `Uint` value that takes ownership of `value`.
    pub fn uint(heap: &mut Heap, value: AscBox<AscBigInt>) -> (r: Option<AscBox<AscEthereumValue>>)
        requires
            old(heap).wf(),
        ensures
            final(heap).wf(),
            r is Some <==> old(heap).mem().len() + block_size(16) <= MEMORY_LIMIT,
            match r {
                Some(b) => {
                    &&& final(heap).grown_by(*old(heap), b@)
                    &&& words_at(final(heap).mem(), b@ as int) == ethereum_value_words(EthereumValueRecord::Uint(value@))
                    &&& final(heap).mem().len() == old(heap).mem().len() + block_size(16)
                },
                None => *final(heap) == *old(heap),
            },
    {
        allocate_tagged(heap, 4, value.as_ptr())
    }

    /// Allocates a `Bool` value holding `value`.
    pub fn bool(heap: &mut Heap, value: bool) -> (r: Option<AscBox<AscEthereumValue>>)
        requires
            old(heap).wf(),
        ensures
            final(heap).wf(),
            r is Some <==> old(heap).mem().len() + block_size(16) <= MEMORY_LIMIT,
            match r {
                Some(b) => {
                    &&& final(heap).grown_by(*old(heap), b@)
                    &&& words_at(final(heap).mem(), b@ as int) == ethereum_value_words(EthereumValueRecord::Bool(value))
                    &&& final(heap).mem().len() == old(heap).mem().len() + block_size(16)
                },
                None => *final(heap) == *old(heap),
            },
    {
        allocate_tagged(heap, 5, if value { 1 } else { 0 })
    }

    /// Allocates a `String` value that takes ownership of `value`.
    pub fn string(heap: &mut Heap, value: AscString) -> (r: Option<AscBox<AscEthereumValue>>)
        requires
            old(heap).wf(),
        ensures
            final(heap).wf(),
            r is Some <==> old(heap).mem().len() + block_size(16) <= MEMORY_LIMIT,
            match r {
                Some(b) => {
                    &&& final(heap).grown_by(*old(heap), b@)
                    &&& words_at(final(heap).mem(), b@ as int) == ethereum_value_words(EthereumValueRecord::String(value@))
                    &&& final(heap).mem().len() == old(heap).mem().len() + block_size(16)
                },
                None => *final(heap) == *old(heap),
            },
    {
        allocate_tagged(heap, 6, value.as_ptr())
    }

    /// Allocates a `FixedArray` value that takes ownership of `value`.
    pub fn fixedarray(heap: &mut Heap, value: AscBox<AscArray<AscEthereumValue>>) -> (r: Option<AscBox<AscEthereumValue>>)
        requires
            old(heap).wf(),
        ensures
            final(heap).wf(),
            r is Some <==> old(heap).mem().len() + block_size(16) <= MEMORY_LIMIT,
            match r {
                Some(b) => {
                    &&& final(heap).grown_by(*old(heap), b@)
                    &&& words_at(final(heap).mem(), b@ as int) == ethereum_value_words(EthereumValueRecord::FixedArray(value@))
                    &&& final(heap).mem().len() == old(heap).mem().len() + block_size(16)
                },
                None => *final(heap) == *old(heap),
            },
    {
        allocate_tagged(heap, 7, value.as_ptr())
    }

    /// Allocates a `Array` value that takes ownership of `value`.
    pub fn array(heap: &mut Heap, value: AscBox<AscArray<AscEthereumValue>>) -> (r: Option<AscBox<AscEthereumValue>>)
        requires
            old(heap).wf(),
        ensures
            final(heap).wf(),
            r is Some <==> old(heap).mem().len() + block_size(16) <= MEMORY_LIMIT,
            match r {
                Some(b) => {
                    &&& final(heap).grown_by(*old(heap), b@)
                    &&& words_at(final(heap).mem(), b@ as int) == ethereum_value_words(EthereumValueRecord::Array(value@))
                    &&& final(heap).mem().len() == old(heap).mem().len() + block_size(16)
                },
                None => *final(heap) == *old(heap),
            },
    {
        allocate_tagged(heap, 8, value.as_ptr())
    }

    /// Allocates a `Tuple` value that takes ownership of `value`.
    pub fn tuple(heap: &mut Heap, value: AscBox<AscArray<AscEthereumValue>>) -> (r: Option<AscBox<AscEthereumValue>>)
        requires
            old(heap).wf(),
        ensures
            final(heap).wf(),
            r is Some <==> old(heap).mem().len() + block_size(16) <= MEMORY_LIMIT,
            match r {
                Some(b) => {
                    &&& final(heap).grown_by(*old(heap), b@)
                    &&& words_at(final(heap).mem(), b@ as int) == ethereum_value_words(EthereumValueRecord::Tuple(value@))
                    &&& final(heap).mem().len() == old(heap).mem().len() + block_size(16)
                },
                None => *final(heap) == *old(heap),
            },
    {
        allocate_tagged(heap, 9, value.as_ptr())
    }

}

impl AscRef<AscEthereumValue> {
    /// Whether the record holds a known tag; only such a value has data.
    pub fn has_known_tag(&self, heap: &Heap) -> (r: bool)
        requires
            heap.wf(),
            heap.is_block(self@ as int),
        ensures
            r == ethereum_value_of_words(words_at(heap.mem(), self@ as int)) is Some,
    {
        match read_tagged(heap, self.as_ptr()) {
            Some((tag, _)) => tag <= 9,
            None => false,
        }
    }

    /// The value's data, after its tag. A record that is too short or holds
    /// an unknown tag has no data; `has_known_tag` tells.
    pub fn data(&self, heap: &Heap) -> (r: AscEthereumValueData)
        requires
            heap.wf(),
            heap.is_block(self@ as int),
            ethereum_value_of_words(words_at(heap.mem(), self@ as int)) is Some,
        ensures
            ethereum_value_of_words(words_at(heap.mem(), self@ as int)) == Some(r@),
    {
        let (tag, payload) = match read_tagged(heap, self.as_ptr()) {
            Some(x) => x,
            None => (0, 0),
        };
        if tag == 0 {
            AscEthereumValueData::Address(AscRef::at(payload))
        } else if tag == 1 {
            AscEthereumValueData::FixedBytes(AscRef::at(payload))
        } else if tag == 2 {
            AscEthereumValueData::Bytes(AscRef::at(payload))
        } else if tag == 3 {
            AscEthereumValueData::Int(AscRef::at(payload))
        } else if tag == 4 {
            AscEthereumValueData::Uint(AscRef::at(payload))
        } else if tag == 5 {
            AscEthereumValueData::Bool(payload != 0)
        } else if tag == 6 {
            AscEthereumValueData::String(AscStr::at(payload))
        } else if tag == 7 {
            AscEthereumValueData::FixedArray(AscRef::at(payload))
        } else if tag == 8 {
            AscEthereumValueData::Array(AscRef::at(payload))
        } else {
            AscEthereumValueData::Tuple(AscRef::at(payload))
        }
    }
}

// ---------------------------------------------------------------- releasing
/// Releases the block at `q` when one starts there and lies below `below`.
fn release_below(heap: &mut Heap, q: u32, below: u32)
    requires
        old(heap).wf(),
    ensures
        final(heap).wf(),
        final(heap).released_from(*old(heap)),
        final(heap).only_below(*old(heap), below as int),
        (q < below && old(heap).is_block(q as int)) ==> !final(heap).live().contains(q),
{
    let ghost h0 = *heap;
    proof {
        h0.lemma_released_refl();
    }
    if q < below && heap.has_block(q) {
        proof {
            heap.lemma_block_below_top(q as int);
        }
        let b: AscBox<()> = AscBox::from_ptr(q);
        b.release(heap);
    }
}

/// Releases the typed array at `q` (its buffer, then its record) when it
/// lies below `below`.
fn release_typed_array(heap: &mut Heap, q: u32, below: u32)
    requires
        old(heap).wf(),
    ensures
        final(heap).wf(),
        final(heap).released_from(*old(heap)),
        final(heap).only_below(*old(heap), below as int),
        (q < below && old(heap).is_block(q as int)) ==> !final(heap).live().contains(q),
{
    let ghost h0 = *heap;
    proof {
        h0.lemma_released_refl();
    }
    if q < below && heap.has_block(q) {
        if let Some(buffer) = heap.word_of(q, 0) {
            release_below(heap, buffer, q);
        }
        let ghost h1 = *heap;
        release_below(heap, q, below);
        proof {
            heap.lemma_released_trans(h1, h0);
            heap.lemma_only_below_trans(h1, h0, below as int);
        }
    }
}

/// Releases the value trees that the array at `a` holds (JSON ones when
/// `json`, storage ones otherwise), then its buffer and its record, when it
/// lies below `below`.
fn release_array_of_values(heap: &mut Heap, a: u32, below: u32, json: bool)
    requires
        old(heap).wf(),
    ensures
        final(heap).wf(),
        final(heap).released_from(*old(heap)),
        final(heap).only_below(*old(heap), below as int),
        (a < below && old(heap).is_block(a as int)) ==> !final(heap).live().contains(a),
    decreases a, 1int,
{
    let ghost h0 = *heap;
    proof {
        h0.lemma_released_refl();
    }
    if !(a < below && heap.has_block(a)) {
        return;
    }
    let arr: AscRef<AscArray<()>> = AscRef::at(a);
    let items = match arr.as_slice(heap) {
        Some(v) => v,
        None => Vec::new(),
    };
    let mut i: usize = 0;
    while i < items.len()
        invariant
            heap.wf(),
            heap.released_from(h0),
            heap.only_below(h0, a as int),
            h0 == *old(heap),
            heap.is_block(a as int),
            a < below,
        decreases items@.len() - i,
    {
        let q = items[i].as_ptr();
        if q < a {
            let ghost h1 = *heap;
            if json {
                release_json_value_at(heap, q);
            } else {
                release_value_at(heap, q);
            }
            proof {
                heap.lemma_released_trans(h1, h0);
                heap.lemma_only_below_trans(h1, h0, a as int);
            }
        }
        i += 1;
    }
    let ghost h2 = *heap;
    if let Some(buffer) = heap.word_of(a, 0) {
        release_below(heap, buffer, a);
    }
    let ghost h3 = *heap;
    release_below(heap, a, below);
    proof {
        h3.lemma_released_trans(h2, h0);
        h3.lemma_only_below_trans(h2, h0, below as int);
        heap.lemma_released_trans(h3, h0);
        heap.lemma_only_below_trans(h3, h0, below as int);
    }
}

/// What releasing the storage value at `p` does to the live blocks, after
/// its tag: a scalar arm releases the record alone; an arm that owns a block
/// below the record releases that block too.
pub open spec fn value_release_done(new: Heap, old: Heap, p: int) -> bool {
    match value_of_words(words_at(old.mem(), p)) {
        Some(ValueRecord::Int(_)) | Some(ValueRecord::Bool(_)) | Some(ValueRecord::Null) => forall|
            x: u32,
        | #[trigger] new.live().contains(x) == (old.live().contains(x) && x != p),
        Some(ValueRecord::String(q)) | Some(ValueRecord::BigDecimal(q)) | Some(
            ValueRecord::Array(q),
        ) | Some(ValueRecord::Bytes(q)) | Some(ValueRecord::BigInt(q)) => (q < p && old.is_block(
            q as int,
        )) ==> !new.live().contains(q),
        None => true,
    }
}

/// Releases the storage value tree at `p`: its record, and the blocks that
/// its active arm owns, recursively; arms that hold a scalar own nothing.
/// Children are followed only below their parent.
fn release_value_at(heap: &mut Heap, p: u32)
    requires
        old(heap).wf(),
    ensures
        final(heap).wf(),
        final(heap).released_from(*old(heap)),
        final(heap).only_below(*old(heap), p + 1),
        old(heap).is_block(p as int) ==> !final(heap).live().contains(p),
        old(heap).is_block(p as int) ==> value_release_done(*final(heap), *old(heap), p as int),
    decreases p, 0int,
{
    let ghost h0 = *heap;
    proof {
        h0.lemma_released_refl();
    }
    if !heap.has_block(p) {
        return;
    }
    match read_tagged(heap, p) {
        Some((tag, q)) => {
            if tag == 0 {
                release_below(heap, q, p);
            } else if tag == 2 {
                if q < p && heap.has_block(q) {
                    if let Some(d) = heap.word_of(q, 0) {
                        release_typed_array(heap, d, q);
                    }
                    let ghost h1 = *heap;
                    if let Some(e) = heap.word_of(q, 1) {
                        release_typed_array(heap, e, q);
                    }
                    let ghost h2 = *heap;
                    release_below(heap, q, p);
                    proof {
                        h2.lemma_released_trans(h1, h0);
                        h2.lemma_only_below_trans(h1, h0, q as int);
                        heap.lemma_released_trans(h2, h0);
                        heap.lemma_only_below_trans(h2, h0, p as int);
                    }
                }
            } else if tag == 4 && q < p {
                release_array_of_values(heap, q, p, false);
            } else if tag == 6 || tag == 7 {
                release_typed_array(heap, q, p);
            }
        },
        None => {},
    }
    let ghost h3 = *heap;
    proof {
        heap.lemma_block_below_top(p as int);
    }
    let b: AscBox<()> = AscBox::from_ptr(p);
    b.release(heap);
    proof {
        heap.lemma_released_trans(h3, h0);
        heap.lemma_only_below_trans(h3, h0, p + 1);
    }
}

/// What releasing the JSON value at `p` does to the live blocks, after its
/// tag: null and booleans release the record alone; numbers, strings,
/// arrays and objects release the block they own below the record too.
pub open spec fn json_release_done(new: Heap, old: Heap, p: int) -> bool {
    match json_value_of_words(words_at(old.mem(), p)) {
        Some(JsonValueRecord::Null) | Some(JsonValueRecord::Bool(_)) => forall|x: u32| #[trigger]
            new.live().contains(x) == (old.live().contains(x) && x != p),
        Some(JsonValueRecord::Number(q)) | Some(JsonValueRecord::String(q)) | Some(
            JsonValueRecord::Array(q),
        ) | Some(JsonValueRecord::Object(q)) => (q < p && old.is_block(q as int))
            ==> !new.live().contains(q),
        None => true,
    }
}

/// Releases the JSON value tree at `p`: its record, and the blocks that its
/// active arm owns, recursively. Children are followed only below their
/// parent.
fn release_json_value_at(heap: &mut Heap, p: u32)
    requires
        old(heap).wf(),
    ensures
        final(heap).wf(),
        final(heap).released_from(*old(heap)),
        final(heap).only_below(*old(heap), p + 1),
        old(heap).is_block(p as int) ==> !final(heap).live().contains(p),
        old(heap).is_block(p as int) ==> json_release_done(*final(heap), *old(heap), p as int),
    decreases p, 0int,
{
    let ghost h0 = *heap;
    proof {
        h0.lemma_released_refl();
    }
    if !heap.has_block(p) {
        return;
    }
    match read_tagged(heap, p) {
        Some((tag, q)) => {
            if tag == 2 || tag == 3 {
                release_below(heap, q, p);
            } else if tag == 4 && q < p {
                release_array_of_values(heap, q, p, true);
            } else if tag == 5 {
                if q < p && heap.has_block(q) {
                    if let Some(a) = heap.word_of(q, 0) {
                        if a < q {
                            release_entries(heap, a, q);
                        }
                    }
                    let ghost h1 = *heap;
                    release_below(heap, q, p);
                    proof {
                        heap.lemma_released_trans(h1, h0);
                        heap.lemma_only_below_trans(h1, h0, p as int);
                    }
                }
            }
        },
        None => {},
    }
    let ghost h3 = *heap;
    proof {
        heap.lemma_block_below_top(p as int);
    }
    let b: AscBox<()> = AscBox::from_ptr(p);
    b.release(heap);
    proof {
        heap.lemma_released_trans(h3, h0);
        heap.lemma_only_below_trans(h3, h0, p + 1);
    }
}

/// Releases the entries of an object (each key, value tree and entry
/// record), then the entries' buffer and array, when they lie below `below`.
fn release_entries(heap: &mut Heap, a: u32, below: u32)
    requires
        old(heap).wf(),
    ensures
        final(heap).wf(),
        final(heap).released_from(*old(heap)),
        final(heap).only_below(*old(heap), below as int),
    decreases a, 1int,
{
    let ghost h0 = *heap;
    proof {
        h0.lemma_released_refl();
    }
    if !(a < below && heap.has_block(a)) {
        return;
    }
    let arr: AscRef<AscArray<()>> = AscRef::at(a);
    let items = match arr.as_slice(heap) {
        Some(v) => v,
        None => Vec::new(),
    };
    let mut i: usize = 0;
    while i < items.len()
        invariant
            heap.wf(),
            heap.released_from(h0),
            heap.only_below(h0, a as int),
            h0 == *old(heap),
            heap.is_block(a as int),
            a < below,
        decreases items@.len() - i,
    {
        let e = items[i].as_ptr();
        if e < a && heap.has_block(e) {
            let ghost h1 = *heap;
            if let Some(k) = heap.word_of(e, 0) {
                release_below(heap, k, e);
            }
            let ghost h2 = *heap;
            if let Some(v) = heap.word_of(e, 1) {
                if v < e {
                    release_json_value_at(heap, v);
                }
            }
            let ghost h3 = *heap;
            release_below(heap, e, a);
            proof {
                h2.lemma_released_trans(h1, h0);
                h2.lemma_only_below_trans(h1, h0, a as int);
                h3.lemma_released_trans(h2, h0);
                h3.lemma_only_below_trans(h2, h0, a as int);
                heap.lemma_released_trans(h3, h0);
                heap.lemma_only_below_trans(h3, h0, a as int);
            }
        }
        i += 1;
    }
    let ghost h4 = *heap;
    if let Some(buffer) = heap.word_of(a, 0) {
        release_below(heap, buffer, a);
    }
    let ghost h5 = *heap;
    release_below(heap, a, below);
    proof {
        h5.lemma_released_trans(h4, h0);
        h5.lemma_only_below_trans(h4, h0, below as int);
        heap.lemma_released_trans(h5, h0);
        heap.lemma_only_below_trans(h5, h0, below as int);
    }
}

impl AscBox<AscValue> {
    /// Releases the value after its tag: the record; for a string, decimal,
    /// array, bytes or big integer the block the arm owns, and what that
    /// block owns in turn; for an integer, boolean or null nothing more.
    /// Only blocks at or below the record are released, and memory is left
    /// as it was.
    pub fn release_tree(self, heap: &mut Heap)
        requires
            old(heap).wf(),
            old(heap).is_block(self@ as int),
        ensures
            final(heap).wf(),
            final(heap).released_from(*old(heap)),
            !final(heap).live().contains(self@),
            final(heap).only_below(*old(heap), self@ + 1),
            value_release_done(*final(heap), *old(heap), self@ as int),
    {
        release_value_at(heap, self.as_ptr());
    }
}

impl AscBox<AscJsonValue> {
    /// Releases the value after its tag: the record; for a number, string,
    /// array or object the block the arm owns, and what that block owns in
    /// turn; for null or a boolean nothing more. Only blocks at or below the
    /// record are released, and memory is left as it was.
    pub fn release_tree(self, heap: &mut Heap)
        requires
            old(heap).wf(),
            old(heap).is_block(self@ as int),
        ensures
            final(heap).wf(),
            final(heap).released_from(*old(heap)),
            !final(heap).live().contains(self@),
            final(heap).only_below(*old(heap), self@ + 1),
            json_release_done(*final(heap), *old(heap), self@ as int),
    {
        release_json_value_at(heap, self.as_ptr());
    }
}

} // verus!
