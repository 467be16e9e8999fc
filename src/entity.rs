//! Storage values and entities, and their trees of tagged records on the
//! host heap.
//!
//! An entity is an ordered map: a sequence of `(key, value)` entries in the
//! order they were inserted. Keys are not made unique here; the last of two
//! equal keys is the caller's business.

use crate::boxed::{AscBox, AscRef};
use crate::buf::{lemma_typed_array_kept, typed_array_bytes, typed_bytes_at, AscTypedArray};
use crate::heap::{block_bytes, block_size, capped, capped_add, Heap, MEMORY_LIMIT};
use crate::num::{decimal_parts, BigDecimal, BigInt};
use crate::sequence::{units_at, words_at};
use crate::string::{decode_utf16_lossy, encode_utf16, lemma_utf16_round_trip, AscStr, AscString};
use crate::value::{
    array_items, lemma_array_kept, lemma_value_record_round_trip, ptrs_of, ref_ptrs_of,
    value_of_words, AscArray, AscMap, AscMapEntry, AscValue, AscValueData, ValueRecord,
};
use vstd::prelude::*;

verus! {

broadcast use vstd::std_specs::vec::group_vec_axioms;

/// A storage value.
#[derive(Debug, PartialEq, Eq)]
pub enum Value {
    String(String),
    Int(i32),
    BigDecimal(BigDecimal),
    Bool(bool),
    Array(Vec<Value>),
    Null,
    Bytes(Vec<u8>),
    BigInt(BigInt),
}

/// The mathematical content of a storage value.
pub enum StoreModel {
    String(Seq<char>),
    Int(i32),
    BigDecimal(Seq<u8>, Seq<u8>),
    Bool(bool),
    Array(Seq<StoreModel>),
    Null,
    Bytes(Seq<u8>),
    BigInt(Seq<u8>),
}

pub open spec fn store_models_of(items: Seq<Value>) -> Seq<StoreModel>
    decreases items,
{
    Seq::new(
        items.len(),
        |i: int|
            if 0 <= i < items.len() {
                store_model_of(items[i])
            } else {
                StoreModel::Null
            },
    )
}

/// The content of a storage value.
pub open spec fn store_model_of(v: Value) -> StoreModel
    decreases v,
{
    match v {
        Value::String(s) => StoreModel::String(s@),
        Value::Int(x) => StoreModel::Int(x),
        Value::BigDecimal(d) => StoreModel::BigDecimal(d.spec_digits(), d.spec_exp()),
        Value::Bool(b) => StoreModel::Bool(b),
        Value::Array(items) => StoreModel::Array(store_models_of(items@)),
        Value::Null => StoreModel::Null,
        Value::Bytes(b) => StoreModel::Bytes(b@),
        Value::BigInt(x) => StoreModel::BigInt(x@),
    }
}

/// Bytes that the tree of records of a value takes.
pub open spec fn store_size(m: StoreModel) -> int
    decreases m,
{
    match m {
        StoreModel::String(s) => block_size(2 * encode_utf16(s).len() as int) + block_size(16),
        StoreModel::Int(_) => block_size(16),
        StoreModel::BigDecimal(d, e) => block_size(d.len() as int) + block_size(12) + block_size(
            e.len() as int,
        ) + block_size(12) + block_size(8) + block_size(16),
        StoreModel::Bool(_) => block_size(16),
        StoreModel::Array(items) => store_list_size(items) + block_size(4 * items.len() as int)
            + block_size(16) + block_size(16),
        StoreModel::Null => block_size(16),
        StoreModel::Bytes(b) => block_size(b.len() as int) + block_size(12) + block_size(16),
        StoreModel::BigInt(b) => block_size(b.len() as int) + block_size(12) + block_size(16),
    }
}

/// Bytes that the trees of `items` take.
pub open spec fn store_list_size(items: Seq<StoreModel>) -> int
    decreases items,
{
    if items.len() == 0 {
        0
    } else {
        store_list_size(items.drop_last()) + store_size(items.last())
    }
}

pub proof fn lemma_store_size_nonneg(m: StoreModel)
    ensures
        store_size(m) >= 0,
    decreases m,
{
    if let StoreModel::Array(items) = m {
        lemma_store_list_size_nonneg(items);
    }
}

pub proof fn lemma_store_list_size_nonneg(items: Seq<StoreModel>)
    ensures
        store_list_size(items) >= 0,
    decreases items,
{
    if items.len() > 0 {
        lemma_store_list_size_nonneg(items.drop_last());
        lemma_store_size_nonneg(items.last());
    }
}

pub proof fn lemma_store_list_size_prefix(items: Seq<StoreModel>, k: int)
    requires
        0 <= k <= items.len(),
    ensures
        store_list_size(items.subrange(0, k)) <= store_list_size(items),
    decreases items.len(),
{
    if k == items.len() {
        assert(items.subrange(0, k) =~= items);
    } else {
        lemma_store_list_size_prefix(items.drop_last(), k);
        assert(items.drop_last().subrange(0, k) =~= items.subrange(0, k));
        lemma_store_size_nonneg(items.last());
    }
}

/// The trees at `items` decoded in order, when each lies below `q`.
pub open spec fn decode_store_list(heap: Heap, items: Seq<u32>, q: int) -> Option<Seq<StoreModel>>
    decreases q, items.len(),
{
    if items.len() == 0 {
        Some(Seq::empty())
    } else if 0 <= items.last() < q {
        match (
            decode_store_list(heap, items.drop_last(), q),
            decode_store(heap, items.last() as int),
        ) {
            (Some(s), Some(m)) => Some(s.push(m)),
            _ => None,
        }
    } else {
        None
    }
}

/// The items of the array record at `q`, decoded.
pub open spec fn decode_store_items(heap: Heap, q: int) -> Option<Seq<StoreModel>> {
    match array_items(heap, q) {
        Some(items) => decode_store_list(heap, items, q),
        None => None,
    }
}

/// The storage value whose tree of records starts at `p`: every child lies
/// below its parent, strings decode with `U+FFFD` for unpaired surrogates.
pub open spec fn decode_store(heap: Heap, p: int) -> Option<StoreModel>
    decreases p, 0int,
{
    if !heap.is_block(p) {
        None
    } else {
        match value_of_words(words_at(heap.mem(), p)) {
            Some(ValueRecord::String(q)) => {
                if q < p && heap.is_block(q as int) {
                    Some(StoreModel::String(decode_utf16_lossy(units_at(heap.mem(), q as int))))
                } else {
                    None
                }
            },
            Some(ValueRecord::Int(x)) => Some(StoreModel::Int(x)),
            Some(ValueRecord::BigDecimal(q)) => {
                if q < p {
                    match decimal_parts(heap, q as int) {
                        Some((d, e)) => Some(StoreModel::BigDecimal(d, e)),
                        None => None,
                    }
                } else {
                    None
                }
            },
            Some(ValueRecord::Bool(b)) => Some(StoreModel::Bool(b)),
            Some(ValueRecord::Array(q)) => {
                if q < p {
                    match (match array_items(heap, q as int) {
                        Some(items) => decode_store_list(heap, items, q as int),
                        None => None,
                    }) {
                        Some(s) => Some(StoreModel::Array(s)),
                        None => None,
                    }
                } else {
                    None
                }
            },
            Some(ValueRecord::Null) => Some(StoreModel::Null),
            Some(ValueRecord::Bytes(q)) => {
                if q < p {
                    match typed_array_bytes(heap, q as int) {
                        Some(b) => Some(StoreModel::Bytes(b)),
                        None => None,
                    }
                } else {
                    None
                }
            },
            Some(ValueRecord::BigInt(q)) => {
                if q < p {
                    match typed_array_bytes(heap, q as int) {
                        Some(b) => Some(StoreModel::BigInt(b)),
                        None => None,
                    }
                } else {
                    None
                }
            },
            None => None,
        }
    }
}

proof fn lemma_new_blocks_above(new: Heap, old: Heap, p: int, q: int)
    requires
        old.wf(),
        new.grows_from(old),
        old.is_block(p),
        q < p,
    ensures
        new.is_block(q) == old.is_block(q),
{
    old.lemma_block_below_top(p);
}

proof fn lemma_decimal_kept(new: Heap, old: Heap, q: int)
    requires
        old.wf(),
        new.grows_from(old),
        old.is_block(q),
    ensures
        decimal_parts(new, q) == decimal_parts(old, q),
{
    new.lemma_keeps(old, q);
    let w = words_at(old.mem(), q);
    if w.len() >= 2 && w[0] < q && w[1] < q {
        lemma_new_blocks_above(new, old, q, w[0] as int);
        lemma_new_blocks_above(new, old, q, w[1] as int);
        if old.is_block(w[0] as int) {
            lemma_typed_array_kept(new, old, w[0] as int);
        }
        if old.is_block(w[1] as int) {
            lemma_typed_array_kept(new, old, w[1] as int);
        }
    }
}

/// Decoding a tree gives the same value in a memory grown from the one
/// that holds it.
pub proof fn lemma_store_kept(new: Heap, old: Heap, p: int)
    requires
        old.wf(),
        new.grows_from(old),
        old.is_block(p),
    ensures
        decode_store(new, p) == decode_store(old, p),
    decreases p, 2int, 0int,
{
    new.lemma_keeps(old, p);
    match value_of_words(words_at(old.mem(), p)) {
        Some(ValueRecord::Bytes(q)) | Some(ValueRecord::BigInt(q)) => {
            if q < p {
                lemma_new_blocks_above(new, old, p, q as int);
                if old.is_block(q as int) {
                    lemma_typed_array_kept(new, old, q as int);
                }
            }
        },
        Some(ValueRecord::String(q)) => {
            if q < p {
                lemma_new_blocks_above(new, old, p, q as int);
                if old.is_block(q as int) {
                    new.lemma_keeps(old, q as int);
                }
            }
        },
        Some(ValueRecord::BigDecimal(q)) => {
            if q < p {
                lemma_new_blocks_above(new, old, p, q as int);
                if old.is_block(q as int) {
                    lemma_decimal_kept(new, old, q as int);
                }
            }
        },
        Some(ValueRecord::Array(q)) => {
            if q < p {
                lemma_new_blocks_above(new, old, p, q as int);
                if old.is_block(q as int) {
                    lemma_array_kept(new, old, q as int);
                    if array_items(old, q as int) is Some {
                        old.lemma_block_below_top(q as int);
                        lemma_store_list_kept(new, old, q as int, array_items(old, q as int)->Some_0, q as int);
                    }
                } else {
                    assert(array_items(new, q as int) is None);
                }
            }
        },
        _ => {},
    }
}

proof fn lemma_store_list_kept(new: Heap, old: Heap, p: int, items: Seq<u32>, q: int)
    requires
        old.wf(),
        new.grows_from(old),
        old.is_block(p),
        0 <= q <= p,
    ensures
        decode_store_list(new, items, q) == decode_store_list(old, items, q),
    decreases q, 0int, items.len(),
{
    if items.len() > 0 && 0 <= items.last() < q {
        lemma_store_list_kept(new, old, p, items.drop_last(), q);
        let x = items.last() as int;
        lemma_new_blocks_above(new, old, p, x);
        if old.is_block(x) {
            lemma_store_kept(new, old, x);
        }
    }
}

proof fn lemma_items_kept_at(new: Heap, old: Heap, q: int)
    requires
        old.wf(),
        new.grows_from(old),
        old.is_block(q),
    ensures
        decode_store_items(new, q) == decode_store_items(old, q),
{
    old.lemma_block_below_top(q);
    lemma_array_kept(new, old, q);
    if array_items(old, q) is Some {
        lemma_store_list_kept(new, old, q, array_items(old, q)->Some_0, q);
    }
}

proof fn lemma_list_kept(new: Heap, old: Heap, items: Seq<u32>, q: int)
    requires
        old.wf(),
        new.grows_from(old),
        forall|i: int| 0 <= i < items.len() ==> old.is_block(#[trigger] items[i] as int),
    ensures
        decode_store_list(new, items, q) == decode_store_list(old, items, q),
    decreases items.len(),
{
    if items.len() > 0 {
        lemma_list_kept(new, old, items.drop_last(), q);
        assert(old.is_block(items[items.len() - 1] as int));
        lemma_store_kept(new, old, items.last() as int);
    }
}

proof fn lemma_list_bound(heap: Heap, items: Seq<u32>, q1: int, q2: int)
    requires
        forall|i: int| 0 <= i < items.len() ==> #[trigger] items[i] < q1 && items[i] < q2,
    ensures
        decode_store_list(heap, items, q1) == decode_store_list(heap, items, q2),
    decreases items.len(),
{
    if items.len() > 0 {
        assert(items[items.len() - 1] < q1);
        lemma_list_bound(heap, items.drop_last(), q1, q2);
    }
}

proof fn lemma_list_push(heap: Heap, items: Seq<u32>, x: u32, q: int)
    requires
        0 <= x < q,
    ensures
        decode_store_list(heap, items.push(x), q) == match (
            decode_store_list(heap, items, q),
            decode_store(heap, x as int),
        ) {
            (Some(s), Some(m)) => Some(s.push(m)),
            _ => None::<Seq<StoreModel>>,
        },
{
    assert(items.push(x).drop_last() =~= items);
}

proof fn lemma_list_prefix(heap: Heap, items: Seq<u32>, q: int, k: int)
    requires
        0 <= k <= items.len(),
    ensures
        decode_store_list(heap, items, q) is Some ==> decode_store_list(
            heap,
            items.subrange(0, k),
            q,
        ) is Some,
    decreases items.len(),
{
    if k == items.len() {
        assert(items.subrange(0, k) =~= items);
    } else {
        lemma_list_prefix(heap, items.drop_last(), q, k);
        assert(items.drop_last().subrange(0, k) =~= items.subrange(0, k));
    }
}

proof fn lemma_leaf(h0: Heap, h1: Heap, h2: Heap, q: int, b: u32)
    requires
        h0.wf(),
        h1.wf(),
        h1.grows_from(h0),
        h1.is_block(q),
        h2.grown_by(h1, b),
    ensures
        h2.grows_from(h0),
        h2.is_block(b as int),
        !h0.is_block(b as int),
        q < b,
        h2.is_block(q),
        typed_array_bytes(h2, q) == typed_array_bytes(h1, q),
        units_at(h2.mem(), q) == units_at(h1.mem(), q),
        decimal_parts(h2, q) == decimal_parts(h1, q),
{
    h1.lemma_block_below_top(q);
    h2.lemma_grown_by_grows(h1, b);
    h2.lemma_grows_trans(h1, h0);
    lemma_typed_array_kept(h2, h1, q);
    lemma_decimal_kept(h2, h1, q);
    h2.lemma_keeps(h1, q);
    if h0.is_block(b as int) {
        h0.lemma_block_below_top(b as int);
    }
}

impl Value {
    fn items_to_raw(items: &Vec<Value>, heap: &mut Heap) -> (r: AscBox<AscArray<AscValue>>)
        requires
            old(heap).wf(),
            old(heap).mem().len() + store_list_size(store_models_of(items@)) + block_size(
                4 * items@.len() as int,
            ) + block_size(16) <= MEMORY_LIMIT,
        ensures
            final(heap).wf(),
            final(heap).grows_from(*old(heap)),
            final(heap).is_block(r@ as int),
            !old(heap).is_block(r@ as int),
            final(heap).mem().len() == old(heap).mem().len() + store_list_size(store_models_of(items@))
                + block_size(4 * items@.len() as int) + block_size(16),
            decode_store_items(*final(heap), r@ as int) == Some(store_models_of(items@)),
        decreases items,
    {
        let ghost h0 = *heap;
        proof {
            h0.lemma_grows_refl();
        }
        let ghost top: int = 0x1_0000_0000;
        let mut kids: Vec<AscBox<AscValue>> = Vec::new();
        let mut i: usize = 0;
        proof {
            assert(ptrs_of(kids@) =~= Seq::<u32>::empty());
            assert(store_models_of(items@.subrange(0, 0)) =~= Seq::<StoreModel>::empty());
            lemma_store_list_size_nonneg(store_models_of(items@));
        }
        while i < items.len()
            invariant
                heap.wf(),
                heap.grows_from(h0),
                h0 == *old(heap),
                top == 0x1_0000_0000,
                i <= items@.len(),
                kids@.len() == i,
                forall|j: int|
                    0 <= j < i ==> heap.is_block(#[trigger] ptrs_of(kids@)[j] as int) && !h0.is_block(
                        ptrs_of(kids@)[j] as int,
                    ),
                decode_store_list(*heap, ptrs_of(kids@), top) == Some(
                    store_models_of(items@.subrange(0, i as int)),
                ),
                heap.mem().len() == h0.mem().len() + store_list_size(
                    store_models_of(items@.subrange(0, i as int)),
                ),
                h0.mem().len() + store_list_size(store_models_of(items@)) + block_size(
                    4 * items@.len() as int,
                ) + block_size(16) <= MEMORY_LIMIT,
            decreases items@.len() - i,
        {
            let ghost h1 = *heap;
            proof {
                assert(store_models_of(items@.subrange(0, i + 1)) =~= store_models_of(
                    items@.subrange(0, i as int),
                ).push(store_model_of(items@[i as int])));
                assert(store_models_of(items@.subrange(0, i + 1)) =~= store_models_of(items@).subrange(
                    0,
                    i + 1,
                ));
                lemma_store_list_size_prefix(store_models_of(items@), i + 1);
                assert(store_models_of(items@.subrange(0, i + 1)).drop_last() =~= store_models_of(
                    items@.subrange(0, i as int),
                ));
                lemma_store_size_nonneg(store_model_of(items@[i as int]));
            }
            let kid = items[i].to_raw_fits(heap);
            proof {
                heap.lemma_grows_trans(h1, h0);
                lemma_list_kept(*heap, h1, ptrs_of(kids@), top);
                lemma_list_push(*heap, ptrs_of(kids@), kid@, top);
                assert(ptrs_of(kids@.push(kid)) =~= ptrs_of(kids@).push(kid@));
                assert(store_models_of(items@.subrange(0, i + 1)) =~= store_models_of(
                    items@.subrange(0, i as int),
                ).push(store_model_of(items@[i as int])));
            }
            kids.push(kid);
            i += 1;
        }
        proof {
            assert(items@.subrange(0, i as int) =~= items@);
        }
        let ghost h2 = *heap;
        let ghost ptrs = ptrs_of(kids@);
        let a = AscArray::new(heap, kids).unwrap();
        proof {
            {
                heap.lemma_grows_trans(h2, h0);
                lemma_list_kept(*heap, h2, ptrs, top);
                assert forall|j: int| 0 <= j < ptrs.len() implies #[trigger] ptrs[j] < a@ && ptrs[j]
                    < top by {
                    h2.lemma_block_below_top(ptrs[j] as int);
                }
                lemma_list_bound(*heap, ptrs, a@ as int, top);
                if h0.is_block(a@ as int) {
                    assert(h2.is_block(a@ as int));
                }
            }
        }
        a
    }

    fn items_raw_size(items: &Vec<Value>) -> (r: u64)
        ensures
            r == capped(store_list_size(store_models_of(items@))),
        decreases items,
    {
        let mut acc: u64 = 0;
        let mut i: usize = 0;
        proof {
            assert(store_models_of(items@.subrange(0, 0)) =~= Seq::<StoreModel>::empty());
        }
        while i < items.len()
            invariant
                i <= items@.len(),
                acc == capped(store_list_size(store_models_of(items@.subrange(0, i as int)))),
            decreases items@.len() - i,
        {
            let k = items[i].raw_size();
            proof {
                let prev = store_models_of(items@.subrange(0, i as int));
                let next = store_models_of(items@.subrange(0, i + 1));
                assert(next =~= prev.push(store_model_of(items@[i as int])));
                assert(next.drop_last() =~= prev);
                lemma_store_list_size_nonneg(prev);
                lemma_store_size_nonneg(store_model_of(items@[i as int]));
            }
            acc = capped_add(acc, k);
            i += 1;
        }
        proof {
            assert(items@.subrange(0, i as int) =~= items@);
        }
        acc
    }

    /// Bytes that the tree of records of this value takes, kept at most one
    /// past the memory limit.
    pub fn raw_size(&self) -> (r: u64)
        ensures
            r == capped(store_size(store_model_of(*self))),
        decreases self,
    {
        let fixed = block_bytes(12) + block_bytes(16);
        match self {
            Value::String(s) => {
                let n = crate::string::encode_str(s.as_str()).len();
                if n as u64 > MEMORY_LIMIT as u64 / 2 {
                    MEMORY_LIMIT as u64 + 1
                } else {
                    capped_add(block_bytes(2 * n as u64), block_bytes(16))
                }
            },
            Value::Int(_) | Value::Bool(_) | Value::Null => block_bytes(16),
            Value::BigDecimal(d) => {
                let nd = d.digits().to_signed_bytes_le().len();
                let ne = d.exp().to_signed_bytes_le().len();
                if nd as u64 > MEMORY_LIMIT as u64 || ne as u64 > MEMORY_LIMIT as u64 {
                    MEMORY_LIMIT as u64 + 1
                } else {
                    capped_add(
                        block_bytes(nd as u64) + block_bytes(ne as u64),
                        block_bytes(12) + block_bytes(12) + block_bytes(8) + block_bytes(16),
                    )
                }
            },
            Value::Array(items) => {
                let l = Self::items_raw_size(items);
                let n = items.len();
                proof {
                    lemma_store_list_size_nonneg(store_models_of(items@));
                }
                if n as u64 > MEMORY_LIMIT as u64 / 4 {
                    MEMORY_LIMIT as u64 + 1
                } else {
                    capped_add(l, block_bytes(4 * n as u64) + block_bytes(16) + block_bytes(16))
                }
            },
            Value::Bytes(v) => {
                if v.len() as u64 > MEMORY_LIMIT as u64 {
                    MEMORY_LIMIT as u64 + 1
                } else {
                    capped_add(block_bytes(v.len() as u64), fixed)
                }
            },
            Value::BigInt(x) => {
                let n = x.to_signed_bytes_le().len();
                if n as u64 > MEMORY_LIMIT as u64 {
                    MEMORY_LIMIT as u64 + 1
                } else {
                    capped_add(block_bytes(n as u64), fixed)
                }
            },
        }
    }

    /// Allocates the tree of records of this value; `None`, with memory
    /// untouched, exactly when memory cannot grow by the tree's size.
    pub fn to_raw(&self, heap: &mut Heap) -> (r: Option<AscBox<AscValue>>)
        requires
            old(heap).wf(),
        ensures
            final(heap).wf(),
            r is Some <==> old(heap).mem().len() + store_size(store_model_of(*self)) <= MEMORY_LIMIT,
            r is None ==> *final(heap) == *old(heap),
            r matches Some(b) ==> {
                &&& final(heap).grows_from(*old(heap))
                &&& final(heap).mem().len() == old(heap).mem().len() + store_size(store_model_of(*self))
                &&& final(heap).is_block(b@ as int)
                &&& !old(heap).is_block(b@ as int)
                &&& decode_store(*final(heap), b@ as int) == Some(store_model_of(*self))
            },
    {
        let need = self.raw_size();
        proof {
            lemma_store_size_nonneg(store_model_of(*self));
        }
        if heap.len() as u64 + need > MEMORY_LIMIT as u64 {
            return None;
        }
        Some(self.to_raw_fits(heap))
    }

    /// Allocates the tree of records of this value, in memory known to
    /// suffice.
    #[verifier::rlimit(100)]
    fn to_raw_fits(&self, heap: &mut Heap) -> (r: AscBox<AscValue>)
        requires
            old(heap).wf(),
            old(heap).mem().len() + store_size(store_model_of(*self)) <= MEMORY_LIMIT,
        ensures
            final(heap).wf(),
            final(heap).grows_from(*old(heap)),
            final(heap).mem().len() == old(heap).mem().len() + store_size(store_model_of(*self)),
            final(heap).is_block(r@ as int),
            !old(heap).is_block(r@ as int),
            decode_store(*final(heap), r@ as int) == Some(store_model_of(*self)),
        decreases self,
    {
        let ghost h0 = *heap;
        proof {
            h0.lemma_grows_refl();
        }
        match self {
            Value::String(s) => {
                let t = AscString::new(heap, s.as_str()).unwrap();
                let ghost h1 = *heap;
                let ghost q = t@;
                proof {
                    h1.lemma_grown_by_grows(h0, q);
                    lemma_utf16_round_trip(s@);
                }
                let r = AscValue::string(heap, t).unwrap();
                proof {
                    lemma_leaf(h0, h1, *heap, q as int, r@);
                    lemma_value_record_round_trip(ValueRecord::String(q));
                }
                r
            },
            Value::Int(x) => {
                let r = AscValue::integer(heap, *x).unwrap();
                proof {
                    let p = r@;
                    heap.lemma_grown_by_grows(h0, p);
                    if h0.is_block(p as int) {
                        h0.lemma_block_below_top(p as int);
                    }
                    lemma_value_record_round_trip(ValueRecord::Int(*x));
                }
                r
            },
            Value::BigDecimal(d) => {
                let arr = d.to_raw(heap).unwrap();
                let ghost h1 = *heap;
                let ghost q = arr@;
                let r = AscValue::bigdecimal(heap, arr).unwrap();
                proof {
                    lemma_leaf(h0, h1, *heap, q as int, r@);
                    lemma_value_record_round_trip(ValueRecord::BigDecimal(q));
                }
                r
            },
            Value::Bool(b) => {
                let r = AscValue::bool(heap, *b).unwrap();
                proof {
                    let p = r@;
                    heap.lemma_grown_by_grows(h0, p);
                    if h0.is_block(p as int) {
                        h0.lemma_block_below_top(p as int);
                    }
                    lemma_value_record_round_trip(ValueRecord::Bool(*b));
                }
                r
            },
            Value::Array(items) => {
                let arr = Self::items_to_raw(items, heap);
                let ghost h1 = *heap;
                let ghost q = arr@;
                let r = AscValue::array(heap, arr).unwrap();
                proof {
                    lemma_leaf(h0, h1, *heap, q as int, r@);
                    lemma_value_record_round_trip(ValueRecord::Array(q));
                    lemma_items_kept_at(*heap, h1, q as int);
                }
                r
            },
            Value::Null => {
                let r = AscValue::null(heap).unwrap();
                proof {
                    let p = r@;
                    heap.lemma_grown_by_grows(h0, p);
                    if h0.is_block(p as int) {
                        h0.lemma_block_below_top(p as int);
                    }
                    lemma_value_record_round_trip(ValueRecord::Null);
                }
                r
            },
            Value::Bytes(v) => {
                let arr = AscTypedArray::from_bytes(heap, v.as_slice()).unwrap();
                let ghost h1 = *heap;
                let ghost q = arr@;
                let r = AscValue::bytes(heap, arr).unwrap();
                proof {
                    lemma_leaf(h0, h1, *heap, q as int, r@);
                    lemma_value_record_round_trip(ValueRecord::Bytes(q));
                }
                r
            },
            Value::BigInt(x) => {
                let arr = x.to_raw(heap).unwrap();
                let ghost h1 = *heap;
                let ghost q = arr@;
                let r = AscValue::bigint(heap, arr).unwrap();
                proof {
                    lemma_leaf(h0, h1, *heap, q as int, r@);
                    lemma_value_record_round_trip(ValueRecord::BigInt(q));
                }
                r
            },
        }
    }

    fn items_from_raw(heap: &Heap, q: u32) -> (r: Option<Vec<Value>>)
        requires
            heap.wf(),
        ensures
            match decode_store_items(*heap, q as int) {
                Some(s) => (r matches Some(v) && store_models_of(v@) == s),
                None => r is None,
            },
        decreases q,
    {
        if !heap.has_block(q) {
            return None;
        }
        let arr: AscRef<AscArray<AscValue>> = AscRef::at(q);
        let refs = match arr.as_slice(heap) {
            Some(v) => v,
            None => return None,
        };
        let ghost items = ref_ptrs_of(refs@);
        let mut out: Vec<Value> = Vec::new();
        let mut i: usize = 0;
        assert(items.subrange(0, 0) =~= Seq::<u32>::empty());
        assert(store_models_of(out@) =~= Seq::<StoreModel>::empty());
        while i < refs.len()
            invariant
                heap.wf(),
                array_items(*heap, q as int) == Some(items),
                items == ref_ptrs_of(refs@),
                i <= refs@.len(),
                decode_store_list(*heap, items.subrange(0, i as int), q as int) == Some(
                    store_models_of(out@),
                ),
            decreases refs@.len() - i,
        {
            let item: AscRef<AscValue> = AscRef::at(refs[i].as_ptr());
            let ghost next = items.subrange(0, i + 1);
            proof {
                assert(next.drop_last() =~= items.subrange(0, i as int));
                assert(next.last() == item@);
            }
            if item.as_ptr() >= q {
                proof {
                    lemma_list_prefix(*heap, items, q as int, i + 1);
                }
                return None;
            }
            match Self::from_raw(heap, item) {
                Some(v) => {
                    let ghost before = out@;
                    out.push(v);
                    proof {
                        assert(store_models_of(out@) =~= store_models_of(before).push(
                            store_model_of(v),
                        ));
                    }
                },
                None => {
                    proof {
                        lemma_list_prefix(*heap, items, q as int, i + 1);
                    }
                    return None;
                },
            }
            i += 1;
        }
        proof {
            assert(items.subrange(0, i as int) =~= items);
        }
        Some(out)
    }

    /// Reads the storage value whose tree of records starts at `raw`; `None`
    /// when the tree is malformed.
    pub fn from_raw(heap: &Heap, raw: AscRef<AscValue>) -> (r: Option<Value>)
        requires
            heap.wf(),
        ensures
            match decode_store(*heap, raw@ as int) {
                Some(m) => (r matches Some(v) && store_model_of(v) == m),
                None => r is None,
            },
        decreases raw@,
    {
        let p = raw.as_ptr();
        if !heap.has_block(p) {
            return None;
        }
        if !raw.has_known_tag(heap) {
            return None;
        }
        let d = raw.data(heap);
        match d {
            AscValueData::String(s) => {
                if !(s.as_ptr() < p && heap.has_block(s.as_ptr())) {
                    return None;
                }
                Some(Value::String(s.to_string_lossy(heap)))
            },
            AscValueData::Int(x) => Some(Value::Int(x)),
            AscValueData::BigDecimal(q) => {
                if !(q.as_ptr() < p && heap.has_block(q.as_ptr())) {
                    return None;
                }
                match BigDecimal::from_raw(heap, q) {
                    Some(d) => Some(Value::BigDecimal(d)),
                    None => None,
                }
            },
            AscValueData::Bool(b) => Some(Value::Bool(b)),
            AscValueData::Array(q) => {
                if q.as_ptr() >= p {
                    return None;
                }
                match Self::items_from_raw(heap, q.as_ptr()) {
                    Some(v) => Some(Value::Array(v)),
                    None => None,
                }
            },
            AscValueData::Null => Some(Value::Null),
            AscValueData::Bytes(q) => {
                if q.as_ptr() >= p {
                    return None;
                }
                match typed_bytes_at(heap, q.as_ptr()) {
                    Some(b) => Some(Value::Bytes(b)),
                    None => None,
                }
            },
            AscValueData::BigInt(q) => {
                if q.as_ptr() >= p {
                    return None;
                }
                match typed_bytes_at(heap, q.as_ptr()) {
                    Some(b) => Some(Value::BigInt(BigInt::from_signed_bytes_le(b.as_slice()))),
                    None => None,
                }
            },
        }
    }

    /// The string, or `None` for another variant.
    pub fn as_string(&self) -> (r: Option<&String>)
        ensures
            r == (match self {
                Value::String(s) => Some(s),
                _ => None,
            }),
    {
        match self {
            Value::String(s) => Some(s),
            _ => None,
        }
    }

    /// The integer, or `None` for another variant.
    pub fn as_int(&self) -> (r: Option<i32>)
        ensures
            r == (match self {
                Value::Int(x) => Some(*x),
                _ => None,
            }),
    {
        match self {
            Value::Int(x) => Some(*x),
            _ => None,
        }
    }

    /// The big decimal, or `None` for another variant.
    pub fn as_big_decimal(&self) -> (r: Option<&BigDecimal>)
        ensures
            r == (match self {
                Value::BigDecimal(d) => Some(d),
                _ => None,
            }),
    {
        match self {
            Value::BigDecimal(d) => Some(d),
            _ => None,
        }
    }

    /// The boolean, or `None` for another variant.
    pub fn as_bool(&self) -> (r: Option<bool>)
        ensures
            r == (match self {
                Value::Bool(b) => Some(*b),
                _ => None,
            }),
    {
        match self {
            Value::Bool(b) => Some(*b),
            _ => None,
        }
    }

    /// The items, or `None` for another variant.
    pub fn as_array(&self) -> (r: Option<&Vec<Value>>)
        ensures
            r == (match self {
                Value::Array(v) => Some(v),
                _ => None,
            }),
    {
        match self {
            Value::Array(v) => Some(v),
            _ => None,
        }
    }

    /// `Some(())` for null, `None` for another variant.
    pub fn as_null(&self) -> (r: Option<()>)
        ensures
            r is Some <==> self is Null,
    {
        match self {
            Value::Null => Some(()),
            _ => None,
        }
    }

    /// The bytes, or `None` for another variant.
    pub fn as_bytes(&self) -> (r: Option<&Vec<u8>>)
        ensures
            r == (match self {
                Value::Bytes(b) => Some(b),
                _ => None,
            }),
    {
        match self {
            Value::Bytes(b) => Some(b),
            _ => None,
        }
    }

    /// The big integer, or `None` for another variant.
    pub fn as_big_int(&self) -> (r: Option<&BigInt>)
        ensures
            r == (match self {
                Value::BigInt(x) => Some(x),
                _ => None,
            }),
    {
        match self {
            Value::BigInt(x) => Some(x),
            _ => None,
        }
    }
}


impl AscRef<AscValue> {
    /// A fresh, owned copy of the value tree at this reference: every block
    /// of the tree is copied. `None`, with memory untouched, exactly when the
    /// tree is malformed or memory cannot grow by the copy's size.
    pub fn to_owned(&self, heap: &mut Heap) -> (r: Option<AscBox<AscValue>>)
        requires
            old(heap).wf(),
        ensures
            final(heap).wf(),
            r is Some <==> (decode_store(*old(heap), self@ as int) matches Some(m)
                && old(heap).mem().len() + store_size(m) <= MEMORY_LIMIT),
            r is None ==> *final(heap) == *old(heap),
            r matches Some(b) ==> {
                &&& final(heap).grows_from(*old(heap))
                &&& !old(heap).is_block(b@ as int)
                &&& decode_store(*final(heap), b@ as int) == decode_store(*old(heap), self@ as int)
            },
    {
        let v = match Value::from_raw(heap, AscRef::at(self.as_ptr())) {
            Some(v) => v,
            None => return None,
        };
        v.to_raw(heap)
    }
}

/// An entity: its fields in insertion order.
pub type Entity = Vec<(String, Value)>;

/// Data pointers of the entries of the map record at `m`.
pub open spec fn entry_ptrs(h: Heap, m: int) -> Option<Seq<u32>> {
    let w = words_at(h.mem(), m);
    if h.is_block(m) && w.len() >= 1 && w[0] < m {
        array_items(h, w[0] as int)
    } else {
        None
    }
}

/// The entry record at `q` holds the key `k` and a tree for `v`.
pub open spec fn entry_holds(h: Heap, q: int, k: Seq<char>, v: StoreModel) -> bool {
    let w = words_at(h.mem(), q);
    &&& h.is_block(q)
    &&& w.len() >= 2
    &&& h.is_block(w[0] as int)
    &&& decode_utf16_lossy(units_at(h.mem(), w[0] as int)) == k
    &&& decode_store(h, w[1] as int) == Some(v)
}

/// Whether the entry record at `q` can be read.
pub open spec fn entry_ok(h: Heap, q: int) -> bool {
    let w = words_at(h.mem(), q);
    &&& h.is_block(q)
    &&& w.len() >= 2
    &&& h.is_block(w[0] as int)
    &&& decode_store(h, w[1] as int) is Some
}

/// Whether every entry of the map at `m` can be read.
pub open spec fn entity_ok(h: Heap, m: int) -> bool {
    &&& entry_ptrs(h, m) is Some
    &&& forall|i: int|
        0 <= i < entry_ptrs(h, m)->Some_0.len() ==> entry_ok(h, #[trigger] entry_ptrs(h, m)->Some_0[i] as int)
}

/// `e` holds the entries of the map at `m`, in their order.
pub open spec fn entity_matches(h: Heap, m: int, e: Seq<(String, Value)>) -> bool {
    &&& entry_ptrs(h, m) is Some
    &&& e.len() == entry_ptrs(h, m)->Some_0.len()
    &&& forall|i: int|
        0 <= i < e.len() ==> entry_holds(
            h,
            #[trigger] entry_ptrs(h, m)->Some_0[i] as int,
            e[i].0@,
            store_model_of(e[i].1),
        )
}

/// Two readings of one map agree: same length, same keys in the same order,
/// values of the same content. So the order in which entries were written is
/// the order in which they are read.
pub proof fn lemma_entity_order_kept(h: Heap, m: int, e1: Seq<(String, Value)>, e2: Seq<(String, Value)>)
    requires
        entity_matches(h, m, e1),
        entity_matches(h, m, e2),
    ensures
        e1.len() == e2.len(),
        forall|i: int| 0 <= i < e1.len() ==> (#[trigger] e1[i]).0@ == e2[i].0@,
        forall|i: int| 0 <= i < e1.len() ==> store_model_of((#[trigger] e1[i]).1) == store_model_of(e2[i].1),
{
    assert forall|i: int| 0 <= i < e1.len() implies (#[trigger] e1[i]).0@ == e2[i].0@ && store_model_of(e1[i].1) == store_model_of(e2[i].1) by {
        let q = entry_ptrs(h, m)->Some_0[i] as int;
        assert(entry_holds(h, q, e1[i].0@, store_model_of(e1[i].1)));
        assert(entry_holds(h, q, e2[i].0@, store_model_of(e2[i].1)));
    }
}

proof fn lemma_entry_kept(new: Heap, old: Heap, q: int, k: Seq<char>, v: StoreModel)
    requires
        old.wf(),
        new.grows_from(old),
        entry_holds(old, q, k, v),
    ensures
        entry_holds(new, q, k, v),
        words_at(new.mem(), q) == words_at(old.mem(), q),
{
    new.lemma_keeps(old, q);
    let w = words_at(old.mem(), q);
    new.lemma_keeps(old, w[0] as int);
    lemma_store_kept(new, old, w[1] as int);
}

/// Bytes that the entries of `e` take: each key, value tree and entry
/// record.
pub open spec fn entries_size(e: Seq<(String, Value)>) -> int
    decreases e.len(),
{
    if e.len() == 0 {
        0
    } else {
        entries_size(e.drop_last()) + block_size(2 * encode_utf16(e.last().0@).len() as int)
            + store_size(store_model_of(e.last().1)) + block_size(8)
    }
}

/// Bytes that `entity_to_raw` takes: the entries, their buffer and array,
/// and the map record.
pub open spec fn entity_size(e: Seq<(String, Value)>) -> int {
    entries_size(e) + block_size(4 * e.len() as int) + block_size(16) + block_size(4)
}

proof fn lemma_entries_size_prefix(e: Seq<(String, Value)>, k: int)
    requires
        0 <= k <= e.len(),
    ensures
        0 <= entries_size(e.subrange(0, k)) <= entries_size(e),
    decreases e.len(),
{
    if k == e.len() {
        assert(e.subrange(0, k) =~= e);
        if e.len() > 0 {
            lemma_entries_size_prefix(e.drop_last(), e.len() - 1);
            assert(e.drop_last().subrange(0, e.len() - 1) =~= e.drop_last());
            lemma_store_size_nonneg(store_model_of(e.last().1));
        }
    } else {
        lemma_entries_size_prefix(e.drop_last(), k);
        assert(e.drop_last().subrange(0, k) =~= e.subrange(0, k));
        lemma_store_size_nonneg(store_model_of(e.last().1));
    }
}

/// Allocates an entity as a host map: for each field in order its key, its
/// value's tree and its entry, then the map over the entries. `None`, with
/// memory untouched, exactly when memory cannot grow by `entity_size`.
#[verifier::rlimit(100)]
pub fn entity_to_raw(entity: &Entity, heap: &mut Heap) -> (r: Option<AscBox<AscMap<AscValue>>>)
    requires
        old(heap).wf(),
    ensures
        final(heap).wf(),
        r is Some <==> old(heap).mem().len() + entity_size(entity@) <= MEMORY_LIMIT,
        r is None ==> *final(heap) == *old(heap),
        r matches Some(m) ==> {
            &&& final(heap).grows_from(*old(heap))
            &&& final(heap).mem().len() == old(heap).mem().len() + entity_size(entity@)
            &&& final(heap).is_block(m@ as int)
            &&& entity_matches(*final(heap), m@ as int, entity@)
        },
{
    let ghost h0 = *heap;
    proof {
        h0.lemma_grows_refl();
        lemma_entries_size_prefix(entity@, entity@.len() as int);
    }
    let n = entity.len();
    let mut acc: u64 = 0;
    let mut k: usize = 0;
    assert(entity@.subrange(0, 0) =~= Seq::<(String, Value)>::empty());
    while k < n
        invariant
            n == entity@.len(),
            k <= n,
            acc == capped(entries_size(entity@.subrange(0, k as int))),
        decreases n - k,
    {
        let u = crate::string::encode_str(entity[k].0.as_str()).len();
        let v = entity[k].1.raw_size();
        proof {
            let next = entity@.subrange(0, k + 1);
            assert(next.drop_last() =~= entity@.subrange(0, k as int));
            lemma_entries_size_prefix(entity@, k as int);
            lemma_store_size_nonneg(store_model_of(entity@[k as int].1));
        }
        if u as u64 > MEMORY_LIMIT as u64 / 2 {
            acc = MEMORY_LIMIT as u64 + 1;
        } else {
            acc = capped_add(acc, capped_add(block_bytes(2 * u as u64) + block_bytes(8), v));
        }
        k += 1;
    }
    assert(entity@.subrange(0, n as int) =~= entity@);
    if n as u64 > MEMORY_LIMIT as u64 / 4 {
        return None;
    }
    let need = capped_add(acc, block_bytes(4 * n as u64) + block_bytes(16) + block_bytes(4));
    if heap.len() as u64 + need > MEMORY_LIMIT as u64 {
        return None;
    }
    let mut entries: Vec<AscBox<AscMapEntry<AscValue>>> = Vec::new();
    let mut i: usize = 0;
    while i < entity.len()
        invariant
            heap.wf(),
            heap.grows_from(h0),
            h0 == *old(heap),
            i <= entity@.len(),
            entries@.len() == i,
            heap.mem().len() == h0.mem().len() + entries_size(entity@.subrange(0, i as int)),
            h0.mem().len() + entity_size(entity@) <= MEMORY_LIMIT,
            forall|j: int|
                0 <= j < i ==> entry_holds(
                    *heap,
                    #[trigger] ptrs_of(entries@)[j] as int,
                    entity@[j].0@,
                    store_model_of(entity@[j].1),
                ),
        decreases entity@.len() - i,
    {
        let ghost h1 = *heap;
        proof {
            let next = entity@.subrange(0, i + 1);
            assert(next.drop_last() =~= entity@.subrange(0, i as int));
            assert(next.last() == entity@[i as int]);
            lemma_entries_size_prefix(entity@, i + 1);
            lemma_store_size_nonneg(store_model_of(entity@[i as int].1));
        }
        let key = AscString::new(heap, entity[i].0.as_str()).unwrap();
        let ghost h2 = *heap;
        let ghost kp = key@;
        proof {
            h2.lemma_grown_by_grows(h1, kp);
            h2.lemma_grows_trans(h1, h0);
            lemma_utf16_round_trip(entity@[i as int].0@);
        }
        let value = entity[i].1.to_raw_fits(heap);
        let ghost h3 = *heap;
        let ghost vp = value@;
        proof {
            h3.lemma_grows_trans(h2, h0);
            h3.lemma_keeps(h2, kp as int);
        }
        let entry = AscMapEntry::new(heap, key, value).unwrap();
        proof {
            heap.lemma_grown_by_grows(h3, entry@);
            heap.lemma_grows_trans(h3, h0);
            heap.lemma_keeps(h3, kp as int);
            lemma_store_kept(*heap, h3, vp as int);
            h3.lemma_grows_trans(h2, h1);
            heap.lemma_grows_trans(h3, h1);
            assert forall|j: int| 0 <= j < i implies entry_holds(
                *heap,
                #[trigger] ptrs_of(entries@)[j] as int,
                entity@[j].0@,
                store_model_of(entity@[j].1),
            ) by {
                lemma_entry_kept(
                    *heap,
                    h1,
                    ptrs_of(entries@)[j] as int,
                    entity@[j].0@,
                    store_model_of(entity@[j].1),
                );
            }
            assert(ptrs_of(entries@.push(entry)) =~= ptrs_of(entries@).push(entry@));
            assert(entry_holds(
                *heap,
                entry@ as int,
                entity@[i as int].0@,
                store_model_of(entity@[i as int].1),
            ));
        }
        entries.push(entry);
        i += 1;
    }
    let ghost h4 = *heap;
    let ghost ptrs = ptrs_of(entries@);
    assert(entity@.subrange(0, i as int) =~= entity@);
    let m = AscMap::new(heap, entries).unwrap();
    proof {
        heap.lemma_grows_trans(h4, h0);
        assert forall|j: int| 0 <= j < ptrs.len() implies entry_holds(
            *heap,
            #[trigger] ptrs[j] as int,
            entity@[j].0@,
            store_model_of(entity@[j].1),
        ) by {
            assert(ptrs_of(entries@)[j] == ptrs[j]);
            lemma_entry_kept(*heap, h4, ptrs[j] as int, entity@[j].0@, store_model_of(entity@[j].1));
        }
        assert(entry_ptrs(*heap, m@ as int) == Some(ptrs));
    }
    Some(m)
}

/// Reads the host map at `raw` as an entity, its fields in the map's order.
pub fn entity_from_raw(heap: &Heap, raw: AscRef<AscMap<AscValue>>) -> (r: Option<Entity>)
    requires
        heap.wf(),
    ensures
        r is Some <==> entity_ok(*heap, raw@ as int),
        r matches Some(e) ==> entity_matches(*heap, raw@ as int, e@),
{
    let m = raw.as_ptr();
    if !heap.has_block(m) {
        return None;
    }
    let a = match heap.word_of(m, 0) {
        Some(a) => a,
        None => return None,
    };
    if !(a < m && heap.has_block(a)) {
        return None;
    }
    let arr: AscRef<AscArray<AscMapEntry<AscValue>>> = AscRef::at(a);
    let refs = match arr.as_slice(heap) {
        Some(v) => v,
        None => return None,
    };
    let ghost items = ref_ptrs_of(refs@);
    assert(entry_ptrs(*heap, m as int) == Some(items));
    let mut out: Entity = Vec::new();
    let mut i: usize = 0;
    while i < refs.len()
        invariant
            heap.wf(),
            m == raw@,
            entry_ptrs(*heap, m as int) == Some(items),
            items == ref_ptrs_of(refs@),
            i <= refs@.len(),
            out@.len() == i,
            forall|j: int| 0 <= j < i ==> entry_ok(*heap, #[trigger] items[j] as int),
            forall|j: int|
                0 <= j < i ==> entry_holds(
                    *heap,
                    items[j] as int,
                    (#[trigger] out@[j]).0@,
                    store_model_of(out@[j].1),
                ),
        decreases refs@.len() - i,
    {
        let q = refs[i].as_ptr();
        assert(items[i as int] == q);
        assert(entry_ptrs(*heap, m as int)->Some_0[i as int] == q);
        if !heap.has_block(q) {
            assert(!entry_ok(*heap, q as int));
            assert(!entity_ok(*heap, m as int));
            return None;
        }
        let w = heap.words_of(q);
        if w.len() < 2 {
            assert(!entry_ok(*heap, q as int));
            assert(!entity_ok(*heap, m as int));
            return None;
        }
        let key = match AscStr::from_ptr(heap, w[0]) {
            Some(k) => k.to_string_lossy(heap),
            None => {
                assert(!entry_ok(*heap, q as int));
                return None;
            },
        };
        let value = match Value::from_raw(heap, AscRef::at(w[1])) {
            Some(v) => v,
            None => {
                assert(!entry_ok(*heap, q as int));
                return None;
            },
        };
        out.push((key, value));
        i += 1;
    }
    Some(out)
}

} // verus!
