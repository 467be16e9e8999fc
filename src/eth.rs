//! Ethereum ABI values, and their trees of tagged records on the host heap.

use crate::boxed::{AscBox, AscRef};
use crate::buf::{lemma_typed_array_kept, typed_array_bytes, AscTypedArray};
use crate::heap::{block_bytes, block_size, capped, capped_add, Heap, MEMORY_LIMIT};
use crate::num::BigInt;
use crate::sequence::{bytes_at, units_at, words_at};
use crate::string::{decode_utf16_lossy, encode_utf16, lemma_utf16_round_trip, AscStr, AscString};
use crate::records::{
    AscEthereumSmartContractCall, AscBlock, AscCall, AscEvent, AscEventParam, AscLog, AscTransaction, AscTransactionReceipt,
};
use crate::value::{
    array_items, ethereum_value_of_words, lemma_ethereum_value_record_round_trip, lemma_array_kept, ptrs_of, ref_ptrs_of, AscArray,
    AscEthereumValue, AscEthereumValueData, EthereumValueRecord,
};
use vstd::prelude::*;

verus! {

broadcast use vstd::std_specs::vec::group_vec_axioms;

/// A 20-byte Ethereum address.
#[derive(Clone, Copy, Debug, Default, PartialEq, Eq, Hash, PartialOrd, Ord)]
pub struct Address(pub [u8; 20]);

/// An Ethereum ABI value.
#[derive(Debug, PartialEq, Eq)]
pub enum Value {
    Address(Address),
    FixedBytes(Vec<u8>),
    Bytes(Vec<u8>),
    Int(BigInt),
    Uint(BigInt),
    Bool(bool),
    String(String),
    FixedArray(Vec<Value>),
    Array(Vec<Value>),
    Tuple(Vec<Value>),
}

/// The mathematical content of an ABI value.
pub enum ValueModel {
    Address(Seq<u8>),
    FixedBytes(Seq<u8>),
    Bytes(Seq<u8>),
    Int(Seq<u8>),
    Uint(Seq<u8>),
    Bool(bool),
    String(Seq<char>),
    FixedArray(Seq<ValueModel>),
    Array(Seq<ValueModel>),
    Tuple(Seq<ValueModel>),
}

/// The content of each of `items`.
pub open spec fn models_of(items: Seq<Value>) -> Seq<ValueModel>
    decreases items,
{
    Seq::new(
        items.len(),
        |i: int|
            if 0 <= i < items.len() {
                model_of(items[i])
            } else {
                ValueModel::Bool(false)
            },
    )
}

/// The content of an ABI value.
pub open spec fn model_of(v: Value) -> ValueModel
    decreases v,
{
    match v {
        Value::Address(a) => ValueModel::Address(a.0@),
        Value::FixedBytes(b) => ValueModel::FixedBytes(b@),
        Value::Bytes(b) => ValueModel::Bytes(b@),
        Value::Int(x) => ValueModel::Int(x@),
        Value::Uint(x) => ValueModel::Uint(x@),
        Value::Bool(b) => ValueModel::Bool(b),
        Value::String(s) => ValueModel::String(s@),
        Value::FixedArray(items) => ValueModel::FixedArray(models_of(items@)),
        Value::Array(items) => ValueModel::Array(models_of(items@)),
        Value::Tuple(items) => ValueModel::Tuple(models_of(items@)),
    }
}

/// The trees at `items` decoded in order, when each lies below `q`.
pub open spec fn decode_list(heap: Heap, items: Seq<u32>, q: int) -> Option<Seq<ValueModel>>
    decreases q, items.len(),
{
    if items.len() == 0 {
        Some(Seq::empty())
    } else if 0 <= items.last() < q {
        match (decode_list(heap, items.drop_last(), q), decode_value(heap, items.last() as int)) {
            (Some(s), Some(m)) => Some(s.push(m)),
            _ => None,
        }
    } else {
        None
    }
}

/// Bytes that the tree of records of a value takes.
pub open spec fn model_size(m: ValueModel) -> int
    decreases m,
{
    match m {
        ValueModel::Address(b) => block_size(b.len() as int) + block_size(12) + block_size(16),
        ValueModel::FixedBytes(b) => block_size(b.len() as int) + block_size(12) + block_size(16),
        ValueModel::Bytes(b) => block_size(b.len() as int) + block_size(12) + block_size(16),
        ValueModel::Int(b) => block_size(b.len() as int) + block_size(12) + block_size(16),
        ValueModel::Uint(b) => block_size(b.len() as int) + block_size(12) + block_size(16),
        ValueModel::Bool(_) => block_size(16),
        ValueModel::String(s) => block_size(2 * encode_utf16(s).len() as int) + block_size(16),
        ValueModel::FixedArray(items) => list_size(items) + block_size(4 * items.len() as int)
            + block_size(16) + block_size(16),
        ValueModel::Array(items) => list_size(items) + block_size(4 * items.len() as int)
            + block_size(16) + block_size(16),
        ValueModel::Tuple(items) => list_size(items) + block_size(4 * items.len() as int)
            + block_size(16) + block_size(16),
    }
}

/// Bytes that the trees of `items` take.
pub open spec fn list_size(items: Seq<ValueModel>) -> int
    decreases items,
{
    if items.len() == 0 {
        0
    } else {
        list_size(items.drop_last()) + model_size(items.last())
    }
}

pub proof fn lemma_sizes_nonneg(m: ValueModel)
    ensures
        model_size(m) >= 0,
    decreases m,
{
    match m {
        ValueModel::FixedArray(items) => lemma_sizes_nonneg_list(items),
        ValueModel::Array(items) => lemma_sizes_nonneg_list(items),
        ValueModel::Tuple(items) => lemma_sizes_nonneg_list(items),
        _ => {},
    }
}

pub proof fn lemma_sizes_nonneg_list(items: Seq<ValueModel>)
    ensures
        list_size(items) >= 0,
    decreases items,
{
    if items.len() > 0 {
        lemma_sizes_nonneg_list(items.drop_last());
        lemma_sizes_nonneg(items.last());
    }
}

/// A prefix of a list takes no more bytes than the list.
pub proof fn lemma_list_size_prefix(items: Seq<ValueModel>, k: int)
    requires
        0 <= k <= items.len(),
    ensures
        list_size(items.subrange(0, k)) <= list_size(items),
    decreases items.len(),
{
    if k == items.len() {
        assert(items.subrange(0, k) =~= items);
    } else {
        lemma_list_size_prefix(items.drop_last(), k);
        assert(items.drop_last().subrange(0, k) =~= items.subrange(0, k));
        lemma_sizes_nonneg(items.last());
    }
}

/// The items of the array record at `q`, decoded.
pub open spec fn decode_items(heap: Heap, q: int) -> Option<Seq<ValueModel>> {
    match array_items(heap, q) {
        Some(items) => decode_list(heap, items, q),
        None => None,
    }
}

/// The ABI value whose tree of records starts at `p`: every child lies below
/// its parent, strings decode with `U+FFFD` for unpaired surrogates, and an
/// address holds exactly 20 bytes.
pub open spec fn decode_value(heap: Heap, p: int) -> Option<ValueModel>
    decreases p, 0int,
{
    if !heap.is_block(p) {
        None
    } else {
        match ethereum_value_of_words(words_at(heap.mem(), p)) {
            Some(EthereumValueRecord::Address(q)) => {
                if q < p {
                    match typed_array_bytes(heap, q as int) {
                        Some(b) => if b.len() == 20 {
                            Some(ValueModel::Address(b))
                        } else {
                            None
                        },
                        None => None,
                    }
                } else {
                    None
                }
            },
            Some(EthereumValueRecord::FixedBytes(q)) => {
                if q < p {
                    match typed_array_bytes(heap, q as int) {
                        Some(b) => Some(ValueModel::FixedBytes(b)),
                        None => None,
                    }
                } else {
                    None
                }
            },
            Some(EthereumValueRecord::Bytes(q)) => {
                if q < p {
                    match typed_array_bytes(heap, q as int) {
                        Some(b) => Some(ValueModel::Bytes(b)),
                        None => None,
                    }
                } else {
                    None
                }
            },
            Some(EthereumValueRecord::Int(q)) => {
                if q < p {
                    match typed_array_bytes(heap, q as int) {
                        Some(b) => Some(ValueModel::Int(b)),
                        None => None,
                    }
                } else {
                    None
                }
            },
            Some(EthereumValueRecord::Uint(q)) => {
                if q < p {
                    match typed_array_bytes(heap, q as int) {
                        Some(b) => Some(ValueModel::Uint(b)),
                        None => None,
                    }
                } else {
                    None
                }
            },
            Some(EthereumValueRecord::Bool(b)) => Some(ValueModel::Bool(b)),
            Some(EthereumValueRecord::String(q)) => {
                if q < p && heap.is_block(q as int) {
                    Some(ValueModel::String(decode_utf16_lossy(units_at(heap.mem(), q as int))))
                } else {
                    None
                }
            },
            Some(EthereumValueRecord::FixedArray(q)) => {
                if q < p {
                    match (match array_items(heap, q as int) {
                        Some(items) => decode_list(heap, items, q as int),
                        None => None,
                    }) {
                        Some(s) => Some(ValueModel::FixedArray(s)),
                        None => None,
                    }
                } else {
                    None
                }
            },
            Some(EthereumValueRecord::Array(q)) => {
                if q < p {
                    match (match array_items(heap, q as int) {
                        Some(items) => decode_list(heap, items, q as int),
                        None => None,
                    }) {
                        Some(s) => Some(ValueModel::Array(s)),
                        None => None,
                    }
                } else {
                    None
                }
            },
            Some(EthereumValueRecord::Tuple(q)) => {
                if q < p {
                    match (match array_items(heap, q as int) {
                        Some(items) => decode_list(heap, items, q as int),
                        None => None,
                    }) {
                        Some(s) => Some(ValueModel::Tuple(s)),
                        None => None,
                    }
                } else {
                    None
                }
            },
            None => None,
        }
    }
}


/// A block of `old` that lies below `p` is the only kind of block below `p`
/// in a memory grown from `old`.
proof fn lemma_new_blocks_above(new: Heap, old: Heap, p: int, q: int)
    requires
        old.wf(),
        new.grows_from(old),
        old.is_block(p),
        q < p,
    ensures
        new.is_block(q) == old.is_block(q),
{
    old.lemma_block_below_top(p);
}

/// Decoding a tree gives the same value in a memory grown from the one
/// that holds it.
pub proof fn lemma_decode_kept(new: Heap, old: Heap, p: int)
    requires
        old.wf(),
        new.grows_from(old),
        old.is_block(p),
    ensures
        decode_value(new, p) == decode_value(old, p),
    decreases p, 2int, 0int,
{
    new.lemma_keeps(old, p);
    let w = words_at(old.mem(), p);
    match ethereum_value_of_words(w) {
        Some(EthereumValueRecord::Address(q)) | Some(EthereumValueRecord::FixedBytes(q)) | Some(
            EthereumValueRecord::Bytes(q),
        ) | Some(EthereumValueRecord::Int(q)) | Some(EthereumValueRecord::Uint(q)) => {
            if q < p {
                lemma_new_blocks_above(new, old, p, q as int);
                if old.is_block(q as int) {
                    lemma_typed_array_kept(new, old, q as int);
                }
            }
        },
        Some(EthereumValueRecord::String(q)) => {
            if q < p {
                lemma_new_blocks_above(new, old, p, q as int);
                if old.is_block(q as int) {
                    new.lemma_keeps(old, q as int);
                }
            }
        },
        Some(EthereumValueRecord::FixedArray(q)) | Some(EthereumValueRecord::Array(q)) | Some(
            EthereumValueRecord::Tuple(q),
        ) => {
            if q < p {
                lemma_new_blocks_above(new, old, p, q as int);
                lemma_decode_items_kept(new, old, p, q as int);
            }
        },
        _ => {},
    }
}

proof fn lemma_decode_items_kept(new: Heap, old: Heap, p: int, q: int)
    requires
        old.wf(),
        new.grows_from(old),
        old.is_block(p),
        0 <= q < p,
    ensures
        decode_items(new, q) == decode_items(old, q),
    decreases q, 1int, 0int,
{
    lemma_new_blocks_above(new, old, p, q);
    if old.is_block(q) {
        lemma_array_kept(new, old, q);
        if array_items(old, q) is Some {
            lemma_decode_list_kept(new, old, p, array_items(old, q)->Some_0, q);
        }
    } else {
        assert(array_items(new, q) is None);
        assert(array_items(old, q) is None);
    }
}

proof fn lemma_decode_list_kept(new: Heap, old: Heap, p: int, items: Seq<u32>, q: int)
    requires
        old.wf(),
        new.grows_from(old),
        old.is_block(p),
        0 <= q <= p,
    ensures
        decode_list(new, items, q) == decode_list(old, items, q),
    decreases q, 0int, items.len(),
{
    if items.len() > 0 && 0 <= items.last() < q {
        lemma_decode_list_kept(new, old, p, items.drop_last(), q);
        let x = items.last() as int;
        lemma_new_blocks_above(new, old, p, x);
        if old.is_block(x) {
            lemma_decode_kept(new, old, x);
        }
    }
}

/// The items of an array of `old` decode the same in a memory grown from it.
proof fn lemma_items_kept_at(new: Heap, old: Heap, q: int)
    requires
        old.wf(),
        new.grows_from(old),
        old.is_block(q),
    ensures
        decode_items(new, q) == decode_items(old, q),
{
    old.lemma_block_below_top(q);
    lemma_array_kept(new, old, q);
    if array_items(old, q) is Some {
        lemma_decode_list_kept(new, old, q, array_items(old, q)->Some_0, q);
    }
}

/// A list of trees of `old` decodes the same in a memory grown from it.
proof fn lemma_list_kept(new: Heap, old: Heap, items: Seq<u32>, q: int)
    requires
        old.wf(),
        new.grows_from(old),
        forall|i: int| 0 <= i < items.len() ==> old.is_block(#[trigger] items[i] as int),
    ensures
        decode_list(new, items, q) == decode_list(old, items, q),
    decreases items.len(),
{
    if items.len() > 0 {
        lemma_list_kept(new, old, items.drop_last(), q);
        assert(old.is_block(items[items.len() - 1] as int));
        lemma_decode_kept(new, old, items.last() as int);
    }
}

/// The bound of a list matters only through the items it excludes.
proof fn lemma_list_bound(heap: Heap, items: Seq<u32>, q1: int, q2: int)
    requires
        forall|i: int| 0 <= i < items.len() ==> #[trigger] items[i] < q1 && items[i] < q2,
    ensures
        decode_list(heap, items, q1) == decode_list(heap, items, q2),
    decreases items.len(),
{
    if items.len() > 0 {
        assert(items[items.len() - 1] < q1);
        lemma_list_bound(heap, items.drop_last(), q1, q2);
    }
}

/// A list decodes item by item.
proof fn lemma_list_push(heap: Heap, items: Seq<u32>, x: u32, q: int)
    requires
        0 <= x < q,
    ensures
        decode_list(heap, items.push(x), q) == match (
            decode_list(heap, items, q),
            decode_value(heap, x as int),
        ) {
            (Some(s), Some(m)) => Some(s.push(m)),
            _ => None::<Seq<ValueModel>>,
        },
{
    assert(items.push(x).drop_last() =~= items);
}

/// What holds after a leaf's block `q`, allocated on top of `h0`, gets its
/// record `b`.
proof fn lemma_leaf(h0: Heap, h1: Heap, h2: Heap, q: int, b: u32)
    requires
        h0.wf(),
        h1.wf(),
        h1.grows_from(h0),
        h1.is_block(q),
        h2.grown_by(h1, b),
    ensures
        h2.grows_from(h0),
        h2.is_block(b as int),
        !h0.is_block(b as int),
        q < b,
        h2.is_block(q),
        typed_array_bytes(h2, q) == typed_array_bytes(h1, q),
        units_at(h2.mem(), q) == units_at(h1.mem(), q),
{
    h1.lemma_block_below_top(q);
    h2.lemma_grown_by_grows(h1, b);
    h2.lemma_grows_trans(h1, h0);
    lemma_typed_array_kept(h2, h1, q);
    h2.lemma_keeps(h1, q);
    if h0.is_block(b as int) {
        h0.lemma_block_below_top(b as int);
    }
}

/// Every prefix of a decodable list decodes.
proof fn lemma_list_prefix(heap: Heap, items: Seq<u32>, q: int, k: int)
    requires
        0 <= k <= items.len(),
    ensures
        decode_list(heap, items, q) is Some ==> decode_list(heap, items.subrange(0, k), q) is Some,
    decreases items.len(),
{
    if k == items.len() {
        assert(items.subrange(0, k) =~= items);
    } else {
        lemma_list_prefix(heap, items.drop_last(), q, k);
        assert(items.drop_last().subrange(0, k) =~= items.subrange(0, k));
    }
}

/// The 20 bytes of `b` as an address.
fn address_of(b: &Vec<u8>) -> (r: Address)
    requires
        b@.len() == 20,
    ensures
        r.0@ == b@,
{
    let mut a = [0u8; 20];
    let mut i: usize = 0;
    while i < 20
        invariant
            i <= 20,
            b@.len() == 20,
            forall|j: int| 0 <= j < i ==> a@[j] == b@[j],
        decreases 20 - i,
    {
        a[i] = b[i];
        i += 1;
    }
    assert(a@ =~= b@);
    Address(a)
}

/// A 32-byte hash.
pub type Hash = [u8; 32];

/// A 256-byte bloom filter.
pub type Bloom = [u8; 256];

/// The bytes of the typed array at `p` as a hash; `None` unless it holds
/// exactly 32 bytes.
fn hash_at(heap: &Heap, p: u32) -> (r: Option<Hash>)
    requires
        heap.wf(),
    ensures
        match typed_array_bytes(*heap, p as int) {
            Some(b) => if b.len() == 32 {
                (r matches Some(x) && x@ == b)
            } else {
                r is None
            },
            None => r is None,
        },
{
    let b = match crate::buf::typed_bytes_at(heap, p) {
        Some(b) => b,
        None => return None,
    };
    if b.len() != 32 {
        return None;
    }
    let mut a = [0u8; 32];
    let mut i: usize = 0;
    while i < 32
        invariant
            i <= 32,
            b@.len() == 32,
            forall|j: int| 0 <= j < i ==> a@[j] == b@[j],
        decreases 32 - i,
    {
        a[i] = b[i];
        i += 1;
    }
    assert(a@ =~= b@);
    Some(a)
}

/// The bytes of the typed array at `p` as a bloom filter; `None` unless it
/// holds exactly 256 bytes.
fn bloom_at(heap: &Heap, p: u32) -> (r: Option<Bloom>)
    requires
        heap.wf(),
    ensures
        match typed_array_bytes(*heap, p as int) {
            Some(b) => if b.len() == 256 {
                (r matches Some(x) && x@ == b)
            } else {
                r is None
            },
            None => r is None,
        },
{
    let b = match crate::buf::typed_bytes_at(heap, p) {
        Some(b) => b,
        None => return None,
    };
    if b.len() != 256 {
        return None;
    }
    let mut a = [0u8; 256];
    let mut i: usize = 0;
    while i < 256
        invariant
            i <= 256,
            b@.len() == 256,
            forall|j: int| 0 <= j < i ==> a@[j] == b@[j],
        decreases 256 - i,
    {
        a[i] = b[i];
        i += 1;
    }
    assert(a@ =~= b@);
    Some(a)
}

/// The bytes of the typed array at `p` as an address; `None` unless it
/// holds exactly 20 bytes.
fn address_at(heap: &Heap, p: u32) -> (r: Option<Address>)
    requires
        heap.wf(),
    ensures
        match typed_array_bytes(*heap, p as int) {
            Some(b) => if b.len() == 20 {
                (r matches Some(x) && x.0@ == b)
            } else {
                r is None
            },
            None => r is None,
        },
{
    match crate::buf::typed_bytes_at(heap, p) {
        Some(b) => if b.len() == 20 {
            Some(address_of(&b))
        } else {
            None
        },
        None => None,
    }
}

/// The big integer at `p`.
fn bigint_at(heap: &Heap, p: u32) -> (r: Option<BigInt>)
    requires
        heap.wf(),
    ensures
        match typed_array_bytes(*heap, p as int) {
            Some(b) => (r matches Some(x) && x@ == b),
            None => r is None,
        },
{
    match crate::buf::typed_bytes_at(heap, p) {
        Some(b) => Some(BigInt::from_signed_bytes_le(b.as_slice())),
        None => None,
    }
}

/// The string at `p`, decoded with `U+FFFD` for unpaired surrogates.
fn string_at(heap: &Heap, p: u32) -> (r: Option<String>)
    requires
        heap.wf(),
    ensures
        heap.is_block(p as int) ==> (r matches Some(s) && s@ == decode_utf16_lossy(
            units_at(heap.mem(), p as int),
        )),
        !heap.is_block(p as int) ==> r is None,
{
    match AscStr::from_ptr(heap, p) {
        Some(s) => Some(s.to_string_lossy(heap)),
        None => None,
    }
}

/// The boolean held by the first byte of the block at `p`.
fn flag_at(heap: &Heap, p: u32) -> (r: Option<bool>)
    requires
        heap.wf(),
    ensures
        (heap.is_block(p as int) && bytes_at(heap.mem(), p as int).len() >= 1) ==> r == Some(
            bytes_at(heap.mem(), p as int)[0] != 0,
        ),
        !(heap.is_block(p as int) && bytes_at(heap.mem(), p as int).len() >= 1) ==> r is None,
{
    if !heap.has_block(p) {
        return None;
    }
    let b = heap.bytes_of(p);
    if b.len() < 1 {
        None
    } else {
        Some(b[0] != 0)
    }
}

/// Whether the array at `p` holds hashes only.
pub open spec fn hashes_ok(h: Heap, p: int) -> bool {
    &&& array_items(h, p) is Some
    &&& forall|i: int|
        0 <= i < array_items(h, p)->Some_0.len() ==> (typed_array_bytes(
            h,
            #[trigger] array_items(h, p)->Some_0[i] as int,
        ) matches Some(b) && b.len() == 32)
}

/// `v` holds the hashes of the array at `p`, in order.
pub open spec fn hashes_match(h: Heap, p: int, v: Seq<Hash>) -> bool {
    &&& array_items(h, p) is Some
    &&& v.len() == array_items(h, p)->Some_0.len()
    &&& forall|i: int|
        0 <= i < v.len() ==> typed_array_bytes(h, #[trigger] array_items(h, p)->Some_0[i] as int)
            == Some(v[i]@)
}

/// The hashes of the array at `p`.
fn hashes_at(heap: &Heap, p: u32) -> (r: Option<Vec<Hash>>)
    requires
        heap.wf(),
    ensures
        r is Some <==> hashes_ok(*heap, p as int),
        r matches Some(v) ==> hashes_match(*heap, p as int, v@),
{
    if !heap.has_block(p) {
        return None;
    }
    let arr: AscRef<AscArray<AscTypedArray<u8>>> = AscRef::at(p);
    let refs = match arr.as_slice(heap) {
        Some(v) => v,
        None => return None,
    };
    let ghost items = ref_ptrs_of(refs@);
    let mut out: Vec<Hash> = Vec::new();
    let mut i: usize = 0;
    while i < refs.len()
        invariant
            heap.wf(),
            array_items(*heap, p as int) == Some(items),
            items == ref_ptrs_of(refs@),
            i <= refs@.len(),
            out@.len() == i,
            forall|j: int|
                0 <= j < i ==> typed_array_bytes(*heap, #[trigger] items[j] as int) == Some(
                    out@[j]@,
                ),
        decreases refs@.len() - i,
    {
        let q = refs[i].as_ptr();
        assert(items[i as int] == q);
        match hash_at(heap, q) {
            Some(x) => out.push(x),
            None => return None,
        }
        i += 1;
    }
    Some(out)
}

/// Whether the array at `p` holds readable logs only.
pub open spec fn logs_ok(h: Heap, p: int) -> bool {
    &&& array_items(h, p) is Some
    &&& forall|i: int|
        0 <= i < array_items(h, p)->Some_0.len() ==> h.is_block(
            #[trigger] array_items(h, p)->Some_0[i] as int,
        ) && log_ok(h, words_at(h.mem(), array_items(h, p)->Some_0[i] as int))
}

/// `v` holds the logs of the array at `p`, in order.
pub open spec fn logs_match(h: Heap, p: int, v: Seq<Log>) -> bool {
    &&& array_items(h, p) is Some
    &&& v.len() == array_items(h, p)->Some_0.len()
    &&& forall|i: int|
        0 <= i < v.len() ==> log_matches(
            h,
            words_at(h.mem(), #[trigger] array_items(h, p)->Some_0[i] as int),
            v[i],
        )
}

/// The logs of the array at `p`.
fn logs_at(heap: &Heap, p: u32) -> (r: Option<Vec<Log>>)
    requires
        heap.wf(),
    ensures
        r is Some <==> logs_ok(*heap, p as int),
        r matches Some(v) ==> logs_match(*heap, p as int, v@),
{
    if !heap.has_block(p) {
        return None;
    }
    let arr: AscRef<AscArray<AscLog>> = AscRef::at(p);
    let refs = match arr.as_slice(heap) {
        Some(v) => v,
        None => return None,
    };
    let ghost items = ref_ptrs_of(refs@);
    let mut out: Vec<Log> = Vec::new();
    let mut i: usize = 0;
    while i < refs.len()
        invariant
            heap.wf(),
            array_items(*heap, p as int) == Some(items),
            items == ref_ptrs_of(refs@),
            i <= refs@.len(),
            out@.len() == i,
            forall|j: int|
                0 <= j < i ==> heap.is_block(#[trigger] items[j] as int) && log_ok(
                    *heap,
                    words_at(heap.mem(), items[j] as int),
                ),
            forall|j: int|
                0 <= j < i ==> log_matches(*heap, words_at(heap.mem(), items[j] as int), #[trigger] out@[j]),
        decreases refs@.len() - i,
    {
        let q = refs[i].as_ptr();
        assert(items[i as int] == q);
        assert(array_items(*heap, p as int)->Some_0[i as int] == q);
        if !heap.has_block(q) {
            return None;
        }
        match Log::from_raw(heap, AscRef::at(q)) {
            Some(x) => out.push(x),
            None => {
                assert(!log_ok(*heap, words_at(heap.mem(), q as int)));
                return None;
            },
        }
        i += 1;
    }
    Some(out)
}

/// What a block record must hold for it to be read: a typed
/// array of the right length behind each field, and nothing behind a null one.
pub open spec fn block_ok(h: Heap, w: Seq<u32>) -> bool {
    &&& w.len() >= 15
    &&& (typed_array_bytes(h, w[0] as int) matches Some(b) && b.len() == 32)
    &&& (typed_array_bytes(h, w[1] as int) matches Some(b) && b.len() == 32)
    &&& (typed_array_bytes(h, w[2] as int) matches Some(b) && b.len() == 32)
    &&& (typed_array_bytes(h, w[3] as int) matches Some(b) && b.len() == 20)
    &&& (typed_array_bytes(h, w[4] as int) matches Some(b) && b.len() == 32)
    &&& (typed_array_bytes(h, w[5] as int) matches Some(b) && b.len() == 32)
    &&& (typed_array_bytes(h, w[6] as int) matches Some(b) && b.len() == 32)
    &&& typed_array_bytes(h, w[7] as int) is Some
    &&& typed_array_bytes(h, w[8] as int) is Some
    &&& typed_array_bytes(h, w[9] as int) is Some
    &&& typed_array_bytes(h, w[10] as int) is Some
    &&& typed_array_bytes(h, w[11] as int) is Some
    &&& typed_array_bytes(h, w[12] as int) is Some
    &&& (w[13] == 0 || typed_array_bytes(h, w[13] as int) is Some)
    &&& (w[14] == 0 || typed_array_bytes(h, w[14] as int) is Some)
}

/// The fields of `v` are what the record's words point to.
pub open spec fn block_matches(h: Heap, w: Seq<u32>, v: Block) -> bool {
    &&& typed_array_bytes(h, w[0] as int) == Some(v.hash@)
    &&& typed_array_bytes(h, w[1] as int) == Some(v.parent_hash@)
    &&& typed_array_bytes(h, w[2] as int) == Some(v.uncles_hash@)
    &&& typed_array_bytes(h, w[3] as int) == Some(v.author.0@)
    &&& typed_array_bytes(h, w[4] as int) == Some(v.state_root@)
    &&& typed_array_bytes(h, w[5] as int) == Some(v.transactions_root@)
    &&& typed_array_bytes(h, w[6] as int) == Some(v.receipts_root@)
    &&& typed_array_bytes(h, w[7] as int) == Some(v.number@)
    &&& typed_array_bytes(h, w[8] as int) == Some(v.gas_used@)
    &&& typed_array_bytes(h, w[9] as int) == Some(v.gas_limit@)
    &&& typed_array_bytes(h, w[10] as int) == Some(v.timestamp@)
    &&& typed_array_bytes(h, w[11] as int) == Some(v.difficulty@)
    &&& typed_array_bytes(h, w[12] as int) == Some(v.total_difficulty@)
    &&& (if w[13] == 0 { v.size is None } else { (v.size matches Some(v) && typed_array_bytes(h, w[13] as int) == Some(v@)) })
    &&& (if w[14] == 0 { v.base_fee_per_gas is None } else { (v.base_fee_per_gas matches Some(v) && typed_array_bytes(h, w[14] as int) == Some(v@)) })
}

/// Ethereum block data.
#[derive(Clone, Debug, PartialEq, Eq)]
pub struct Block {
    pub hash: Hash,
    pub parent_hash: Hash,
    pub uncles_hash: Hash,
    pub author: Address,
    pub state_root: Hash,
    pub transactions_root: Hash,
    pub receipts_root: Hash,
    pub number: BigInt,
    pub gas_used: BigInt,
    pub gas_limit: BigInt,
    pub timestamp: BigInt,
    pub difficulty: BigInt,
    pub total_difficulty: BigInt,
    pub size: Option<BigInt>,
    pub base_fee_per_gas: Option<BigInt>,
}

impl Block {
    /// Reads the record at `raw`; `None` when a field is missing or malformed.
    #[verifier::rlimit(100)]
    pub fn from_raw(heap: &Heap, raw: AscRef<AscBlock>) -> (r: Option<Block>)
        requires
            heap.wf(),
            heap.is_block(raw@ as int),
        ensures
            ({
                let h = *heap;
                let w = words_at(heap.mem(), raw@ as int);
                &&& r is Some <==> block_ok(h, w)
                &&& r matches Some(v) ==> block_matches(h, w, v)
            }),
    {
        let p = raw.as_ptr();
        let w = heap.words_of(p);
        if w.len() < 15 {
            return None;
        }
        let hash = match hash_at(heap, w[0]) {
            Some(v) => v,
            None => return None,
        };
        let parent_hash = match hash_at(heap, w[1]) {
            Some(v) => v,
            None => return None,
        };
        let uncles_hash = match hash_at(heap, w[2]) {
            Some(v) => v,
            None => return None,
        };
        let author = match address_at(heap, w[3]) {
            Some(v) => v,
            None => return None,
        };
        let state_root = match hash_at(heap, w[4]) {
            Some(v) => v,
            None => return None,
        };
        let transactions_root = match hash_at(heap, w[5]) {
            Some(v) => v,
            None => return None,
        };
        let receipts_root = match hash_at(heap, w[6]) {
            Some(v) => v,
            None => return None,
        };
        let number = match bigint_at(heap, w[7]) {
            Some(v) => v,
            None => return None,
        };
        let gas_used = match bigint_at(heap, w[8]) {
            Some(v) => v,
            None => return None,
        };
        let gas_limit = match bigint_at(heap, w[9]) {
            Some(v) => v,
            None => return None,
        };
        let timestamp = match bigint_at(heap, w[10]) {
            Some(v) => v,
            None => return None,
        };
        let difficulty = match bigint_at(heap, w[11]) {
            Some(v) => v,
            None => return None,
        };
        let total_difficulty = match bigint_at(heap, w[12]) {
            Some(v) => v,
            None => return None,
        };
        let size = if w[13] == 0 {
            None
        } else {
            match bigint_at(heap, w[13]) {
                Some(v) => Some(v),
                None => return None,
            }
        };
        let base_fee_per_gas = if w[14] == 0 {
            None
        } else {
            match bigint_at(heap, w[14]) {
                Some(v) => Some(v),
                None => return None,
            }
        };
        Some(Block { hash, parent_hash, uncles_hash, author, state_root, transactions_root, receipts_root, number, gas_used, gas_limit, timestamp, difficulty, total_difficulty, size, base_fee_per_gas })
    }
}

/// What a transaction record must hold for it to be read: a typed
/// array of the right length behind each field, and nothing behind a null one.
pub open spec fn transaction_ok(h: Heap, w: Seq<u32>) -> bool {
    &&& w.len() >= 9
    &&& (typed_array_bytes(h, w[0] as int) matches Some(b) && b.len() == 32)
    &&& typed_array_bytes(h, w[1] as int) is Some
    &&& (typed_array_bytes(h, w[2] as int) matches Some(b) && b.len() == 20)
    &&& (w[3] == 0 || (typed_array_bytes(h, w[3] as int) matches Some(b) && b.len() == 20))
    &&& typed_array_bytes(h, w[4] as int) is Some
    &&& typed_array_bytes(h, w[5] as int) is Some
    &&& typed_array_bytes(h, w[6] as int) is Some
    &&& typed_array_bytes(h, w[7] as int) is Some
    &&& typed_array_bytes(h, w[8] as int) is Some
}

/// The fields of `v` are what the record's words point to.
pub open spec fn transaction_matches(h: Heap, w: Seq<u32>, v: Transaction) -> bool {
    &&& typed_array_bytes(h, w[0] as int) == Some(v.hash@)
    &&& typed_array_bytes(h, w[1] as int) == Some(v.index@)
    &&& typed_array_bytes(h, w[2] as int) == Some(v.from.0@)
    &&& (if w[3] == 0 { v.to is None } else { (v.to matches Some(v) && typed_array_bytes(h, w[3] as int) == Some(v.0@)) })
    &&& typed_array_bytes(h, w[4] as int) == Some(v.value@)
    &&& typed_array_bytes(h, w[5] as int) == Some(v.gas_limit@)
    &&& typed_array_bytes(h, w[6] as int) == Some(v.gas_price@)
    &&& typed_array_bytes(h, w[7] as int) == Some(v.input@)
    &&& typed_array_bytes(h, w[8] as int) == Some(v.nonce@)
}

/// An Ethereum transaction.
#[derive(Clone, Debug, PartialEq, Eq)]
pub struct Transaction {
    pub hash: Hash,
    pub index: BigInt,
    pub from: Address,
    pub to: Option<Address>,
    pub value: BigInt,
    pub gas_limit: BigInt,
    pub gas_price: BigInt,
    pub input: Vec<u8>,
    pub nonce: BigInt,
}

impl Transaction {
    /// Reads the record at `raw`; `None` when a field is missing or malformed.
    pub fn from_raw(heap: &Heap, raw: AscRef<AscTransaction>) -> (r: Option<Transaction>)
        requires
            heap.wf(),
            heap.is_block(raw@ as int),
        ensures
            ({
                let h = *heap;
                let w = words_at(heap.mem(), raw@ as int);
                &&& r is Some <==> transaction_ok(h, w)
                &&& r matches Some(v) ==> transaction_matches(h, w, v)
            }),
    {
        let p = raw.as_ptr();
        let w = heap.words_of(p);
        if w.len() < 9 {
            return None;
        }
        let hash = match hash_at(heap, w[0]) {
            Some(v) => v,
            None => return None,
        };
        let index = match bigint_at(heap, w[1]) {
            Some(v) => v,
            None => return None,
        };
        let from = match address_at(heap, w[2]) {
            Some(v) => v,
            None => return None,
        };
        let to = if w[3] == 0 {
            None
        } else {
            match address_at(heap, w[3]) {
                Some(v) => Some(v),
                None => return None,
            }
        };
        let value = match bigint_at(heap, w[4]) {
            Some(v) => v,
            None => return None,
        };
        let gas_limit = match bigint_at(heap, w[5]) {
            Some(v) => v,
            None => return None,
        };
        let gas_price = match bigint_at(heap, w[6]) {
            Some(v) => v,
            None => return None,
        };
        let input = match crate::buf::typed_bytes_at(heap, w[7]) {
            Some(v) => v,
            None => return None,
        };
        let nonce = match bigint_at(heap, w[8]) {
            Some(v) => v,
            None => return None,
        };
        Some(Transaction { hash, index, from, to, value, gas_limit, gas_price, input, nonce })
    }
}

/// What a log record must hold for it to be read: a typed
/// array of the right length behind each field, and nothing behind a null one.
pub open spec fn log_ok(h: Heap, w: Seq<u32>) -> bool {
    &&& w.len() >= 11
    &&& (typed_array_bytes(h, w[0] as int) matches Some(b) && b.len() == 20)
    &&& hashes_ok(h, w[1] as int)
    &&& typed_array_bytes(h, w[2] as int) is Some
    &&& (typed_array_bytes(h, w[3] as int) matches Some(b) && b.len() == 32)
    &&& typed_array_bytes(h, w[4] as int) is Some
    &&& (typed_array_bytes(h, w[5] as int) matches Some(b) && b.len() == 32)
    &&& typed_array_bytes(h, w[6] as int) is Some
    &&& typed_array_bytes(h, w[7] as int) is Some
    &&& typed_array_bytes(h, w[8] as int) is Some
    &&& (w[9] == 0 || h.is_block(w[9] as int))
    &&& (w[10] == 0 || (h.is_block(w[10] as int) && bytes_at(h.mem(), w[10] as int).len() >= 1))
}

/// The fields of `v` are what the record's words point to.
pub open spec fn log_matches(h: Heap, w: Seq<u32>, v: Log) -> bool {
    &&& typed_array_bytes(h, w[0] as int) == Some(v.address.0@)
    &&& hashes_match(h, w[1] as int, v.topics@)
    &&& typed_array_bytes(h, w[2] as int) == Some(v.data@)
    &&& typed_array_bytes(h, w[3] as int) == Some(v.block_hash@)
    &&& typed_array_bytes(h, w[4] as int) == Some(v.block_number@)
    &&& typed_array_bytes(h, w[5] as int) == Some(v.transaction_hash@)
    &&& typed_array_bytes(h, w[6] as int) == Some(v.transaction_index@)
    &&& typed_array_bytes(h, w[7] as int) == Some(v.log_index@)
    &&& typed_array_bytes(h, w[8] as int) == Some(v.transaction_log_index@)
    &&& (if w[9] == 0 { v.log_type is None } else { (v.log_type matches Some(v) && v@ == decode_utf16_lossy(units_at(h.mem(), w[9] as int))) })
    &&& (if w[10] == 0 { v.removed is None } else { (v.removed matches Some(v) && v == (bytes_at(h.mem(), w[10] as int)[0] != 0)) })
}

/// An Ethereum log.
#[derive(Clone, Debug, PartialEq, Eq)]
pub struct Log {
    pub address: Address,
    pub topics: Vec<Hash>,
    pub data: Vec<u8>,
    pub block_hash: Hash,
    pub block_number: BigInt,
    pub transaction_hash: Hash,
    pub transaction_index: BigInt,
    pub log_index: BigInt,
    pub transaction_log_index: BigInt,
    pub log_type: Option<String>,
    pub removed: Option<bool>,
}

impl Log {
    /// Reads the record at `raw`; `None` when a field is missing or malformed.
    pub fn from_raw(heap: &Heap, raw: AscRef<AscLog>) -> (r: Option<Log>)
        requires
            heap.wf(),
            heap.is_block(raw@ as int),
        ensures
            ({
                let h = *heap;
                let w = words_at(heap.mem(), raw@ as int);
                &&& r is Some <==> log_ok(h, w)
                &&& r matches Some(v) ==> log_matches(h, w, v)
            }),
    {
        let p = raw.as_ptr();
        let w = heap.words_of(p);
        if w.len() < 11 {
            return None;
        }
        let address = match address_at(heap, w[0]) {
            Some(v) => v,
            None => return None,
        };
        let topics = match hashes_at(heap, w[1]) {
            Some(v) => v,
            None => return None,
        };
        let data = match crate::buf::typed_bytes_at(heap, w[2]) {
            Some(v) => v,
            None => return None,
        };
        let block_hash = match hash_at(heap, w[3]) {
            Some(v) => v,
            None => return None,
        };
        let block_number = match bigint_at(heap, w[4]) {
            Some(v) => v,
            None => return None,
        };
        let transaction_hash = match hash_at(heap, w[5]) {
            Some(v) => v,
            None => return None,
        };
        let transaction_index = match bigint_at(heap, w[6]) {
            Some(v) => v,
            None => return None,
        };
        let log_index = match bigint_at(heap, w[7]) {
            Some(v) => v,
            None => return None,
        };
        let transaction_log_index = match bigint_at(heap, w[8]) {
            Some(v) => v,
            None => return None,
        };
        let log_type = if w[9] == 0 {
            None
        } else {
            match string_at(heap, w[9]) {
                Some(v) => Some(v),
                None => return None,
            }
        };
        let removed = if w[10] == 0 {
            None
        } else {
            match flag_at(heap, w[10]) {
                Some(v) => Some(v),
                None => return None,
            }
        };
        Some(Log { address, topics, data, block_hash, block_number, transaction_hash, transaction_index, log_index, transaction_log_index, log_type, removed })
    }
}

/// What a transaction receipt record must hold for it to be read: a typed
/// array of the right length behind each field, and nothing behind a null one.
pub open spec fn transaction_receipt_ok(h: Heap, w: Seq<u32>) -> bool {
    &&& w.len() >= 11
    &&& (typed_array_bytes(h, w[0] as int) matches Some(b) && b.len() == 32)
    &&& typed_array_bytes(h, w[1] as int) is Some
    &&& (typed_array_bytes(h, w[2] as int) matches Some(b) && b.len() == 32)
    &&& typed_array_bytes(h, w[3] as int) is Some
    &&& typed_array_bytes(h, w[4] as int) is Some
    &&& typed_array_bytes(h, w[5] as int) is Some
    &&& (w[6] == 0 || (typed_array_bytes(h, w[6] as int) matches Some(b) && b.len() == 20))
    &&& logs_ok(h, w[7] as int)
    &&& typed_array_bytes(h, w[8] as int) is Some
    &&& (w[9] == 0 || (typed_array_bytes(h, w[9] as int) matches Some(b) && b.len() == 32))
    &&& (typed_array_bytes(h, w[10] as int) matches Some(b) && b.len() == 256)
}

/// The fields of `v` are what the record's words point to.
pub open spec fn transaction_receipt_matches(h: Heap, w: Seq<u32>, v: TransactionReceipt) -> bool {
    &&& typed_array_bytes(h, w[0] as int) == Some(v.transaction_hash@)
    &&& typed_array_bytes(h, w[1] as int) == Some(v.transaction_index@)
    &&& typed_array_bytes(h, w[2] as int) == Some(v.block_hash@)
    &&& typed_array_bytes(h, w[3] as int) == Some(v.block_number@)
    &&& typed_array_bytes(h, w[4] as int) == Some(v.cumulative_gas_used@)
    &&& typed_array_bytes(h, w[5] as int) == Some(v.gas_used@)
    &&& (if w[6] == 0 { v.contract_address is None } else { (v.contract_address matches Some(v) && typed_array_bytes(h, w[6] as int) == Some(v.0@)) })
    &&& logs_match(h, w[7] as int, v.logs@)
    &&& typed_array_bytes(h, w[8] as int) == Some(v.status@)
    &&& (if w[9] == 0 { v.root is None } else { (v.root matches Some(v) && typed_array_bytes(h, w[9] as int) == Some(v@)) })
    &&& typed_array_bytes(h, w[10] as int) == Some(v.logs_bloom@)
}

/// An Ethereum transaction receipt.
#[derive(Clone, Debug, PartialEq, Eq)]
pub struct TransactionReceipt {
    pub transaction_hash: Hash,
    pub transaction_index: BigInt,
    pub block_hash: Hash,
    pub block_number: BigInt,
    pub cumulative_gas_used: BigInt,
    pub gas_used: BigInt,
    pub contract_address: Option<Address>,
    pub logs: Vec<Log>,
    pub status: BigInt,
    pub root: Option<Hash>,
    pub logs_bloom: Bloom,
}

impl TransactionReceipt {
    /// Reads the record at `raw`; `None` when a field is missing or malformed.
    pub fn from_raw(heap: &Heap, raw: AscRef<AscTransactionReceipt>) -> (r: Option<TransactionReceipt>)
        requires
            heap.wf(),
            heap.is_block(raw@ as int),
        ensures
            ({
                let h = *heap;
                let w = words_at(heap.mem(), raw@ as int);
                &&& r is Some <==> transaction_receipt_ok(h, w)
                &&& r matches Some(v) ==> transaction_receipt_matches(h, w, v)
            }),
    {
        let p = raw.as_ptr();
        let w = heap.words_of(p);
        if w.len() < 11 {
            return None;
        }
        let transaction_hash = match hash_at(heap, w[0]) {
            Some(v) => v,
            None => return None,
        };
        let transaction_index = match bigint_at(heap, w[1]) {
            Some(v) => v,
            None => return None,
        };
        let block_hash = match hash_at(heap, w[2]) {
            Some(v) => v,
            None => return None,
        };
        let block_number = match bigint_at(heap, w[3]) {
            Some(v) => v,
            None => return None,
        };
        let cumulative_gas_used = match bigint_at(heap, w[4]) {
            Some(v) => v,
            None => return None,
        };
        let gas_used = match bigint_at(heap, w[5]) {
            Some(v) => v,
            None => return None,
        };
        let contract_address = if w[6] == 0 {
            None
        } else {
            match address_at(heap, w[6]) {
                Some(v) => Some(v),
                None => return None,
            }
        };
        let logs = match logs_at(heap, w[7]) {
            Some(v) => v,
            None => return None,
        };
        let status = match bigint_at(heap, w[8]) {
            Some(v) => v,
            None => return None,
        };
        let root = if w[9] == 0 {
            None
        } else {
            match hash_at(heap, w[9]) {
                Some(v) => Some(v),
                None => return None,
            }
        };
        let logs_bloom = match bloom_at(heap, w[10]) {
            Some(v) => v,
            None => return None,
        };
        Some(TransactionReceipt { transaction_hash, transaction_index, block_hash, block_number, cumulative_gas_used, gas_used, contract_address, logs, status, root, logs_bloom })
    }
}

/// Whether the array at `p` holds readable named parameters only.
pub open spec fn params_ok(h: Heap, p: int) -> bool {
    &&& array_items(h, p) is Some
    &&& forall|i: int|
        0 <= i < array_items(h, p)->Some_0.len() ==> param_ok(
            h,
            #[trigger] array_items(h, p)->Some_0[i] as int,
        )
}

/// Whether the parameter record at `q` names a string and a decodable value.
pub open spec fn param_ok(h: Heap, q: int) -> bool {
    let w = words_at(h.mem(), q);
    &&& h.is_block(q)
    &&& w.len() >= 2
    &&& h.is_block(w[0] as int)
    &&& decode_value(h, w[1] as int) is Some
}

/// `v` holds the named parameters of the array at `p`, in order.
pub open spec fn params_match(h: Heap, p: int, v: Seq<(String, Value)>) -> bool {
    &&& array_items(h, p) is Some
    &&& v.len() == array_items(h, p)->Some_0.len()
    &&& forall|i: int|
        0 <= i < v.len() ==> {
            let w = words_at(h.mem(), #[trigger] array_items(h, p)->Some_0[i] as int);
            &&& v[i].0@ == decode_utf16_lossy(units_at(h.mem(), w[0] as int))
            &&& decode_value(h, w[1] as int) == Some(model_of(v[i].1))
        }
}

/// The named parameters of the array at `p`, in order.
pub fn params_at(heap: &Heap, p: u32) -> (r: Option<Vec<(String, Value)>>)
    requires
        heap.wf(),
    ensures
        r is Some <==> params_ok(*heap, p as int),
        r matches Some(v) ==> params_match(*heap, p as int, v@),
{
    if !heap.has_block(p) {
        return None;
    }
    let arr: AscRef<AscArray<AscEventParam>> = AscRef::at(p);
    let refs = match arr.as_slice(heap) {
        Some(v) => v,
        None => return None,
    };
    let ghost items = ref_ptrs_of(refs@);
    let mut out: Vec<(String, Value)> = Vec::new();
    let mut i: usize = 0;
    while i < refs.len()
        invariant
            heap.wf(),
            array_items(*heap, p as int) == Some(items),
            items == ref_ptrs_of(refs@),
            i <= refs@.len(),
            out@.len() == i,
            forall|j: int| 0 <= j < i ==> param_ok(*heap, #[trigger] items[j] as int),
            forall|j: int|
                0 <= j < i ==> {
                    let w = words_at(heap.mem(), items[j] as int);
                    &&& (#[trigger] out@[j]).0@ == decode_utf16_lossy(units_at(heap.mem(), w[0] as int))
                    &&& decode_value(*heap, w[1] as int) == Some(model_of(out@[j].1))
                },
        decreases refs@.len() - i,
    {
        let q = refs[i].as_ptr();
        assert(items[i as int] == q);
        assert(array_items(*heap, p as int)->Some_0[i as int] == q);
        if !heap.has_block(q) {
            return None;
        }
        let w = heap.words_of(q);
        if w.len() < 2 {
            return None;
        }
        let name = match string_at(heap, w[0]) {
            Some(s) => s,
            None => return None,
        };
        let value = match Value::from_raw(heap, AscRef::at(w[1])) {
            Some(v) => v,
            None => return None,
        };
        out.push((name, value));
        i += 1;
    }
    Some(out)
}

/// The block record at `p`.
fn block_at(heap: &Heap, p: u32) -> (r: Option<Block>)
    requires
        heap.wf(),
    ensures
        r is Some <==> (heap.is_block(p as int) && block_ok(*heap, words_at(heap.mem(), p as int))),
        r matches Some(v) ==> block_matches(*heap, words_at(heap.mem(), p as int), v),
{
    if !heap.has_block(p) {
        return None;
    }
    Block::from_raw(heap, AscRef::at(p))
}

/// The transaction record at `p`.
fn transaction_at(heap: &Heap, p: u32) -> (r: Option<Transaction>)
    requires
        heap.wf(),
    ensures
        r is Some <==> (heap.is_block(p as int) && transaction_ok(
            *heap,
            words_at(heap.mem(), p as int),
        )),
        r matches Some(v) ==> transaction_matches(*heap, words_at(heap.mem(), p as int), v),
{
    if !heap.has_block(p) {
        return None;
    }
    Transaction::from_raw(heap, AscRef::at(p))
}

/// The receipt record at `p`.
fn receipt_at(heap: &Heap, p: u32) -> (r: Option<TransactionReceipt>)
    requires
        heap.wf(),
    ensures
        r is Some <==> (heap.is_block(p as int) && transaction_receipt_ok(
            *heap,
            words_at(heap.mem(), p as int),
        )),
        r matches Some(v) ==> transaction_receipt_matches(*heap, words_at(heap.mem(), p as int), v),
{
    if !heap.has_block(p) {
        return None;
    }
    TransactionReceipt::from_raw(heap, AscRef::at(p))
}

/// What an event record must hold for it to be read.
pub open spec fn event_ok(h: Heap, w: Seq<u32>) -> bool {
    &&& w.len() >= 8
    &&& (typed_array_bytes(h, w[0] as int) matches Some(b) && b.len() == 20)
    &&& typed_array_bytes(h, w[1] as int) is Some
    &&& typed_array_bytes(h, w[2] as int) is Some
    &&& (w[3] == 0 || h.is_block(w[3] as int))
    &&& (h.is_block(w[4] as int) && block_ok(h, words_at(h.mem(), w[4] as int)))
    &&& (h.is_block(w[5] as int) && transaction_ok(h, words_at(h.mem(), w[5] as int)))
    &&& params_ok(h, w[6] as int)
    &&& (w[7] == 0 || (h.is_block(w[7] as int) && transaction_receipt_ok(h, words_at(h.mem(), w[7] as int))))
}

/// The fields of `v` are what the record's words point to.
pub open spec fn event_matches(h: Heap, w: Seq<u32>, v: Event) -> bool {
    &&& typed_array_bytes(h, w[0] as int) == Some(v.address.0@)
    &&& typed_array_bytes(h, w[1] as int) == Some(v.log_index@)
    &&& typed_array_bytes(h, w[2] as int) == Some(v.transaction_log_index@)
    &&& (if w[3] == 0 { v.log_type is None } else { (v.log_type matches Some(v) && v@ == decode_utf16_lossy(units_at(h.mem(), w[3] as int))) })
    &&& block_matches(h, words_at(h.mem(), w[4] as int), v.block)
    &&& transaction_matches(h, words_at(h.mem(), w[5] as int), v.transaction)
    &&& params_match(h, w[6] as int, v.parameters@)
    &&& (if w[7] == 0 { v.receipt is None } else { (v.receipt matches Some(v) && transaction_receipt_matches(h, words_at(h.mem(), w[7] as int), v)) })
}

/// Common representation for Ethereum smart contract events.
#[derive(Debug, PartialEq, Eq)]
pub struct Event {
    pub address: Address,
    pub log_index: BigInt,
    pub transaction_log_index: BigInt,
    pub log_type: Option<String>,
    pub block: Block,
    pub transaction: Transaction,
    pub parameters: Vec<(String, Value)>,
    pub receipt: Option<TransactionReceipt>,
}

impl Event {
    /// Reads the record at `raw`; `None` when a field is missing or malformed.
    #[verifier::rlimit(100)]
    pub fn from_raw(heap: &Heap, raw: AscRef<AscEvent>) -> (r: Option<Event>)
        requires
            heap.wf(),
            heap.is_block(raw@ as int),
        ensures
            ({
                let h = *heap;
                let w = words_at(heap.mem(), raw@ as int);
                &&& r is Some <==> event_ok(h, w)
                &&& r matches Some(v) ==> event_matches(h, w, v)
            }),
    {
        let p = raw.as_ptr();
        let w = heap.words_of(p);
        if w.len() < 8 {
            return None;
        }
        let address = match address_at(heap, w[0]) {
            Some(v) => v,
            None => return None,
        };
        let log_index = match bigint_at(heap, w[1]) {
            Some(v) => v,
            None => return None,
        };
        let transaction_log_index = match bigint_at(heap, w[2]) {
            Some(v) => v,
            None => return None,
        };
        let log_type = if w[3] == 0 {
            None
        } else {
            match string_at(heap, w[3]) {
                Some(v) => Some(v),
                None => return None,
            }
        };
        let block = match block_at(heap, w[4]) {
            Some(v) => v,
            None => return None,
        };
        let transaction = match transaction_at(heap, w[5]) {
            Some(v) => v,
            None => return None,
        };
        let parameters = match params_at(heap, w[6]) {
            Some(v) => v,
            None => return None,
        };
        let receipt = if w[7] == 0 {
            None
        } else {
            match receipt_at(heap, w[7]) {
                Some(v) => Some(v),
                None => return None,
            }
        };
        Some(Event { address, log_index, transaction_log_index, log_type, block, transaction, parameters, receipt })
    }
}

/// What an call record must hold for it to be read.
pub open spec fn call_ok(h: Heap, w: Seq<u32>) -> bool {
    &&& w.len() >= 6
    &&& (typed_array_bytes(h, w[0] as int) matches Some(b) && b.len() == 20)
    &&& (typed_array_bytes(h, w[1] as int) matches Some(b) && b.len() == 20)
    &&& (h.is_block(w[2] as int) && block_ok(h, words_at(h.mem(), w[2] as int)))
    &&& (h.is_block(w[3] as int) && transaction_ok(h, words_at(h.mem(), w[3] as int)))
    &&& params_ok(h, w[4] as int)
    &&& params_ok(h, w[5] as int)
}

/// The fields of `v` are what the record's words point to.
pub open spec fn call_matches(h: Heap, w: Seq<u32>, v: Call) -> bool {
    &&& typed_array_bytes(h, w[0] as int) == Some(v.to.0@)
    &&& typed_array_bytes(h, w[1] as int) == Some(v.from.0@)
    &&& block_matches(h, words_at(h.mem(), w[2] as int), v.block)
    &&& transaction_matches(h, words_at(h.mem(), w[3] as int), v.transaction)
    &&& params_match(h, w[4] as int, v.input_values@)
    &&& params_match(h, w[5] as int, v.output_values@)
}

/// Common representation for Ethereum smart contract calls.
#[derive(Debug, PartialEq, Eq)]
pub struct Call {
    pub to: Address,
    pub from: Address,
    pub block: Block,
    pub transaction: Transaction,
    pub input_values: Vec<(String, Value)>,
    pub output_values: Vec<(String, Value)>,
}

impl Call {
    /// Reads the record at `raw`; `None` when a field is missing or malformed.
    #[verifier::rlimit(100)]
    pub fn from_raw(heap: &Heap, raw: AscRef<AscCall>) -> (r: Option<Call>)
        requires
            heap.wf(),
            heap.is_block(raw@ as int),
        ensures
            ({
                let h = *heap;
                let w = words_at(heap.mem(), raw@ as int);
                &&& r is Some <==> call_ok(h, w)
                &&& r matches Some(v) ==> call_matches(h, w, v)
            }),
    {
        let p = raw.as_ptr();
        let w = heap.words_of(p);
        if w.len() < 6 {
            return None;
        }
        let to = match address_at(heap, w[0]) {
            Some(v) => v,
            None => return None,
        };
        let from = match address_at(heap, w[1]) {
            Some(v) => v,
            None => return None,
        };
        let block = match block_at(heap, w[2]) {
            Some(v) => v,
            None => return None,
        };
        let transaction = match transaction_at(heap, w[3]) {
            Some(v) => v,
            None => return None,
        };
        let input_values = match params_at(heap, w[4]) {
            Some(v) => v,
            None => return None,
        };
        let output_values = match params_at(heap, w[5]) {
            Some(v) => v,
            None => return None,
        };
        Some(Call { to, from, block, transaction, input_values, output_values })
    }
}

impl Value {
    /// Allocates the trees of `items`, then an array over them.
    /// Bytes that the trees of `items` take, kept at most one past the
    /// memory limit.
    fn items_raw_size(items: &Vec<Value>) -> (r: u64)
        ensures
            r == capped(list_size(models_of(items@))),
        decreases items,
    {
        let mut acc: u64 = 0;
        let mut i: usize = 0;
        proof {
            assert(models_of(items@.subrange(0, 0)) =~= Seq::<ValueModel>::empty());
        }
        while i < items.len()
            invariant
                i <= items@.len(),
                acc == capped(list_size(models_of(items@.subrange(0, i as int)))),
            decreases items@.len() - i,
        {
            let k = items[i].raw_size();
            proof {
                let prev = models_of(items@.subrange(0, i as int));
                let next = models_of(items@.subrange(0, i + 1));
                assert(next =~= prev.push(model_of(items@[i as int])));
                assert(next.drop_last() =~= prev);
                lemma_sizes_nonneg_list(prev);
                lemma_sizes_nonneg(model_of(items@[i as int]));
            }
            acc = capped_add(acc, k);
            i += 1;
        }
        proof {
            assert(items@.subrange(0, i as int) =~= items@);
        }
        acc
    }

    /// Bytes that the tree of records of this value takes, kept at most one
    /// past the memory limit.
    pub fn raw_size(&self) -> (r: u64)
        ensures
            r == capped(model_size(model_of(*self))),
        decreases self,
    {
        let fixed = block_bytes(12) + block_bytes(16);
        match self {
            Value::Address(_) => capped_add(block_bytes(20), fixed),
            Value::FixedBytes(v) => {
                if v.len() as u64 > MEMORY_LIMIT as u64 {
                    MEMORY_LIMIT as u64 + 1
                } else {
                    capped_add(block_bytes(v.len() as u64), fixed)
                }
            },
            Value::Bytes(v) => {
                if v.len() as u64 > MEMORY_LIMIT as u64 {
                    MEMORY_LIMIT as u64 + 1
                } else {
                    capped_add(block_bytes(v.len() as u64), fixed)
                }
            },
            Value::Int(x) => {
                let n = x.to_signed_bytes_le().len();
                if n as u64 > MEMORY_LIMIT as u64 {
                    MEMORY_LIMIT as u64 + 1
                } else {
                    capped_add(block_bytes(n as u64), fixed)
                }
            },
            Value::Uint(x) => {
                let n = x.to_signed_bytes_le().len();
                if n as u64 > MEMORY_LIMIT as u64 {
                    MEMORY_LIMIT as u64 + 1
                } else {
                    capped_add(block_bytes(n as u64), fixed)
                }
            },
            Value::Bool(_) => block_bytes(16),
            Value::String(s) => {
                let n = crate::string::encode_str(s.as_str()).len();
                if n as u64 > MEMORY_LIMIT as u64 / 2 {
                    MEMORY_LIMIT as u64 + 1
                } else {
                    capped_add(block_bytes(2 * n as u64), block_bytes(16))
                }
            },
            Value::FixedArray(items) | Value::Array(items) | Value::Tuple(items) => {
                let l = Self::items_raw_size(items);
                let n = items.len();
                proof {
                    lemma_sizes_nonneg_list(models_of(items@));
                }
                if n as u64 > MEMORY_LIMIT as u64 / 4 {
                    MEMORY_LIMIT as u64 + 1
                } else {
                    capped_add(l, block_bytes(4 * n as u64) + block_bytes(16) + block_bytes(16))
                }
            },
        }
    }

    /// Allocates the tree of records of this value; `None`, with memory
    /// untouched, exactly when memory cannot grow by the tree's size.
    pub fn to_raw(&self, heap: &mut Heap) -> (r: Option<AscBox<AscEthereumValue>>)
        requires
            old(heap).wf(),
        ensures
            final(heap).wf(),
            r is Some <==> old(heap).mem().len() + model_size(model_of(*self)) <= MEMORY_LIMIT,
            r is None ==> *final(heap) == *old(heap),
            r matches Some(b) ==> {
                &&& final(heap).grows_from(*old(heap))
                &&& final(heap).mem().len() == old(heap).mem().len() + model_size(model_of(*self))
                &&& final(heap).is_block(b@ as int)
                &&& !old(heap).is_block(b@ as int)
                &&& decode_value(*final(heap), b@ as int) == Some(model_of(*self))
            },
    {
        let need = self.raw_size();
        proof {
            lemma_sizes_nonneg(model_of(*self));
        }
        if heap.len() as u64 + need > MEMORY_LIMIT as u64 {
            return None;
        }
        Some(self.to_raw_fits(heap))
    }

    fn items_to_raw(items: &Vec<Value>, heap: &mut Heap) -> (r: AscBox<AscArray<AscEthereumValue>>)
        requires
            old(heap).wf(),
            old(heap).mem().len() + list_size(models_of(items@)) + block_size(
                4 * items@.len() as int,
            ) + block_size(16) <= MEMORY_LIMIT,
        ensures
            final(heap).wf(),
            final(heap).grows_from(*old(heap)),
            final(heap).is_block(r@ as int),
            !old(heap).is_block(r@ as int),
            final(heap).mem().len() == old(heap).mem().len() + list_size(models_of(items@))
                + block_size(4 * items@.len() as int) + block_size(16),
            decode_items(*final(heap), r@ as int) == Some(models_of(items@)),
        decreases items,
    {
        let ghost h0 = *heap;
        proof {
            h0.lemma_grows_refl();
        }
        let ghost top: int = 0x1_0000_0000;
        let mut kids: Vec<AscBox<AscEthereumValue>> = Vec::new();
        let mut i: usize = 0;
        proof {
            assert(ptrs_of(kids@) =~= Seq::<u32>::empty());
            assert(models_of(items@.subrange(0, 0)) =~= Seq::<ValueModel>::empty());
            lemma_sizes_nonneg_list(models_of(items@));
        }
        while i < items.len()
            invariant
                heap.wf(),
                heap.grows_from(h0),
                h0 == *old(heap),
                top == 0x1_0000_0000,
                i <= items@.len(),
                kids@.len() == i,
                forall|j: int|
                    0 <= j < i ==> heap.is_block(#[trigger] ptrs_of(kids@)[j] as int) && !h0.is_block(
                        ptrs_of(kids@)[j] as int,
                    ),
                decode_list(*heap, ptrs_of(kids@), top) == Some(
                    models_of(items@.subrange(0, i as int)),
                ),
                heap.mem().len() == h0.mem().len() + list_size(models_of(items@.subrange(0, i as int))),
                h0.mem().len() + list_size(models_of(items@)) + block_size(4 * items@.len() as int)
                    + block_size(16) <= MEMORY_LIMIT,
            decreases items@.len() - i,
        {
            let ghost h1 = *heap;
            proof {
                assert(models_of(items@.subrange(0, i + 1)) =~= models_of(
                    items@.subrange(0, i as int),
                ).push(model_of(items@[i as int])));
                assert(models_of(items@.subrange(0, i + 1)) =~= models_of(items@).subrange(0, i + 1));
                lemma_list_size_prefix(models_of(items@), i + 1);
                assert(models_of(items@.subrange(0, i + 1)).drop_last() =~= models_of(
                    items@.subrange(0, i as int),
                ));
                lemma_sizes_nonneg(model_of(items@[i as int]));
            }
            let kid = items[i].to_raw_fits(heap);
            proof {
                heap.lemma_grows_trans(h1, h0);
                lemma_list_kept(*heap, h1, ptrs_of(kids@), top);
                lemma_list_push(*heap, ptrs_of(kids@), kid@, top);
                assert(ptrs_of(kids@.push(kid)) =~= ptrs_of(kids@).push(kid@));
                assert(models_of(items@.subrange(0, i + 1)) =~= models_of(
                    items@.subrange(0, i as int),
                ).push(model_of(items@[i as int])));
            }
            kids.push(kid);
            i += 1;
        }
        proof {
            assert(items@.subrange(0, i as int) =~= items@);
        }
        let ghost h2 = *heap;
        let ghost ptrs = ptrs_of(kids@);
        let a = AscArray::new(heap, kids).unwrap();
        proof {
            {
                heap.lemma_grows_trans(h2, h0);
                lemma_list_kept(*heap, h2, ptrs, top);
                assert forall|j: int| 0 <= j < ptrs.len() implies #[trigger] ptrs[j] < a@ && ptrs[j]
                    < top by {
                    h2.lemma_block_below_top(ptrs[j] as int);
                }
                lemma_list_bound(*heap, ptrs, a@ as int, top);
                if h0.is_block(a@ as int) {
                    assert(h2.is_block(a@ as int));
                }
            }
        }
        a
    }

    /// Allocates the tree of records of this value, in memory known to
    /// suffice.
    #[verifier::rlimit(100)]
    fn to_raw_fits(&self, heap: &mut Heap) -> (r: AscBox<AscEthereumValue>)
        requires
            old(heap).wf(),
            old(heap).mem().len() + model_size(model_of(*self)) <= MEMORY_LIMIT,
        ensures
            final(heap).wf(),
            final(heap).grows_from(*old(heap)),
            final(heap).mem().len() == old(heap).mem().len() + model_size(model_of(*self)),
            final(heap).is_block(r@ as int),
            !old(heap).is_block(r@ as int),
            decode_value(*final(heap), r@ as int) == Some(model_of(*self)),
        decreases self,
    {
        let ghost h0 = *heap;
        proof {
            h0.lemma_grows_refl();
        }
        match self {
            Value::Address(a) => {
                let arr = AscTypedArray::from_bytes(heap, a.0.as_slice()).unwrap();
                let ghost h1 = *heap;
                let ghost q = arr@;
                let r = AscEthereumValue::address(heap, arr).unwrap();
                proof {
                    lemma_leaf(h0, h1, *heap, q as int, r@);
                    lemma_ethereum_value_record_round_trip(EthereumValueRecord::Address(q));
                }
                r
            },
            Value::FixedBytes(v) => {
                let arr = AscTypedArray::from_bytes(heap, v.as_slice()).unwrap();
                let ghost h1 = *heap;
                let ghost q = arr@;
                let r = AscEthereumValue::fixedbytes(heap, arr).unwrap();
                proof {
                    lemma_leaf(h0, h1, *heap, q as int, r@);
                    lemma_ethereum_value_record_round_trip(EthereumValueRecord::FixedBytes(q));
                }
                r
            },
            Value::Bytes(v) => {
                let arr = AscTypedArray::from_bytes(heap, v.as_slice()).unwrap();
                let ghost h1 = *heap;
                let ghost q = arr@;
                let r = AscEthereumValue::bytes(heap, arr).unwrap();
                proof {
                    lemma_leaf(h0, h1, *heap, q as int, r@);
                    lemma_ethereum_value_record_round_trip(EthereumValueRecord::Bytes(q));
                }
                r
            },
            Value::Int(x) => {
                let arr = x.to_raw(heap).unwrap();
                let ghost h1 = *heap;
                let ghost q = arr@;
                let r = AscEthereumValue::integer(heap, arr).unwrap();
                proof {
                    lemma_leaf(h0, h1, *heap, q as int, r@);
                    lemma_ethereum_value_record_round_trip(EthereumValueRecord::Int(q));
                }
                r
            },
            Value::Uint(x) => {
                let arr = x.to_raw(heap).unwrap();
                let ghost h1 = *heap;
                let ghost q = arr@;
                let r = AscEthereumValue::uint(heap, arr).unwrap();
                proof {
                    lemma_leaf(h0, h1, *heap, q as int, r@);
                    lemma_ethereum_value_record_round_trip(EthereumValueRecord::Uint(q));
                }
                r
            },
            Value::Bool(b) => {
                let r = AscEthereumValue::bool(heap, *b).unwrap();
                proof {
                    let p = r@;
                    heap.lemma_grown_by_grows(h0, p);
                    if h0.is_block(p as int) {
                        h0.lemma_block_below_top(p as int);
                    }
                    lemma_ethereum_value_record_round_trip(EthereumValueRecord::Bool(*b));
                }
                r
            },
            Value::String(s) => {
                let t = AscString::new(heap, s.as_str()).unwrap();
                let ghost h1 = *heap;
                let ghost q = t@;
                proof {
                    h1.lemma_grown_by_grows(h0, q);
                    lemma_utf16_round_trip(s@);
                }
                let r = AscEthereumValue::string(heap, t).unwrap();
                proof {
                    lemma_leaf(h0, h1, *heap, q as int, r@);
                    lemma_ethereum_value_record_round_trip(EthereumValueRecord::String(q));
                }
                r
            },
            Value::FixedArray(items) => {
                let arr = Self::items_to_raw(items, heap);
                let ghost h1 = *heap;
                let ghost q = arr@;
                let r = AscEthereumValue::fixedarray(heap, arr).unwrap();
                proof {
                    lemma_leaf(h0, h1, *heap, q as int, r@);
                    lemma_ethereum_value_record_round_trip(EthereumValueRecord::FixedArray(q));
                    lemma_items_kept_at(*heap, h1, q as int);
                }
                r
            },
            Value::Array(items) => {
                let arr = Self::items_to_raw(items, heap);
                let ghost h1 = *heap;
                let ghost q = arr@;
                let r = AscEthereumValue::array(heap, arr).unwrap();
                proof {
                    lemma_leaf(h0, h1, *heap, q as int, r@);
                    lemma_ethereum_value_record_round_trip(EthereumValueRecord::Array(q));
                    lemma_items_kept_at(*heap, h1, q as int);
                }
                r
            },
            Value::Tuple(items) => {
                let arr = Self::items_to_raw(items, heap);
                let ghost h1 = *heap;
                let ghost q = arr@;
                let r = AscEthereumValue::tuple(heap, arr).unwrap();
                proof {
                    lemma_leaf(h0, h1, *heap, q as int, r@);
                    lemma_ethereum_value_record_round_trip(EthereumValueRecord::Tuple(q));
                    lemma_items_kept_at(*heap, h1, q as int);
                }
                r
            },
        }
    }

    /// Reads the items of the array record at `q`, each a tree below `q`.
    fn items_from_raw(heap: &Heap, q: u32) -> (r: Option<Vec<Value>>)
        requires
            heap.wf(),
        ensures
            match decode_items(*heap, q as int) {
                Some(s) => (r matches Some(v) && models_of(v@) == s),
                None => r is None,
            },
        decreases q,
    {
        if !heap.has_block(q) {
            return None;
        }
        let arr: AscRef<AscArray<AscEthereumValue>> = AscRef::at(q);
        let refs = match arr.as_slice(heap) {
            Some(v) => v,
            None => return None,
        };
        let ghost items = ref_ptrs_of(refs@);
        let mut out: Vec<Value> = Vec::new();
        let mut i: usize = 0;
        assert(items.subrange(0, 0) =~= Seq::<u32>::empty());
        assert(models_of(out@) =~= Seq::<ValueModel>::empty());
        while i < refs.len()
            invariant
                heap.wf(),
                array_items(*heap, q as int) == Some(items),
                items == ref_ptrs_of(refs@),
                i <= refs@.len(),
                decode_list(*heap, items.subrange(0, i as int), q as int) == Some(models_of(out@)),
            decreases refs@.len() - i,
        {
            let item: AscRef<AscEthereumValue> = AscRef::at(refs[i].as_ptr());
            let ghost next = items.subrange(0, i + 1);
            proof {
                assert(next.drop_last() =~= items.subrange(0, i as int));
                assert(next.last() == item@);
            }
            if item.as_ptr() >= q {
                proof {
                    lemma_list_prefix(*heap, items, q as int, i + 1);
                }
                return None;
            }
            match Self::from_raw(heap, item) {
                Some(v) => {
                    let ghost before = out@;
                    out.push(v);
                    proof {
                        assert(models_of(out@) =~= models_of(before).push(model_of(v)));
                    }
                },
                None => {
                    proof {
                        lemma_list_prefix(*heap, items, q as int, i + 1);
                    }
                    return None;
                },
            }
            i += 1;
        }
        proof {
            assert(items.subrange(0, i as int) =~= items);
        }
        Some(out)
    }

    /// Reads the ABI value whose tree of records starts at `raw`; `None` when
    /// the tree is malformed.
    pub fn from_raw(heap: &Heap, raw: AscRef<AscEthereumValue>) -> (r: Option<Value>)
        requires
            heap.wf(),
        ensures
            match decode_value(*heap, raw@ as int) {
                Some(m) => (r matches Some(v) && model_of(v) == m),
                None => r is None,
            },
        decreases raw@,
    {
        let p = raw.as_ptr();
        if !heap.has_block(p) {
            return None;
        }
        if !raw.has_known_tag(heap) {
            return None;
        }
        let d = raw.data(heap);
        match d {
            AscEthereumValueData::Address(q) => {
                if q.as_ptr() >= p {
                    return None;
                }
                match crate::buf::typed_bytes_at(heap, q.as_ptr()) {
                    Some(b) => {
                        if b.len() == 20 {
                            let a = address_of(&b);
                            assert(decode_value(*heap, raw@ as int) == Some(ValueModel::Address(b@)));
                            assert(model_of(Value::Address(a)) == ValueModel::Address(b@));
                            Some(Value::Address(a))
                        } else {
                            None
                        }
                    },
                    None => None,
                }
            },
            AscEthereumValueData::FixedBytes(q) => {
                if q.as_ptr() >= p {
                    return None;
                }
                match crate::buf::typed_bytes_at(heap, q.as_ptr()) {
                    Some(b) => Some(Value::FixedBytes(b)),
                    None => None,
                }
            },
            AscEthereumValueData::Bytes(q) => {
                if q.as_ptr() >= p {
                    return None;
                }
                match crate::buf::typed_bytes_at(heap, q.as_ptr()) {
                    Some(b) => Some(Value::Bytes(b)),
                    None => None,
                }
            },
            AscEthereumValueData::Int(q) => {
                if q.as_ptr() >= p {
                    return None;
                }
                match crate::buf::typed_bytes_at(heap, q.as_ptr()) {
                    Some(b) => {
                        let x = BigInt::from_signed_bytes_le(b.as_slice());
                        assert(decode_value(*heap, raw@ as int) == Some(ValueModel::Int(b@)));
                        Some(Value::Int(x))
                    },
                    None => None,
                }
            },
            AscEthereumValueData::Uint(q) => {
                if q.as_ptr() >= p {
                    return None;
                }
                match crate::buf::typed_bytes_at(heap, q.as_ptr()) {
                    Some(b) => Some(Value::Uint(BigInt::from_signed_bytes_le(b.as_slice()))),
                    None => None,
                }
            },
            AscEthereumValueData::Bool(b) => {
                assert(decode_value(*heap, raw@ as int) == Some(model_of(Value::Bool(b))));
                Some(Value::Bool(b))
            },
            AscEthereumValueData::String(s) => {
                if !(s.as_ptr() < p && heap.has_block(s.as_ptr())) {
                    return None;
                }
                let t = s.to_string_lossy(heap);
                assert(decode_value(*heap, raw@ as int) == Some(model_of(Value::String(t))));
                Some(Value::String(t))
            },
            AscEthereumValueData::FixedArray(q) => {
                if q.as_ptr() >= p {
                    return None;
                }
                match Self::items_from_raw(heap, q.as_ptr()) {
                    Some(v) => {
                        let r = Value::FixedArray(v);
                        assert(array_items(*heap, q@ as int) is Some);
                        let ghost items = array_items(*heap, q@ as int)->Some_0;
                        assert(decode_items(*heap, q@ as int) == Some(models_of(v@)));
                        assert(ethereum_value_of_words(words_at(heap.mem(), p as int)) == Some(EthereumValueRecord::FixedArray(q@)));
                        assert(decode_value(*heap, raw@ as int) == Some(model_of(r)));
                        Some(r)
                    },
                    None => None,
                }
            },
            AscEthereumValueData::Array(q) => {
                if q.as_ptr() >= p {
                    return None;
                }
                match Self::items_from_raw(heap, q.as_ptr()) {
                    Some(v) => {
                        let r = Value::Array(v);
                        assert(decode_value(*heap, raw@ as int) == Some(model_of(r)));
                        Some(r)
                    },
                    None => None,
                }
            },
            AscEthereumValueData::Tuple(q) => {
                if q.as_ptr() >= p {
                    return None;
                }
                match Self::items_from_raw(heap, q.as_ptr()) {
                    Some(v) => {
                        let r = Value::Tuple(v);
                        assert(decode_value(*heap, raw@ as int) == Some(model_of(r)));
                        Some(r)
                    },
                    None => None,
                }
            },
        }
    }
}

/// A contract to call: the name under which the host knows its ABI, and its
/// address.
#[derive(Clone, Debug, PartialEq, Eq)]
pub struct Contract {
    pub name: String,
    pub address: Address,
}

/// A contract function: its name and its signature.
#[derive(Clone, Debug, PartialEq, Eq)]
pub struct Function {
    pub name: String,
    pub signature: String,
}

/// An Ethereum call: a function of a contract, with its parameters.
#[derive(Debug, PartialEq, Eq)]
pub struct SmartContractCall {
    pub contract: Contract,
    pub function: Function,
    pub params: Vec<Value>,
}

/// The call record at `c` holds `call`: the strings' code units, the
/// address bytes and the parameters' trees.
pub open spec fn call_record_holds(h: Heap, c: int, call: SmartContractCall) -> bool {
    let w = words_at(h.mem(), c);
    &&& h.is_block(c)
    &&& w.len() == 5
    &&& h.is_block(w[0] as int) && units_at(h.mem(), w[0] as int) == encode_utf16(call.contract.name@)
    &&& typed_array_bytes(h, w[1] as int) == Some(call.contract.address.0@)
    &&& h.is_block(w[2] as int) && units_at(h.mem(), w[2] as int) == encode_utf16(call.function.name@)
    &&& h.is_block(w[3] as int) && units_at(h.mem(), w[3] as int) == encode_utf16(
        call.function.signature@,
    )
    &&& h.is_block(w[4] as int) && decode_items(h, w[4] as int) == Some(models_of(call.params@))
}

impl SmartContractCall {
    /// Bytes that `to_raw` takes: three strings, the address, the
    /// parameters' trees and their array, and the call record.
    pub open spec fn raw_size(&self) -> int {
        block_size(2 * encode_utf16(self.contract.name@).len() as int) + block_size(20) + block_size(12)
            + block_size(2 * encode_utf16(self.function.name@).len() as int) + block_size(
            2 * encode_utf16(self.function.signature@).len() as int,
        ) + list_size(models_of(self.params@)) + block_size(4 * self.params@.len() as int)
            + block_size(16) + block_size(20)
    }

    /// Allocates the call record for the host: contract name and address,
    /// function name and signature, then the parameters; `None`, with memory
    /// untouched, exactly when memory cannot grow by `raw_size`.
    #[verifier::rlimit(100)]
    pub fn to_raw(&self, heap: &mut Heap) -> (r: Option<AscBox<AscEthereumSmartContractCall>>)
        requires
            old(heap).wf(),
        ensures
            final(heap).wf(),
            r is Some <==> old(heap).mem().len() + self.raw_size() <= MEMORY_LIMIT,
            r is None ==> *final(heap) == *old(heap),
            r matches Some(c) ==> {
                &&& final(heap).grows_from(*old(heap))
                &&& final(heap).mem().len() == old(heap).mem().len() + self.raw_size()
                &&& call_record_holds(*final(heap), c@ as int, *self)
            },
    {
        let ghost h0 = *heap;
        proof {
            h0.lemma_grows_refl();
            lemma_sizes_nonneg_list(models_of(self.params@));
        }
        let u1 = crate::string::encode_str(self.contract.name.as_str()).len();
        let u2 = crate::string::encode_str(self.function.name.as_str()).len();
        let u3 = crate::string::encode_str(self.function.signature.as_str()).len();
        let l = Value::items_raw_size(&self.params);
        let n = self.params.len();
        let half = MEMORY_LIMIT as u64 / 2;
        if u1 as u64 > half || u2 as u64 > half || u3 as u64 > half || n as u64 > half / 2 {
            return None;
        }
        let fixed = block_bytes(20) + block_bytes(12) + block_bytes(16) + block_bytes(20);
        let strings = block_bytes(2 * u1 as u64) + block_bytes(2 * u2 as u64) + block_bytes(
            2 * u3 as u64,
        );
        let need = capped_add(capped_add(l, block_bytes(4 * n as u64)), fixed + strings);
        if heap.len() as u64 + need > MEMORY_LIMIT as u64 {
            return None;
        }
        let n1 = AscString::new(heap, self.contract.name.as_str()).unwrap();
        let ghost h1 = *heap;
        let ghost name_at = n1@;
        proof {
            h1.lemma_grown_by_grows(h0, name_at);
        }
        let addr = AscTypedArray::from_bytes(heap, self.contract.address.0.as_slice()).unwrap();
        let ghost h2 = *heap;
        let ghost addr_at = addr@;
        proof {
            h2.lemma_grows_trans(h1, h0);
        }
        let n2 = AscString::new(heap, self.function.name.as_str()).unwrap();
        let ghost h3 = *heap;
        let ghost fname_at = n2@;
        proof {
            h3.lemma_grown_by_grows(h2, fname_at);
            h3.lemma_grows_trans(h2, h0);
        }
        let n3 = AscString::new(heap, self.function.signature.as_str()).unwrap();
        let ghost h4 = *heap;
        let ghost signature_at = n3@;
        proof {
            h4.lemma_grown_by_grows(h3, signature_at);
            h4.lemma_grows_trans(h3, h0);
        }
        let params = Value::items_to_raw(&self.params, heap);
        let ghost h5 = *heap;
        let ghost list_at = params@;
        proof {
            h5.lemma_grows_trans(h4, h0);
        }
        let c = AscEthereumSmartContractCall::new(heap, n1, addr, n2, n3, params).unwrap();
        proof {
            heap.lemma_grown_by_grows(h5, c@);
            heap.lemma_grows_trans(h5, h0);
            h3.lemma_grows_trans(h2, h1);
            h4.lemma_grows_trans(h3, h1);
            h4.lemma_grows_trans(h3, h2);
            h5.lemma_grows_trans(h4, h1);
            h5.lemma_grows_trans(h4, h2);
            h5.lemma_grows_trans(h4, h3);
            heap.lemma_grows_trans(h5, h1);
            heap.lemma_grows_trans(h5, h2);
            heap.lemma_grows_trans(h5, h3);
            heap.lemma_grows_trans(h5, h4);
            heap.lemma_keeps(h1, name_at as int);
            lemma_typed_array_kept(*heap, h2, addr_at as int);
            heap.lemma_keeps(h3, fname_at as int);
            heap.lemma_keeps(h4, signature_at as int);
            lemma_items_kept_at(*heap, h5, list_at as int);
        }
        Some(c)
    }
}

impl AscRef<AscEthereumValue> {
    /// A fresh, owned copy of the value tree at this reference: every block
    /// of the tree is copied. `None`, with memory untouched, exactly when the
    /// tree is malformed or memory cannot grow by the copy's size.
    pub fn to_owned(&self, heap: &mut Heap) -> (r: Option<AscBox<AscEthereumValue>>)
        requires
            old(heap).wf(),
        ensures
            final(heap).wf(),
            r is Some <==> (decode_value(*old(heap), self@ as int) matches Some(m)
                && old(heap).mem().len() + model_size(m) <= MEMORY_LIMIT),
            r is None ==> *final(heap) == *old(heap),
            r matches Some(b) ==> {
                &&& final(heap).grows_from(*old(heap))
                &&& !old(heap).is_block(b@ as int)
                &&& decode_value(*final(heap), b@ as int) == decode_value(*old(heap), self@ as int)
            },
    {
        let v = match Value::from_raw(heap, AscRef::at(self.as_ptr())) {
            Some(v) => v,
            None => return None,
        };
        v.to_raw(heap)
    }
}

/// The values of a call's result: the array of value trees at `raw`, or
/// `None` for the null pointer, which is how the host reports a reverted or
/// failed call.
pub fn call_result(heap: &Heap, raw: u32) -> (r: Option<Option<Vec<Value>>>)
    requires
        heap.wf(),
    ensures
        raw == 0 ==> r == Some(None::<Vec<Value>>),
        raw != 0 ==> match decode_items(*heap, raw as int) {
            Some(s) => (r matches Some(Some(v)) && models_of(v@) == s),
            None => r is None,
        },
{
    if raw == 0 {
        return Some(None);
    }
    match Value::items_from_raw(heap, raw) {
        Some(v) => Some(Some(v)),
        None => None,
    }
}

} // verus!
