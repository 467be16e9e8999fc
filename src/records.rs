//! Records of Ethereum data that the host hands to handlers, and the call
//! record that the guest hands to the host.
//!
//! Each record is a run of words, one per field, each the data pointer of the
//! block that holds the field (0 for an absent nullable field).

use crate::boxed::{AscBox, AscRef, AscSlice};
use crate::buf::AscTypedArray;
use crate::heap::{block_size, Heap, MEMORY_LIMIT};
use crate::num::AscBigInt;
use crate::sequence::words_at;
use crate::string::AscString;
use crate::value::{AscArray, AscEthereumValue};
use vstd::prelude::*;

verus! {

/// A host `Bytes` value: a typed byte array.
pub type AscBytes = AscTypedArray<u8>;

/// A host `Address` value: 20 bytes in a typed byte array.
pub type AscAddress = AscTypedArray<u8>;

/// Field `k` of the record at `p`; `None` when the record is shorter.
fn field<T>(heap: &Heap, p: u32, k: u32) -> (r: Option<AscRef<T>>)
    requires
        heap.wf(),
        heap.is_block(p as int),
    ensures
        ({
            let w = words_at(heap.mem(), p as int);
            match r {
                Some(x) => k < w.len() && x@ == w[k as int],
                None => k >= w.len(),
            }
        }),
{
    match heap.word_of(p, k) {
        Some(q) => Some(AscRef::at(q)),
        None => None,
    }
}

/// Nullable field `k` of the record at `p`: `Some(None)` for the null
/// pointer, `None` when the record is shorter.
fn nullable_field<T>(heap: &Heap, p: u32, k: u32) -> (r: Option<Option<AscRef<T>>>)
    requires
        heap.wf(),
        heap.is_block(p as int),
    ensures
        ({
            let w = words_at(heap.mem(), p as int);
            match r {
                Some(Some(x)) => k < w.len() && w[k as int] != 0 && x@ == w[k as int],
                Some(None) => k < w.len() && w[k as int] == 0,
                None => k >= w.len(),
            }
        }),
{
    match heap.word_of(p, k) {
        Some(q) => {
            if q == 0 {
                Some(None)
            } else {
                Some(Some(AscRef::at(q)))
            }
        },
        None => None,
    }
}

/// Ethereum block data.
pub struct AscBlock {
    marker: Ghost<()>,
}

impl AscRef<AscBlock> {
    /// The `hash` field; `None` when the record is too short.
    pub fn hash(&self, heap: &Heap) -> (r: Option<AscRef<AscBytes>>)
        requires
            heap.wf(),
            heap.is_block(self@ as int),
        ensures
            ({
                let w = words_at(heap.mem(), self@ as int);
                match r {
                    Some(x) => 0 < w.len() && x@ == w[0],
                    None => 0 >= w.len(),
                }
            }),
    {
        field(heap, self.as_ptr(), 0)
    }

    /// The `parent_hash` field; `None` when the record is too short.
    pub fn parent_hash(&self, heap: &Heap) -> (r: Option<AscRef<AscBytes>>)
        requires
            heap.wf(),
            heap.is_block(self@ as int),
        ensures
            ({
                let w = words_at(heap.mem(), self@ as int);
                match r {
                    Some(x) => 1 < w.len() && x@ == w[1],
                    None => 1 >= w.len(),
                }
            }),
    {
        field(heap, self.as_ptr(), 1)
    }

    /// The `uncles_hash` field; `None` when the record is too short.
    pub fn uncles_hash(&self, heap: &Heap) -> (r: Option<AscRef<AscBytes>>)
        requires
            heap.wf(),
            heap.is_block(self@ as int),
        ensures
            ({
                let w = words_at(heap.mem(), self@ as int);
                match r {
                    Some(x) => 2 < w.len() && x@ == w[2],
                    None => 2 >= w.len(),
                }
            }),
    {
        field(heap, self.as_ptr(), 2)
    }

    /// The `author` field; `None` when the record is too short.
    pub fn author(&self, heap: &Heap) -> (r: Option<AscRef<AscAddress>>)
        requires
            heap.wf(),
            heap.is_block(self@ as int),
        ensures
            ({
                let w = words_at(heap.mem(), self@ as int);
                match r {
                    Some(x) => 3 < w.len() && x@ == w[3],
                    None => 3 >= w.len(),
                }
            }),
    {
        field(heap, self.as_ptr(), 3)
    }

    /// The `state_root` field; `None` when the record is too short.
    pub fn state_root(&self, heap: &Heap) -> (r: Option<AscRef<AscBytes>>)
        requires
            heap.wf(),
            heap.is_block(self@ as int),
        ensures
            ({
                let w = words_at(heap.mem(), self@ as int);
                match r {
                    Some(x) => 4 < w.len() && x@ == w[4],
                    None => 4 >= w.len(),
                }
            }),
    {
        field(heap, self.as_ptr(), 4)
    }

    /// The `transactions_root` field; `None` when the record is too short.
    pub fn transactions_root(&self, heap: &Heap) -> (r: Option<AscRef<AscBytes>>)
        requires
            heap.wf(),
            heap.is_block(self@ as int),
        ensures
            ({
                let w = words_at(heap.mem(), self@ as int);
                match r {
                    Some(x) => 5 < w.len() && x@ == w[5],
                    None => 5 >= w.len(),
                }
            }),
    {
        field(heap, self.as_ptr(), 5)
    }

    /// The `receipts_root` field; `None` when the record is too short.
    pub fn receipts_root(&self, heap: &Heap) -> (r: Option<AscRef<AscBytes>>)
        requires
            heap.wf(),
            heap.is_block(self@ as int),
        ensures
            ({
                let w = words_at(heap.mem(), self@ as int);
                match r {
                    Some(x) => 6 < w.len() && x@ == w[6],
                    None => 6 >= w.len(),
                }
            }),
    {
        field(heap, self.as_ptr(), 6)
    }

    /// The `number` field; `None` when the record is too short.
    pub fn number(&self, heap: &Heap) -> (r: Option<AscRef<AscBigInt>>)
        requires
            heap.wf(),
            heap.is_block(self@ as int),
        ensures
            ({
                let w = words_at(heap.mem(), self@ as int);
                match r {
                    Some(x) => 7 < w.len() && x@ == w[7],
                    None => 7 >= w.len(),
                }
            }),
    {
        field(heap, self.as_ptr(), 7)
    }

    /// The `gas_used` field; `None` when the record is too short.
    pub fn gas_used(&self, heap: &Heap) -> (r: Option<AscRef<AscBigInt>>)
        requires
            heap.wf(),
            heap.is_block(self@ as int),
        ensures
            ({
                let w = words_at(heap.mem(), self@ as int);
                match r {
                    Some(x) => 8 < w.len() && x@ == w[8],
                    None => 8 >= w.len(),
                }
            }),
    {
        field(heap, self.as_ptr(), 8)
    }

    /// The `gas_limit` field; `None` when the record is too short.
    pub fn gas_limit(&self, heap: &Heap) -> (r: Option<AscRef<AscBigInt>>)
        requires
            heap.wf(),
            heap.is_block(self@ as int),
        ensures
            ({
                let w = words_at(heap.mem(), self@ as int);
                match r {
                    Some(x) => 9 < w.len() && x@ == w[9],
                    None => 9 >= w.len(),
                }
            }),
    {
        field(heap, self.as_ptr(), 9)
    }

    /// The `timestamp` field; `None` when the record is too short.
    pub fn timestamp(&self, heap: &Heap) -> (r: Option<AscRef<AscBigInt>>)
        requires
            heap.wf(),
            heap.is_block(self@ as int),
        ensures
            ({
                let w = words_at(heap.mem(), self@ as int);
                match r {
                    Some(x) => 10 < w.len() && x@ == w[10],
                    None => 10 >= w.len(),
                }
            }),
    {
        field(heap, self.as_ptr(), 10)
    }

    /// The `difficulty` field; `None` when the record is too short.
    pub fn difficulty(&self, heap: &Heap) -> (r: Option<AscRef<AscBigInt>>)
        requires
            heap.wf(),
            heap.is_block(self@ as int),
        ensures
            ({
                let w = words_at(heap.mem(), self@ as int);
                match r {
                    Some(x) => 11 < w.len() && x@ == w[11],
                    None => 11 >= w.len(),
                }
            }),
    {
        field(heap, self.as_ptr(), 11)
    }

    /// The `total_difficulty` field; `None` when the record is too short.
    pub fn total_difficulty(&self, heap: &Heap) -> (r: Option<AscRef<AscBigInt>>)
        requires
            heap.wf(),
            heap.is_block(self@ as int),
        ensures
            ({
                let w = words_at(heap.mem(), self@ as int);
                match r {
                    Some(x) => 12 < w.len() && x@ == w[12],
                    None => 12 >= w.len(),
                }
            }),
    {
        field(heap, self.as_ptr(), 12)
    }

    /// The `size` field: `Some(None)` when it is null, `None` when the
    /// record is too short.
    pub fn size(&self, heap: &Heap) -> (r: Option<Option<AscRef<AscBigInt>>>)
        requires
            heap.wf(),
            heap.is_block(self@ as int),
        ensures
            ({
                let w = words_at(heap.mem(), self@ as int);
                match r {
                    Some(Some(x)) => 13 < w.len() && w[13] != 0 && x@ == w[13],
                    Some(None) => 13 < w.len() && w[13] == 0,
                    None => 13 >= w.len(),
                }
            }),
    {
        nullable_field(heap, self.as_ptr(), 13)
    }

    /// The `base_fee_per_gas` field: `Some(None)` when it is null, `None` when the
    /// record is too short.
    pub fn base_fee_per_gas(&self, heap: &Heap) -> (r: Option<Option<AscRef<AscBigInt>>>)
        requires
            heap.wf(),
            heap.is_block(self@ as int),
        ensures
            ({
                let w = words_at(heap.mem(), self@ as int);
                match r {
                    Some(Some(x)) => 14 < w.len() && w[14] != 0 && x@ == w[14],
                    Some(None) => 14 < w.len() && w[14] == 0,
                    None => 14 >= w.len(),
                }
            }),
    {
        nullable_field(heap, self.as_ptr(), 14)
    }

}

/// An Ethereum transaction.
pub struct AscTransaction {
    marker: Ghost<()>,
}

impl AscRef<AscTransaction> {
    /// The `hash` field; `None` when the record is too short.
    pub fn hash(&self, heap: &Heap) -> (r: Option<AscRef<AscBytes>>)
        requires
            heap.wf(),
            heap.is_block(self@ as int),
        ensures
            ({
                let w = words_at(heap.mem(), self@ as int);
                match r {
                    Some(x) => 0 < w.len() && x@ == w[0],
                    None => 0 >= w.len(),
                }
            }),
    {
        field(heap, self.as_ptr(), 0)
    }

    /// The `index` field; `None` when the record is too short.
    pub fn index(&self, heap: &Heap) -> (r: Option<AscRef<AscBigInt>>)
        requires
            heap.wf(),
            heap.is_block(self@ as int),
        ensures
            ({
                let w = words_at(heap.mem(), self@ as int);
                match r {
                    Some(x) => 1 < w.len() && x@ == w[1],
                    None => 1 >= w.len(),
                }
            }),
    {
        field(heap, self.as_ptr(), 1)
    }

    /// The `from` field; `None` when the record is too short.
    pub fn from(&self, heap: &Heap) -> (r: Option<AscRef<AscAddress>>)
        requires
            heap.wf(),
            heap.is_block(self@ as int),
        ensures
            ({
                let w = words_at(heap.mem(), self@ as int);
                match r {
                    Some(x) => 2 < w.len() && x@ == w[2],
                    None => 2 >= w.len(),
                }
            }),
    {
        field(heap, self.as_ptr(), 2)
    }

    /// The `to` field: `Some(None)` when it is null, `None` when the
    /// record is too short.
    pub fn to(&self, heap: &Heap) -> (r: Option<Option<AscRef<AscAddress>>>)
        requires
            heap.wf(),
            heap.is_block(self@ as int),
        ensures
            ({
                let w = words_at(heap.mem(), self@ as int);
                match r {
                    Some(Some(x)) => 3 < w.len() && w[3] != 0 && x@ == w[3],
                    Some(None) => 3 < w.len() && w[3] == 0,
                    None => 3 >= w.len(),
                }
            }),
    {
        nullable_field(heap, self.as_ptr(), 3)
    }

    /// The `value` field; `None` when the record is too short.
    pub fn value(&self, heap: &Heap) -> (r: Option<AscRef<AscBigInt>>)
        requires
            heap.wf(),
            heap.is_block(self@ as int),
        ensures
            ({
                let w = words_at(heap.mem(), self@ as int);
                match r {
                    Some(x) => 4 < w.len() && x@ == w[4],
                    None => 4 >= w.len(),
                }
            }),
    {
        field(heap, self.as_ptr(), 4)
    }

    /// The `gas_limit` field; `None` when the record is too short.
    pub fn gas_limit(&self, heap: &Heap) -> (r: Option<AscRef<AscBigInt>>)
        requires
            heap.wf(),
            heap.is_block(self@ as int),
        ensures
            ({
                let w = words_at(heap.mem(), self@ as int);
                match r {
                    Some(x) => 5 < w.len() && x@ == w[5],
                    None => 5 >= w.len(),
                }
            }),
    {
        field(heap, self.as_ptr(), 5)
    }

    /// The `gas_price` field; `None` when the record is too short.
    pub fn gas_price(&self, heap: &Heap) -> (r: Option<AscRef<AscBigInt>>)
        requires
            heap.wf(),
            heap.is_block(self@ as int),
        ensures
            ({
                let w = words_at(heap.mem(), self@ as int);
                match r {
                    Some(x) => 6 < w.len() && x@ == w[6],
                    None => 6 >= w.len(),
                }
            }),
    {
        field(heap, self.as_ptr(), 6)
    }

    /// The `input` field; `None` when the record is too short.
    pub fn input(&self, heap: &Heap) -> (r: Option<AscRef<AscBytes>>)
        requires
            heap.wf(),
            heap.is_block(self@ as int),
        ensures
            ({
                let w = words_at(heap.mem(), self@ as int);
                match r {
                    Some(x) => 7 < w.len() && x@ == w[7],
                    None => 7 >= w.len(),
                }
            }),
    {
        field(heap, self.as_ptr(), 7)
    }

    /// The `nonce` field; `None` when the record is too short.
    pub fn nonce(&self, heap: &Heap) -> (r: Option<AscRef<AscBigInt>>)
        requires
            heap.wf(),
            heap.is_block(self@ as int),
        ensures
            ({
                let w = words_at(heap.mem(), self@ as int);
                match r {
                    Some(x) => 8 < w.len() && x@ == w[8],
                    None => 8 >= w.len(),
                }
            }),
    {
        field(heap, self.as_ptr(), 8)
    }

}

/// An Ethereum transaction receipt.
pub struct AscTransactionReceipt {
    marker: Ghost<()>,
}

impl AscRef<AscTransactionReceipt> {
    /// The `transaction_hash` field; `None` when the record is too short.
    pub fn transaction_hash(&self, heap: &Heap) -> (r: Option<AscRef<AscBytes>>)
        requires
            heap.wf(),
            heap.is_block(self@ as int),
        ensures
            ({
                let w = words_at(heap.mem(), self@ as int);
                match r {
                    Some(x) => 0 < w.len() && x@ == w[0],
                    None => 0 >= w.len(),
                }
            }),
    {
        field(heap, self.as_ptr(), 0)
    }

    /// The `transaction_index` field; `None` when the record is too short.
    pub fn transaction_index(&self, heap: &Heap) -> (r: Option<AscRef<AscBigInt>>)
        requires
            heap.wf(),
            heap.is_block(self@ as int),
        ensures
            ({
                let w = words_at(heap.mem(), self@ as int);
                match r {
                    Some(x) => 1 < w.len() && x@ == w[1],
                    None => 1 >= w.len(),
                }
            }),
    {
        field(heap, self.as_ptr(), 1)
    }

    /// The `block_hash` field; `None` when the record is too short.
    pub fn block_hash(&self, heap: &Heap) -> (r: Option<AscRef<AscBytes>>)
        requires
            heap.wf(),
            heap.is_block(self@ as int),
        ensures
            ({
                let w = words_at(heap.mem(), self@ as int);
                match r {
                    Some(x) => 2 < w.len() && x@ == w[2],
                    None => 2 >= w.len(),
                }
            }),
    {
        field(heap, self.as_ptr(), 2)
    }

    /// The `block_number` field; `None` when the record is too short.
    pub fn block_number(&self, heap: &Heap) -> (r: Option<AscRef<AscBigInt>>)
        requires
            heap.wf(),
            heap.is_block(self@ as int),
        ensures
            ({
                let w = words_at(heap.mem(), self@ as int);
                match r {
                    Some(x) => 3 < w.len() && x@ == w[3],
                    None => 3 >= w.len(),
                }
            }),
    {
        field(heap, self.as_ptr(), 3)
    }

    /// The `cumulative_gas_used` field; `None` when the record is too short.
    pub fn cumulative_gas_used(&self, heap: &Heap) -> (r: Option<AscRef<AscBigInt>>)
        requires
            heap.wf(),
            heap.is_block(self@ as int),
        ensures
            ({
                let w = words_at(heap.mem(), self@ as int);
                match r {
                    Some(x) => 4 < w.len() && x@ == w[4],
                    None => 4 >= w.len(),
                }
            }),
    {
        field(heap, self.as_ptr(), 4)
    }

    /// The `gas_used` field; `None` when the record is too short.
    pub fn gas_used(&self, heap: &Heap) -> (r: Option<AscRef<AscBigInt>>)
        requires
            heap.wf(),
            heap.is_block(self@ as int),
        ensures
            ({
                let w = words_at(heap.mem(), self@ as int);
                match r {
                    Some(x) => 5 < w.len() && x@ == w[5],
                    None => 5 >= w.len(),
                }
            }),
    {
        field(heap, self.as_ptr(), 5)
    }

    /// The `contract_address` field: `Some(None)` when it is null, `None` when the
    /// record is too short.
    pub fn contract_address(&self, heap: &Heap) -> (r: Option<Option<AscRef<AscAddress>>>)
        requires
            heap.wf(),
            heap.is_block(self@ as int),
        ensures
            ({
                let w = words_at(heap.mem(), self@ as int);
                match r {
                    Some(Some(x)) => 6 < w.len() && w[6] != 0 && x@ == w[6],
                    Some(None) => 6 < w.len() && w[6] == 0,
                    None => 6 >= w.len(),
                }
            }),
    {
        nullable_field(heap, self.as_ptr(), 6)
    }

    /// The `logs` field; `None` when the record is too short.
    pub fn logs(&self, heap: &Heap) -> (r: Option<AscRef<AscArray<AscLog>>>)
        requires
            heap.wf(),
            heap.is_block(self@ as int),
        ensures
            ({
                let w = words_at(heap.mem(), self@ as int);
                match r {
                    Some(x) => 7 < w.len() && x@ == w[7],
                    None => 7 >= w.len(),
                }
            }),
    {
        field(heap, self.as_ptr(), 7)
    }

    /// The `status` field; `None` when the record is too short.
    pub fn status(&self, heap: &Heap) -> (r: Option<AscRef<AscBigInt>>)
        requires
            heap.wf(),
            heap.is_block(self@ as int),
        ensures
            ({
                let w = words_at(heap.mem(), self@ as int);
                match r {
                    Some(x) => 8 < w.len() && x@ == w[8],
                    None => 8 >= w.len(),
                }
            }),
    {
        field(heap, self.as_ptr(), 8)
    }

    /// The `root` field: `Some(None)` when it is null, `None` when the
    /// record is too short.
    pub fn root(&self, heap: &Heap) -> (r: Option<Option<AscRef<AscBytes>>>)
        requires
            heap.wf(),
            heap.is_block(self@ as int),
        ensures
            ({
                let w = words_at(heap.mem(), self@ as int);
                match r {
                    Some(Some(x)) => 9 < w.len() && w[9] != 0 && x@ == w[9],
                    Some(None) => 9 < w.len() && w[9] == 0,
                    None => 9 >= w.len(),
                }
            }),
    {
        nullable_field(heap, self.as_ptr(), 9)
    }

    /// The `logs_bloom` field; `None` when the record is too short.
    pub fn logs_bloom(&self, heap: &Heap) -> (r: Option<AscRef<AscBytes>>)
        requires
            heap.wf(),
            heap.is_block(self@ as int),
        ensures
            ({
                let w = words_at(heap.mem(), self@ as int);
                match r {
                    Some(x) => 10 < w.len() && x@ == w[10],
                    None => 10 >= w.len(),
                }
            }),
    {
        field(heap, self.as_ptr(), 10)
    }

}

/// An Ethereum log.
pub struct AscLog {
    marker: Ghost<()>,
}

impl AscRef<AscLog> {
    /// The `address` field; `None` when the record is too short.
    pub fn address(&self, heap: &Heap) -> (r: Option<AscRef<AscAddress>>)
        requires
            heap.wf(),
            heap.is_block(self@ as int),
        ensures
            ({
                let w = words_at(heap.mem(), self@ as int);
                match r {
                    Some(x) => 0 < w.len() && x@ == w[0],
                    None => 0 >= w.len(),
                }
            }),
    {
        field(heap, self.as_ptr(), 0)
    }

    /// The `topics` field; `None` when the record is too short.
    pub fn topics(&self, heap: &Heap) -> (r: Option<AscRef<AscArray<AscBytes>>>)
        requires
            heap.wf(),
            heap.is_block(self@ as int),
        ensures
            ({
                let w = words_at(heap.mem(), self@ as int);
                match r {
                    Some(x) => 1 < w.len() && x@ == w[1],
                    None => 1 >= w.len(),
                }
            }),
    {
        field(heap, self.as_ptr(), 1)
    }

    /// The `data` field; `None` when the record is too short.
    pub fn data(&self, heap: &Heap) -> (r: Option<AscRef<AscBytes>>)
        requires
            heap.wf(),
            heap.is_block(self@ as int),
        ensures
            ({
                let w = words_at(heap.mem(), self@ as int);
                match r {
                    Some(x) => 2 < w.len() && x@ == w[2],
                    None => 2 >= w.len(),
                }
            }),
    {
        field(heap, self.as_ptr(), 2)
    }

    /// The `block_hash` field; `None` when the record is too short.
    pub fn block_hash(&self, heap: &Heap) -> (r: Option<AscRef<AscBytes>>)
        requires
            heap.wf(),
            heap.is_block(self@ as int),
        ensures
            ({
                let w = words_at(heap.mem(), self@ as int);
                match r {
                    Some(x) => 3 < w.len() && x@ == w[3],
                    None => 3 >= w.len(),
                }
            }),
    {
        field(heap, self.as_ptr(), 3)
    }

    /// The `block_number` field; `None` when the record is too short.
    pub fn block_number(&self, heap: &Heap) -> (r: Option<AscRef<AscBytes>>)
        requires
            heap.wf(),
            heap.is_block(self@ as int),
        ensures
            ({
                let w = words_at(heap.mem(), self@ as int);
                match r {
                    Some(x) => 4 < w.len() && x@ == w[4],
                    None => 4 >= w.len(),
                }
            }),
    {
        field(heap, self.as_ptr(), 4)
    }

    /// The `transaction_hash` field; `None` when the record is too short.
    pub fn transaction_hash(&self, heap: &Heap) -> (r: Option<AscRef<AscBytes>>)
        requires
            heap.wf(),
            heap.is_block(self@ as int),
        ensures
            ({
                let w = words_at(heap.mem(), self@ as int);
                match r {
                    Some(x) => 5 < w.len() && x@ == w[5],
                    None => 5 >= w.len(),
                }
            }),
    {
        field(heap, self.as_ptr(), 5)
    }

    /// The `transaction_index` field; `None` when the record is too short.
    pub fn transaction_index(&self, heap: &Heap) -> (r: Option<AscRef<AscBigInt>>)
        requires
            heap.wf(),
            heap.is_block(self@ as int),
        ensures
            ({
                let w = words_at(heap.mem(), self@ as int);
                match r {
                    Some(x) => 6 < w.len() && x@ == w[6],
                    None => 6 >= w.len(),
                }
            }),
    {
        field(heap, self.as_ptr(), 6)
    }

    /// The `log_index` field; `None` when the record is too short.
    pub fn log_index(&self, heap: &Heap) -> (r: Option<AscRef<AscBigInt>>)
        requires
            heap.wf(),
            heap.is_block(self@ as int),
        ensures
            ({
                let w = words_at(heap.mem(), self@ as int);
                match r {
                    Some(x) => 7 < w.len() && x@ == w[7],
                    None => 7 >= w.len(),
                }
            }),
    {
        field(heap, self.as_ptr(), 7)
    }

    /// The `transaction_log_index` field; `None` when the record is too short.
    pub fn transaction_log_index(&self, heap: &Heap) -> (r: Option<AscRef<AscBigInt>>)
        requires
            heap.wf(),
            heap.is_block(self@ as int),
        ensures
            ({
                let w = words_at(heap.mem(), self@ as int);
                match r {
                    Some(x) => 8 < w.len() && x@ == w[8],
                    None => 8 >= w.len(),
                }
            }),
    {
        field(heap, self.as_ptr(), 8)
    }

    /// The `log_type` field: `Some(None)` when it is null, `None` when the
    /// record is too short.
    pub fn log_type(&self, heap: &Heap) -> (r: Option<Option<AscRef<AscSlice<u16>>>>)
        requires
            heap.wf(),
            heap.is_block(self@ as int),
        ensures
            ({
                let w = words_at(heap.mem(), self@ as int);
                match r {
                    Some(Some(x)) => 9 < w.len() && w[9] != 0 && x@ == w[9],
                    Some(None) => 9 < w.len() && w[9] == 0,
                    None => 9 >= w.len(),
                }
            }),
    {
        nullable_field(heap, self.as_ptr(), 9)
    }

    /// The `removed` field: `Some(None)` when it is null, `None` when the
    /// record is too short.
    pub fn removed(&self, heap: &Heap) -> (r: Option<Option<AscRef<bool>>>)
        requires
            heap.wf(),
            heap.is_block(self@ as int),
        ensures
            ({
                let w = words_at(heap.mem(), self@ as int);
                match r {
                    Some(Some(x)) => 10 < w.len() && w[10] != 0 && x@ == w[10],
                    Some(None) => 10 < w.len() && w[10] == 0,
                    None => 10 >= w.len(),
                }
            }),
    {
        nullable_field(heap, self.as_ptr(), 10)
    }

}

/// An Ethereum smart contract call as a call handler receives it.
pub struct AscCall {
    marker: Ghost<()>,
}

impl AscRef<AscCall> {
    /// The `to` field; `None` when the record is too short.
    pub fn to(&self, heap: &Heap) -> (r: Option<AscRef<AscAddress>>)
        requires
            heap.wf(),
            heap.is_block(self@ as int),
        ensures
            ({
                let w = words_at(heap.mem(), self@ as int);
                match r {
                    Some(x) => 0 < w.len() && x@ == w[0],
                    None => 0 >= w.len(),
                }
            }),
    {
        field(heap, self.as_ptr(), 0)
    }

    /// The `from` field; `None` when the record is too short.
    pub fn from(&self, heap: &Heap) -> (r: Option<AscRef<AscAddress>>)
        requires
            heap.wf(),
            heap.is_block(self@ as int),
        ensures
            ({
                let w = words_at(heap.mem(), self@ as int);
                match r {
                    Some(x) => 1 < w.len() && x@ == w[1],
                    None => 1 >= w.len(),
                }
            }),
    {
        field(heap, self.as_ptr(), 1)
    }

    /// The `block` field; `None` when the record is too short.
    pub fn block(&self, heap: &Heap) -> (r: Option<AscRef<AscBlock>>)
        requires
            heap.wf(),
            heap.is_block(self@ as int),
        ensures
            ({
                let w = words_at(heap.mem(), self@ as int);
                match r {
                    Some(x) => 2 < w.len() && x@ == w[2],
                    None => 2 >= w.len(),
                }
            }),
    {
        field(heap, self.as_ptr(), 2)
    }

    /// The `transaction` field; `None` when the record is too short.
    pub fn transaction(&self, heap: &Heap) -> (r: Option<AscRef<AscTransaction>>)
        requires
            heap.wf(),
            heap.is_block(self@ as int),
        ensures
            ({
                let w = words_at(heap.mem(), self@ as int);
                match r {
                    Some(x) => 3 < w.len() && x@ == w[3],
                    None => 3 >= w.len(),
                }
            }),
    {
        field(heap, self.as_ptr(), 3)
    }

    /// The `input_values` field; `None` when the record is too short.
    pub fn input_values(&self, heap: &Heap) -> (r: Option<AscRef<AscArray<AscEventParam>>>)
        requires
            heap.wf(),
            heap.is_block(self@ as int),
        ensures
            ({
                let w = words_at(heap.mem(), self@ as int);
                match r {
                    Some(x) => 4 < w.len() && x@ == w[4],
                    None => 4 >= w.len(),
                }
            }),
    {
        field(heap, self.as_ptr(), 4)
    }

    /// The `output_values` field; `None` when the record is too short.
    pub fn output_values(&self, heap: &Heap) -> (r: Option<AscRef<AscArray<AscEventParam>>>)
        requires
            heap.wf(),
            heap.is_block(self@ as int),
        ensures
            ({
                let w = words_at(heap.mem(), self@ as int);
                match r {
                    Some(x) => 5 < w.len() && x@ == w[5],
                    None => 5 >= w.len(),
                }
            }),
    {
        field(heap, self.as_ptr(), 5)
    }

}

/// An Ethereum smart contract event as an event handler receives it.
pub struct AscEvent {
    marker: Ghost<()>,
}

impl AscRef<AscEvent> {
    /// The `address` field; `None` when the record is too short.
    pub fn address(&self, heap: &Heap) -> (r: Option<AscRef<AscAddress>>)
        requires
            heap.wf(),
            heap.is_block(self@ as int),
        ensures
            ({
                let w = words_at(heap.mem(), self@ as int);
                match r {
                    Some(x) => 0 < w.len() && x@ == w[0],
                    None => 0 >= w.len(),
                }
            }),
    {
        field(heap, self.as_ptr(), 0)
    }

    /// The `log_index` field; `None` when the record is too short.
    pub fn log_index(&self, heap: &Heap) -> (r: Option<AscRef<AscBigInt>>)
        requires
            heap.wf(),
            heap.is_block(self@ as int),
        ensures
            ({
                let w = words_at(heap.mem(), self@ as int);
                match r {
                    Some(x) => 1 < w.len() && x@ == w[1],
                    None => 1 >= w.len(),
                }
            }),
    {
        field(heap, self.as_ptr(), 1)
    }

    /// The `transaction_log_index` field; `None` when the record is too short.
    pub fn transaction_log_index(&self, heap: &Heap) -> (r: Option<AscRef<AscBigInt>>)
        requires
            heap.wf(),
            heap.is_block(self@ as int),
        ensures
            ({
                let w = words_at(heap.mem(), self@ as int);
                match r {
                    Some(x) => 2 < w.len() && x@ == w[2],
                    None => 2 >= w.len(),
                }
            }),
    {
        field(heap, self.as_ptr(), 2)
    }

    /// The `log_type` field: `Some(None)` when it is null, `None` when the
    /// record is too short.
    pub fn log_type(&self, heap: &Heap) -> (r: Option<Option<AscRef<AscSlice<u16>>>>)
        requires
            heap.wf(),
            heap.is_block(self@ as int),
        ensures
            ({
                let w = words_at(heap.mem(), self@ as int);
                match r {
                    Some(Some(x)) => 3 < w.len() && w[3] != 0 && x@ == w[3],
                    Some(None) => 3 < w.len() && w[3] == 0,
                    None => 3 >= w.len(),
                }
            }),
    {
        nullable_field(heap, self.as_ptr(), 3)
    }

    /// The `block` field; `None` when the record is too short.
    pub fn block(&self, heap: &Heap) -> (r: Option<AscRef<AscBlock>>)
        requires
            heap.wf(),
            heap.is_block(self@ as int),
        ensures
            ({
                let w = words_at(heap.mem(), self@ as int);
                match r {
                    Some(x) => 4 < w.len() && x@ == w[4],
                    None => 4 >= w.len(),
                }
            }),
    {
        field(heap, self.as_ptr(), 4)
    }

    /// The `transaction` field; `None` when the record is too short.
    pub fn transaction(&self, heap: &Heap) -> (r: Option<AscRef<AscTransaction>>)
        requires
            heap.wf(),
            heap.is_block(self@ as int),
        ensures
            ({
                let w = words_at(heap.mem(), self@ as int);
                match r {
                    Some(x) => 5 < w.len() && x@ == w[5],
                    None => 5 >= w.len(),
                }
            }),
    {
        field(heap, self.as_ptr(), 5)
    }

    /// The `parameters` field; `None` when the record is too short.
    pub fn parameters(&self, heap: &Heap) -> (r: Option<AscRef<AscArray<AscEventParam>>>)
        requires
            heap.wf(),
            heap.is_block(self@ as int),
        ensures
            ({
                let w = words_at(heap.mem(), self@ as int);
                match r {
                    Some(x) => 6 < w.len() && x@ == w[6],
                    None => 6 >= w.len(),
                }
            }),
    {
        field(heap, self.as_ptr(), 6)
    }

    /// The `receipt` field: `Some(None)` when it is null, `None` when the
    /// record is too short.
    pub fn receipt(&self, heap: &Heap) -> (r: Option<Option<AscRef<AscTransactionReceipt>>>)
        requires
            heap.wf(),
            heap.is_block(self@ as int),
        ensures
            ({
                let w = words_at(heap.mem(), self@ as int);
                match r {
                    Some(Some(x)) => 7 < w.len() && w[7] != 0 && x@ == w[7],
                    Some(None) => 7 < w.len() && w[7] == 0,
                    None => 7 >= w.len(),
                }
            }),
    {
        nullable_field(heap, self.as_ptr(), 7)
    }

}

/// A named event or call parameter.
pub struct AscEventParam {
    marker: Ghost<()>,
}

impl AscRef<AscEventParam> {
    /// The `name` field; `None` when the record is too short.
    pub fn name(&self, heap: &Heap) -> (r: Option<AscRef<AscSlice<u16>>>)
        requires
            heap.wf(),
            heap.is_block(self@ as int),
        ensures
            ({
                let w = words_at(heap.mem(), self@ as int);
                match r {
                    Some(x) => 0 < w.len() && x@ == w[0],
                    None => 0 >= w.len(),
                }
            }),
    {
        field(heap, self.as_ptr(), 0)
    }

    /// The `value` field; `None` when the record is too short.
    pub fn value(&self, heap: &Heap) -> (r: Option<AscRef<AscEthereumValue>>)
        requires
            heap.wf(),
            heap.is_block(self@ as int),
        ensures
            ({
                let w = words_at(heap.mem(), self@ as int);
                match r {
                    Some(x) => 1 < w.len() && x@ == w[1],
                    None => 1 >= w.len(),
                }
            }),
    {
        field(heap, self.as_ptr(), 1)
    }

}

/// A smart contract call for the host to execute: contract name and address,
/// function name and signature, and the parameters.
pub struct AscEthereumSmartContractCall {
    marker: Ghost<()>,
}

impl AscEthereumSmartContractCall {
    /// Allocates a call record that takes ownership of its five fields.
    pub fn new(
        heap: &mut Heap,
        contract_name: AscString,
        contract_address: AscBox<AscAddress>,
        function_name: AscString,
        function_signature: AscString,
        function_params: AscBox<AscArray<AscEthereumValue>>,
    ) -> (r: Option<AscBox<AscEthereumSmartContractCall>>)
        requires
            old(heap).wf(),
        ensures
            final(heap).wf(),
            r is Some <==> old(heap).mem().len() + block_size(20) <= MEMORY_LIMIT,
            match r {
                Some(c) => {
                    &&& final(heap).grown_by(*old(heap), c@)
                    &&& words_at(final(heap).mem(), c@ as int) == seq![
                        contract_name@,
                        contract_address@,
                        function_name@,
                        function_signature@,
                        function_params@,
                    ]
                    &&& final(heap).mem().len() == old(heap).mem().len() + block_size(20)
                },
                None => *final(heap) == *old(heap),
            },
    {
        let mut words: Vec<u32> = Vec::new();
        words.push(contract_name.as_ptr());
        words.push(contract_address.as_ptr());
        words.push(function_name.as_ptr());
        words.push(function_signature.as_ptr());
        words.push(function_params.as_ptr());
        assert(words@ =~= seq![
            contract_name@,
            contract_address@,
            function_name@,
            function_signature@,
            function_params@,
        ]);
        match heap.allocate_words(&words) {
            Some(p) => Some(AscBox::from_ptr(p)),
            None => None,
        }
    }
}

} // verus!
