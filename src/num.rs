//! Arbitrary-precision numbers as the host stores them.
//!
//! A big integer is its two's-complement little-endian bytes. Arithmetic is
//! the host's; what the guest decides itself is the sign, read from the most
//! significant byte, and orderings derived from the sign of a difference.

use crate::boxed::{AscBox, AscRef};
use crate::buf::{typed_array_bytes, AscTypedArray};
use crate::heap::{block_size, Heap, MEMORY_LIMIT};
use crate::sequence::words_at;
use crate::string::chars_from;
use vstd::string::StrSliceExecFns;
use vstd::prelude::*;

verus! {

/// A host big integer: a typed byte array.
pub type AscBigInt = AscTypedArray<u8>;

/// Digits and exponent of the big decimal record at `q`, each a typed array
/// below it.
pub open spec fn decimal_parts(heap: Heap, q: int) -> Option<(Seq<u8>, Seq<u8>)> {
    let w = words_at(heap.mem(), q);
    if heap.is_block(q) && w.len() >= 2 && w[0] < q && w[1] < q {
        match (typed_array_bytes(heap, w[0] as int), typed_array_bytes(heap, w[1] as int)) {
            (Some(d), Some(e)) => Some((d, e)),
            _ => None,
        }
    } else {
        None
    }
}

/// Sign of a two's-complement little-endian number: -1 when the top bit of
/// its last byte is set, 0 when every byte is zero, 1 otherwise.
pub open spec fn signum_of(b: Seq<u8>) -> i32 {
    if b.len() > 0 && b.last() > 0x7f {
        -1i32
    } else if forall|i: int| 0 <= i < b.len() ==> b[i] == 0 {
        0i32
    } else {
        1i32
    }
}

/// Byte `k` of the 16-byte two's-complement form of `x`.
pub open spec fn i128_byte(x: i128, k: int) -> u8 {
    (((x as u128) >> (8 * k) as u128) & 0xff) as u8
}

/// The 16 little-endian bytes of `x`.
pub open spec fn i128_le_bytes(x: i128) -> Seq<u8> {
    Seq::new(16, |k: int| i128_byte(x, k))
}

/// Ordering that the sign of `a - b` gives to `a` against `b`.
pub open spec fn ordering_of_sign(s: i32) -> core::cmp::Ordering {
    if s < 0 {
        core::cmp::Ordering::Less
    } else if s == 0 {
        core::cmp::Ordering::Equal
    } else {
        core::cmp::Ordering::Greater
    }
}

/// `s` split into whether it is non-negative and its digits: a leading
/// `-` is the sign.
pub open spec fn sign_split(s: Seq<char>) -> (bool, Seq<char>) {
    if s.len() > 0 && s[0] == '-' {
        (false, s.drop_first())
    } else {
        (true, s)
    }
}

/// The host's hexadecimal text of a number split into whether the number is
/// non-negative, decided by its sign `signum` and not by the text, and its
/// digits: without the `0x` prefix and without a `-`.
pub open spec fn hex_split(s: Seq<char>, signum: i32) -> (bool, Seq<char>) {
    let t = if s.len() >= 2 && s[0] == '0' && s[1] == 'x' {
        s.subrange(2, s.len() as int)
    } else {
        s
    };
    (signum >= 0, if t.len() > 0 && t[0] == '-' {
        t.drop_first()
    } else {
        t
    })
}

/// Splits the host's decimal text of a number into its sign and digits.
pub fn decimal_text_parts(s: &str) -> (r: (bool, String))
    ensures
        r.0 == sign_split(s@).0,
        r.1@ == sign_split(s@).1,
{
    let n = s.unicode_len();
    if n > 0 && s.get_char(0) == '-' {
        (false, chars_from(s, 1))
    } else {
        let t = chars_from(s, 0);
        assert(s@.subrange(0, n as int) =~= s@);
        (true, t)
    }
}

/// Splits the host's hexadecimal text of a number into its sign and
/// digits. The host writes a negative number as the hexadecimal of its
/// magnitude, so the sign comes from `signum`, the guest's own reading.
pub fn hex_text_parts(s: &str, signum: i32) -> (r: (bool, String))
    ensures
        r.0 == hex_split(s@, signum).0,
        r.1@ == hex_split(s@, signum).1,
{
    let n = s.unicode_len();
    let start: usize = if n >= 2 && s.get_char(0) == '0' && s.get_char(1) == 'x' {
        2
    } else {
        0
    };
    let skip: usize = if start < n && s.get_char(start) == '-' {
        1
    } else {
        0
    };
    let digits = chars_from(s, start + skip);
    proof {
        let t = if s@.len() >= 2 && s@[0] == '0' && s@[1] == 'x' {
            s@.subrange(2, s@.len() as int)
        } else {
            s@
        };
        assert(t =~= s@.subrange(start as int, n as int));
        if skip == 1 {
            assert(t.drop_first() =~= s@.subrange(start + 1, n as int));
        }
    }
    (signum >= 0, digits)
}

/// Sign of a two's-complement little-endian number.
pub fn signum_le(bytes: &[u8]) -> (r: i32)
    ensures
        r == signum_of(bytes@),
{
    let n = bytes.len();
    if n > 0 && bytes[n - 1] > 0x7f {
        return -1;
    }
    let mut i: usize = 0;
    while i < n
        invariant
            n == bytes@.len(),
            i <= n,
            forall|j: int| 0 <= j < i ==> bytes@[j] == 0,
            !(n > 0 && bytes@.last() > 0x7f),
        decreases n - i,
    {
        if bytes[i] != 0 {
            assert(bytes@[i as int] != 0);
            return 1;
        }
        i += 1;
    }
    0
}

/// An arbitrary-precision integer.
#[derive(Clone, Debug, Eq)]
pub struct BigInt {
    bytes: Vec<u8>,
}

/// Byte `i` of the two's-complement form of `b`, extended with its sign
/// past its end.
pub open spec fn sign_extended(b: Seq<u8>, i: int) -> u8 {
    if i < b.len() {
        b[i]
    } else if b.len() > 0 && b.last() > 0x7f {
        0xffu8
    } else {
        0u8
    }
}

/// Whether two two's-complement little-endian byte strings stand for the
/// same number: they agree byte for byte once both are sign-extended.
pub open spec fn same_number(a: Seq<u8>, b: Seq<u8>) -> bool {
    forall|i: int|
        0 <= i < (if a.len() >= b.len() {
            a.len()
        } else {
            b.len()
        }) ==> #[trigger] sign_extended(a, i) == sign_extended(b, i)
}

/// Byte `i` of `b`, sign-extended past its end.
fn extended_byte(b: &Vec<u8>, i: usize) -> (r: u8)
    ensures
        r == sign_extended(b@, i as int),
{
    let n = b.len();
    if i < n {
        b[i]
    } else if n > 0 && b[n - 1] > 0x7f {
        0xff
    } else {
        0
    }
}

impl PartialEq for BigInt {
    /// Numeric equality: `[0]` and `[0, 0]` are the same number.
    fn eq(&self, other: &BigInt) -> (r: bool) {
        let n = if self.bytes.len() >= other.bytes.len() {
            self.bytes.len()
        } else {
            other.bytes.len()
        };
        let mut i: usize = 0;
        while i < n
            invariant
                n == (if self.bytes@.len() >= other.bytes@.len() {
                    self.bytes@.len()
                } else {
                    other.bytes@.len()
                }),
                i <= n,
                forall|j: int| 0 <= j < i ==> #[trigger] sign_extended(self.bytes@, j) == sign_extended(
                    other.bytes@,
                    j,
                ),
            decreases n - i,
        {
            if extended_byte(&self.bytes, i) != extended_byte(&other.bytes, i) {
                return false;
            }
            i += 1;
        }
        true
    }
}

impl vstd::std_specs::cmp::PartialEqSpecImpl for BigInt {
    open spec fn obeys_eq_spec() -> bool {
        true
    }

    open spec fn eq_spec(&self, other: &BigInt) -> bool {
        same_number(self@, other@)
    }
}

impl View for BigInt {
    type V = Seq<u8>;

    closed spec fn view(&self) -> Seq<u8> {
        self.bytes@
    }
}

impl BigInt {
    /// The integer `x`, as its 16 bytes.
    pub fn new(x: i128) -> (r: BigInt)
        ensures
            r@ == i128_le_bytes(x),
    {
        let v = x as u128;
        let mut bytes: Vec<u8> = Vec::new();
        let mut k: u32 = 0;
        while k < 16
            invariant
                k <= 16,
                v == x as u128,
                bytes@ =~= i128_le_bytes(x).subrange(0, k as int),
            decreases 16 - k,
        {
            bytes.push(((v >> (8 * k) as u128) & 0xff) as u8);
            k += 1;
        }
        BigInt { bytes }
    }

    /// The integer whose two's-complement little-endian bytes are `bytes`.
    /// A non-negative number needs a clear top bit in its last byte.
    pub fn from_signed_bytes_le(bytes: &[u8]) -> (r: BigInt)
        ensures
            r@ == bytes@,
    {
        BigInt { bytes: vstd::slice::slice_to_vec(bytes) }
    }

    /// The two's-complement little-endian bytes.
    pub fn to_signed_bytes_le(&self) -> (r: Vec<u8>)
        ensures
            r@ == self@,
    {
        self.bytes.clone()
    }

    /// -1, 0 or 1 after the sign of the integer.
    pub fn signum(&self) -> (r: i32)
        ensures
            r == signum_of(self@),
    {
        signum_le(self.bytes.as_slice())
    }

    /// How `a` compares with `b`, given `a - b` as the host computed it.
    pub fn cmp_by_difference(difference: &BigInt) -> (r: core::cmp::Ordering)
        ensures
            r == ordering_of_sign(signum_of(difference@)),
    {
        let s = difference.signum();
        if s < 0 {
            core::cmp::Ordering::Less
        } else if s == 0 {
            core::cmp::Ordering::Equal
        } else {
            core::cmp::Ordering::Greater
        }
    }

    /// Reads the host big integer at `raw`; `None` when its record is not a
    /// well-formed typed array.
    pub fn from_raw(heap: &Heap, raw: AscRef<AscBigInt>) -> (r: Option<BigInt>)
        requires
            heap.wf(),
            heap.is_block(raw@ as int),
        ensures
            match typed_array_bytes(*heap, raw@ as int) {
                Some(b) => (r matches Some(v) && v@ == b),
                None => r is None,
            },
    {
        match raw.as_slice(heap) {
            Some(bytes) => Some(BigInt { bytes }),
            None => None,
        }
    }

    /// Allocates the integer as a host big integer.
    pub fn to_raw(&self, heap: &mut Heap) -> (r: Option<AscBox<AscBigInt>>)
        requires
            old(heap).wf(),
        ensures
            final(heap).wf(),
            r is Some <==> old(heap).mem().len() + block_size(self@.len() as int) + block_size(12)
                <= MEMORY_LIMIT,
            r is None ==> *final(heap) == *old(heap),
            final(heap).grows_from(*old(heap)),
            r matches Some(a) ==> {
                &&& final(heap).is_block(a@ as int)
                &&& !old(heap).is_block(a@ as int)
                &&& typed_array_bytes(*final(heap), a@ as int) == Some(self@)
                &&& final(heap).mem().len() == old(heap).mem().len() + block_size(
                    self@.len() as int,
                ) + block_size(12)
            },
    {
        AscTypedArray::from_bytes(heap, self.bytes.as_slice())
    }
}

/// A host big decimal: a record of two big integers, its digits and its
/// exponent.
pub struct AscBigDecimal {
    marker: Ghost<()>,
}

impl AscBigDecimal {
    /// Allocates a big decimal record over `digits` and `exp`.
    pub fn new(heap: &mut Heap, digits: AscBox<AscBigInt>, exp: AscBox<AscBigInt>) -> (r: Option<
        AscBox<AscBigDecimal>,
    >)
        requires
            old(heap).wf(),
        ensures
            final(heap).wf(),
            r is Some <==> old(heap).mem().len() + block_size(8) <= MEMORY_LIMIT,
            match r {
                Some(d) => {
                    &&& final(heap).grown_by(*old(heap), d@)
                    &&& words_at(final(heap).mem(), d@ as int) == seq![digits@, exp@]
                    &&& final(heap).mem().len() == old(heap).mem().len() + block_size(8)
                },
                None => *final(heap) == *old(heap),
            },
    {
        let mut words: Vec<u32> = Vec::new();
        words.push(digits.as_ptr());
        words.push(exp.as_ptr());
        assert(words@ =~= seq![digits@, exp@]);
        match heap.allocate_words(&words) {
            Some(p) => Some(AscBox::from_ptr(p)),
            None => None,
        }
    }
}

impl AscRef<AscBigDecimal> {
    /// The digits of the big decimal; `None` when the record is too short.
    pub fn digits(&self, heap: &Heap) -> (r: Option<AscRef<AscBigInt>>)
        requires
            heap.wf(),
            heap.is_block(self@ as int),
        ensures
            match r {
                Some(d) => {
                    &&& words_at(heap.mem(), self@ as int).len() >= 1
                    &&& d@ == words_at(heap.mem(), self@ as int)[0]
                    &&& heap.is_block(d@ as int)
                },
                None => words_at(heap.mem(), self@ as int).len() < 1 || !heap.is_block(
                    words_at(heap.mem(), self@ as int)[0] as int,
                ),
            },
    {
        match heap.word_of(self.as_ptr(), 0) {
            Some(p) => AscRef::from_ptr(heap, p),
            None => None,
        }
    }

    /// The exponent of the big decimal; `None` when the record is too short.
    pub fn exp(&self, heap: &Heap) -> (r: Option<AscRef<AscBigInt>>)
        requires
            heap.wf(),
            heap.is_block(self@ as int),
        ensures
            match r {
                Some(d) => {
                    &&& words_at(heap.mem(), self@ as int).len() >= 2
                    &&& d@ == words_at(heap.mem(), self@ as int)[1]
                    &&& heap.is_block(d@ as int)
                },
                None => words_at(heap.mem(), self@ as int).len() < 2 || !heap.is_block(
                    words_at(heap.mem(), self@ as int)[1] as int,
                ),
            },
    {
        match heap.word_of(self.as_ptr(), 1) {
            Some(p) => AscRef::from_ptr(heap, p),
            None => None,
        }
    }
}

/// An arbitrary-precision decimal: `digits * 10^exp`.
#[derive(Clone, Debug, PartialEq, Eq)]
pub struct BigDecimal {
    digits: BigInt,
    exp: BigInt,
}

impl BigDecimal {
    pub closed spec fn spec_digits(&self) -> Seq<u8> {
        self.digits@
    }

    pub closed spec fn spec_exp(&self) -> Seq<u8> {
        self.exp@
    }

    /// The decimal `x`: its digits are `x`, its exponent zero.
    pub fn new(x: i128) -> (r: BigDecimal)
        ensures
            r.spec_digits() == i128_le_bytes(x),
            r.spec_exp() == seq![0u8],
    {
        Self::from_big_int(BigInt::new(x))
    }

    /// The decimal with the digits of `value` and exponent zero.
    pub fn from_big_int(value: BigInt) -> (r: BigDecimal)
        ensures
            r.spec_digits() == value@,
            r.spec_exp() == seq![0u8],
    {
        let mut zero: Vec<u8> = Vec::new();
        zero.push(0u8);
        assert(zero@ =~= seq![0u8]);
        BigDecimal { digits: value, exp: BigInt { bytes: zero } }
    }

    /// The digits.
    pub fn digits(&self) -> (r: &BigInt)
        ensures
            r@ == self.spec_digits(),
    {
        &self.digits
    }

    /// The exponent.
    pub fn exp(&self) -> (r: &BigInt)
        ensures
            r@ == self.spec_exp(),
    {
        &self.exp
    }

    /// How `a` compares with `b`, given `a - b` as the host computed it: by
    /// the sign of the difference's digits.
    pub fn cmp_by_difference(difference: &BigDecimal) -> (r: core::cmp::Ordering)
        ensures
            r == ordering_of_sign(signum_of(difference.spec_digits())),
    {
        BigInt::cmp_by_difference(&difference.digits)
    }

    /// Reads the host big decimal at `raw`; `None` when its record is too
    /// short, a part does not lie below it, or a part is malformed.
    pub fn from_raw(heap: &Heap, raw: AscRef<AscBigDecimal>) -> (r: Option<BigDecimal>)
        requires
            heap.wf(),
            heap.is_block(raw@ as int),
        ensures
            match decimal_parts(*heap, raw@ as int) {
                Some((d, e)) => (r matches Some(v) && v.spec_digits() == d && v.spec_exp() == e),
                None => r is None,
            },
    {
        let q = raw.as_ptr();
        let w = heap.words_of(q);
        if !(w.len() >= 2 && w[0] < q && w[1] < q) {
            return None;
        }
        let digits = match crate::buf::typed_bytes_at(heap, w[0]) {
            Some(b) => BigInt { bytes: b },
            None => return None,
        };
        let exp = match crate::buf::typed_bytes_at(heap, w[1]) {
            Some(b) => BigInt { bytes: b },
            None => return None,
        };
        Some(BigDecimal { digits, exp })
    }

    /// Bytes that `to_raw` takes: two typed arrays and the record.
    pub open spec fn raw_size(&self) -> int {
        block_size(self.spec_digits().len() as int) + block_size(12) + block_size(
            self.spec_exp().len() as int,
        ) + block_size(12) + block_size(8)
    }

    /// Allocates the decimal as a host big decimal: its two integers first,
    /// then the record over them; `None`, with memory untouched, when memory
    /// cannot grow by `raw_size`.
    pub fn to_raw(&self, heap: &mut Heap) -> (r: Option<AscBox<AscBigDecimal>>)
        requires
            old(heap).wf(),
        ensures
            final(heap).wf(),
            final(heap).grows_from(*old(heap)),
            r is Some <==> old(heap).mem().len() + self.raw_size() <= MEMORY_LIMIT,
            r is None ==> *final(heap) == *old(heap),
            r matches Some(a) ==> {
                let w = words_at(final(heap).mem(), a@ as int);
                &&& final(heap).is_block(a@ as int)
                &&& !old(heap).is_block(a@ as int)
                &&& final(heap).mem().len() == old(heap).mem().len() + self.raw_size()
                &&& w.len() == 2
                &&& w[0] < a@ && w[1] < a@
                &&& typed_array_bytes(*final(heap), w[0] as int) == Some(self.spec_digits())
                &&& typed_array_bytes(*final(heap), w[1] as int) == Some(self.spec_exp())
            },
    {
        let ghost h0 = *heap;
        proof {
            h0.lemma_grows_refl();
        }
        let nd = self.digits.bytes.len();
        let ne = self.exp.bytes.len();
        if nd as u64 > MEMORY_LIMIT as u64 || ne as u64 > MEMORY_LIMIT as u64 {
            return None;
        }
        let need = crate::heap::block_bytes(nd as u64) + crate::heap::block_bytes(12)
            + crate::heap::block_bytes(ne as u64) + crate::heap::block_bytes(12)
            + crate::heap::block_bytes(8);
        if heap.len() as u64 + need > MEMORY_LIMIT as u64 {
            return None;
        }
        let d = self.digits.to_raw(heap).unwrap();
        let ghost h1 = *heap;
        let e = self.exp.to_raw(heap).unwrap();
        let ghost h2 = *heap;
        let ghost dp = d@;
        let ghost ep = e@;
        proof {
            heap.lemma_grows_trans(h1, h0);
            crate::buf::lemma_typed_array_kept(h2, h1, dp as int);
            h1.lemma_block_below_top(dp as int);
            h2.lemma_block_below_top(ep as int);
        }
        let a = AscBigDecimal::new(heap, d, e).unwrap();
        proof {
            heap.lemma_grown_by_grows(h2, a@);
            heap.lemma_grows_trans(h2, h0);
            crate::buf::lemma_typed_array_kept(*heap, h2, dp as int);
            crate::buf::lemma_typed_array_kept(*heap, h2, ep as int);
            if h0.is_block(a@ as int) {
                h0.lemma_block_below_top(a@ as int);
            }
        }
        Some(a)
    }
}

} // verus!
