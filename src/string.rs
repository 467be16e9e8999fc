//! Host strings: runs of UTF-16 code units, and their conversion to and from
//! the guest's native strings.

use crate::boxed::{AscBox, AscNullableBox, AscRef, AscSlice};
use crate::heap::{block_size, Heap, MEMORY_LIMIT};
use crate::sequence::units_at;
use vstd::prelude::*;
use vstd::string::StrSliceExecFns;

verus! {

pub open spec fn is_high_surrogate(u: u16) -> bool {
    0xD800 <= u <= 0xDBFF
}

pub open spec fn is_low_surrogate(u: u16) -> bool {
    0xDC00 <= u <= 0xDFFF
}

/// Whether `v` is a Unicode scalar value, that is the code of some `char`.
pub open spec fn is_scalar(v: int) -> bool {
    0 <= v <= 0x10FFFF && !(0xD800 <= v <= 0xDFFF)
}

/// The code of `c`.
pub open spec fn code_of(c: char) -> int {
    c as u32 as int
}

/// The `char` whose code is `v`.
pub open spec fn char_of(v: int) -> char {
    choose|c: char| #[trigger] code_of(c) == v
}

/// The character that stands in for an unpaired surrogate.
pub open spec fn replacement_char() -> char {
    '\u{FFFD}'
}

/// UTF-16 code units of one character.
pub open spec fn encode_char(c: char) -> Seq<u16> {
    let v = c as u32;
    if v < 0x10000 {
        seq![v as u16]
    } else {
        seq![(0xD800 + (v - 0x10000) / 0x400) as u16, (0xDC00 + (v - 0x10000) % 0x400) as u16]
    }
}

/// UTF-16 code units of a string.
pub open spec fn encode_utf16(s: Seq<char>) -> Seq<u16>
    decreases s.len(),
{
    if s.len() == 0 {
        Seq::empty()
    } else {
        encode_char(s[0]) + encode_utf16(s.drop_first())
    }
}

/// Code of the character that a surrogate pair stands for.
pub open spec fn pair_value(hi: u16, lo: u16) -> int {
    0x10000 + (hi - 0xD800) * 0x400 + (lo - 0xDC00)
}

/// Whether the units start with a surrogate pair.
pub open spec fn starts_with_pair(u: Seq<u16>) -> bool {
    u.len() >= 2 && is_high_surrogate(u[0]) && is_low_surrogate(u[1])
}

/// Characters of UTF-16 code units, with the replacement character for every
/// unpaired surrogate.
pub open spec fn decode_utf16_lossy(u: Seq<u16>) -> Seq<char>
    decreases u.len(),
{
    if u.len() == 0 {
        Seq::empty()
    } else if starts_with_pair(u) {
        seq![char_of(pair_value(u[0], u[1]))] + decode_utf16_lossy(u.subrange(2, u.len() as int))
    } else if is_high_surrogate(u[0]) || is_low_surrogate(u[0]) {
        seq![replacement_char()] + decode_utf16_lossy(u.drop_first())
    } else {
        seq![char_of(u[0] as int)] + decode_utf16_lossy(u.drop_first())
    }
}

/// Whether the units hold no unpaired surrogate.
pub open spec fn is_valid_utf16(u: Seq<u16>) -> bool
    decreases u.len(),
{
    if u.len() == 0 {
        true
    } else if starts_with_pair(u) {
        is_valid_utf16(u.subrange(2, u.len() as int))
    } else if is_high_surrogate(u[0]) || is_low_surrogate(u[0]) {
        false
    } else {
        is_valid_utf16(u.drop_first())
    }
}

/// Characters of UTF-16 code units, or `None` where a surrogate is unpaired.
pub open spec fn decode_utf16(u: Seq<u16>) -> Option<Seq<char>> {
    if is_valid_utf16(u) {
        Some(decode_utf16_lossy(u))
    } else {
        None
    }
}

/// What every `char` is: a scalar value.
pub proof fn lemma_char_range(c: char)
    ensures
        is_scalar(c as u32 as int),
{
}

pub proof fn lemma_char_of(c: char)
    ensures
        char_of(c as u32 as int) == c,
{
    assert(code_of(c) == c as u32 as int);
    let d = char_of(c as u32 as int);
    assert(code_of(d) == code_of(c));
    assert(d as u32 == c as u32);
}

pub proof fn lemma_encode_append(a: Seq<char>, b: Seq<char>)
    ensures
        encode_utf16(a + b) == encode_utf16(a) + encode_utf16(b),
    decreases a.len(),
{
    if a.len() == 0 {
        assert(a + b =~= b);
        assert(encode_utf16(a) + encode_utf16(b) =~= encode_utf16(b));
    } else {
        assert((a + b).drop_first() =~= a.drop_first() + b);
        lemma_encode_append(a.drop_first(), b);
        assert(encode_utf16(a + b) =~= encode_utf16(a) + encode_utf16(b));
    }
}

/// Encoding a string and decoding its units gives the string back, in the
/// strict decoder and in the lossy one alike.
pub proof fn lemma_utf16_round_trip(s: Seq<char>)
    ensures
        is_valid_utf16(encode_utf16(s)),
        decode_utf16_lossy(encode_utf16(s)) == s,
        decode_utf16(encode_utf16(s)) == Some(s),
    decreases s.len(),
{
    if s.len() > 0 {
        let c = s[0];
        let rest = s.drop_first();
        let u = encode_utf16(s);
        lemma_utf16_round_trip(rest);
        let v = c as u32;
        if v < 0x10000 {
            assert(u.drop_first() =~= encode_utf16(rest));
            lemma_char_of(c);
        } else {
            lemma_char_range(c);
            let w = v - 0x10000;
            let q = w / 0x400;
            let m = w % 0x400;
            assert(w == q * 0x400 + m);
            assert(q <= 0x3FF);
            let hi = (0xD800 + q) as u16;
            let lo = (0xDC00 + m) as u16;
            assert(hi as int == 0xD800 + q);
            assert(lo as int == 0xDC00 + m);
            assert(u[0] == hi && u[1] == lo);
            assert(pair_value(hi, lo) == v);
            assert(u.subrange(2, u.len() as int) =~= encode_utf16(rest));
            lemma_char_of(c);
        }
        assert(decode_utf16_lossy(u) =~= s);
    }
}

/// Relies on `char::from_u32`: the `char` whose code is `v`, or `None` when
/// `v` is a surrogate or beyond `U+10FFFF`.
#[verifier::external_body]
fn char_from_u32(v: u32) -> (r: Option<char>)
    ensures
        r is Some <==> is_scalar(v as int),
        r matches Some(c) ==> c as u32 == v,
{
    char::from_u32(v)
}

/// Relies on `String::push`: appends one character.
#[verifier::external_body]
pub(crate) fn push_char(s: &mut String, c: char)
    ensures
        final(s)@ == old(s)@.push(c),
{
    s.push(c)
}

/// The characters of `s` from position `k` on.
pub fn chars_from(s: &str, k: usize) -> (r: String)
    requires
        k <= s@.len(),
    ensures
        r@ == s@.subrange(k as int, s@.len() as int),
{
    let n = s.unicode_len();
    let mut r = String::new();
    let mut i: usize = k;
    while i < n
        invariant
            n == s@.len(),
            k <= i <= n,
            r@ == s@.subrange(k as int, i as int),
        decreases n - i,
    {
        let c = s.get_char(i);
        push_char(&mut r, c);
        i += 1;
        assert(r@ =~= s@.subrange(k as int, i as int));
    }
    r
}

/// The UTF-16 code units of `s`.
pub fn encode_str(s: &str) -> (r: Vec<u16>)
    ensures
        r@ == encode_utf16(s@),
{
    let n = s.unicode_len();
    let mut r: Vec<u16> = Vec::new();
    let mut i: usize = 0;
    while i < n
        invariant
            n == s@.len(),
            i <= n,
            r@ == encode_utf16(s@.subrange(0, i as int)),
        decreases n - i,
    {
        let c = s.get_char(i);
        let v = c as u32;
        if v < 0x10000 {
            r.push(v as u16);
        } else {
            r.push((0xD800 + (v - 0x10000) / 0x400) as u16);
            r.push((0xDC00 + (v - 0x10000) % 0x400) as u16);
        }
        proof {
            let a = s@.subrange(0, i as int);
            assert(s@.subrange(0, i + 1) =~= a + seq![c]);
            lemma_encode_append(a, seq![c]);
            assert(encode_utf16(seq![c]) =~= encode_char(c)) by {
                assert(seq![c].drop_first() =~= Seq::<char>::empty());
                assert(encode_utf16(Seq::<char>::empty()) == Seq::<u16>::empty());
            }
        }
        i += 1;
        assert(r@ =~= encode_utf16(s@.subrange(0, i as int)));
    }
    assert(s@.subrange(0, n as int) =~= s@);
    r
}

/// Decodes code units, replacing every unpaired surrogate with `U+FFFD`.
/// With `strict`, stops at the first unpaired surrogate and returns `None`.
fn decode_units(u: &Vec<u16>, strict: bool) -> (r: Option<String>)
    ensures
        !strict ==> (r matches Some(t) && t@ == decode_utf16_lossy(u@)),
        strict ==> match decode_utf16(u@) {
            Some(cs) => (r matches Some(t) && t@ == cs),
            None => r is None,
        },
{
    let n = u.len();
    let mut out = String::new();
    let mut i: usize = 0;
    assert(u@.subrange(0, n as int) =~= u@);
    assert(out@ + decode_utf16_lossy(u@) =~= decode_utf16_lossy(u@));
    while i < n
        invariant
            n == u@.len(),
            i <= n,
            out@ + decode_utf16_lossy(u@.subrange(i as int, n as int)) == decode_utf16_lossy(u@),
            strict ==> is_valid_utf16(u@) == is_valid_utf16(u@.subrange(i as int, n as int)),
        decreases n - i,
    {
        let ghost rest = u@.subrange(i as int, n as int);
        let x = u[i];
        if 0xD800 <= x && x <= 0xDBFF && i + 1 < n && 0xDC00 <= u[i + 1] && u[i + 1] <= 0xDFFF {
            let y = u[i + 1];
            let v = 0x10000 + (x as u32 - 0xD800) * 0x400 + (y as u32 - 0xDC00);
            let c = match char_from_u32(v) {
                Some(c) => c,
                None => '\u{FFFD}',
            };
            proof {
                assert(starts_with_pair(rest));
                lemma_char_of(c);
                assert(rest.subrange(2, rest.len() as int) =~= u@.subrange(i + 2, n as int));
            }
            let ghost before = out@;
            push_char(&mut out, c);
            i += 2;
            assert(out@ + decode_utf16_lossy(u@.subrange(i as int, n as int)) =~= before
                + decode_utf16_lossy(rest));
        } else if 0xD800 <= x && x <= 0xDFFF {
            if strict {
                assert(!starts_with_pair(rest));
                assert(!is_valid_utf16(rest));
                return None;
            }
            proof {
                assert(rest.drop_first() =~= u@.subrange(i + 1, n as int));
            }
            let ghost before = out@;
            push_char(&mut out, '\u{FFFD}');
            i += 1;
            assert(out@ + decode_utf16_lossy(u@.subrange(i as int, n as int)) =~= before
                + decode_utf16_lossy(rest));
        } else {
            let c = match char_from_u32(x as u32) {
                Some(c) => c,
                None => '\u{FFFD}',
            };
            proof {
                lemma_char_of(c);
                assert(rest.drop_first() =~= u@.subrange(i + 1, n as int));
            }
            let ghost before = out@;
            push_char(&mut out, c);
            i += 1;
            assert(out@ + decode_utf16_lossy(u@.subrange(i as int, n as int)) =~= before
                + decode_utf16_lossy(rest));
        }
    }
    proof {
        assert(u@.subrange(n as int, n as int) =~= Seq::<u16>::empty());
        assert(out@ =~= decode_utf16_lossy(u@));
    }
    Some(out)
}

/// Decodes code units, with `U+FFFD` for every unpaired surrogate.
pub fn from_utf16_lossy(u: &Vec<u16>) -> (r: String)
    ensures
        r@ == decode_utf16_lossy(u@),
{
    match decode_units(u, false) {
        Some(t) => t,
        None => String::new(),
    }
}

/// Decodes code units; `None` when a surrogate is unpaired.
pub fn from_utf16(u: &Vec<u16>) -> (r: Option<String>)
    ensures
        match decode_utf16(u@) {
            Some(cs) => (r matches Some(t) && t@ == cs),
            None => r is None,
        },
{
    decode_units(u, true)
}

/// A code unit sequence that holds an unpaired surrogate.
#[derive(Clone, Copy, Debug, PartialEq, Eq, Structural)]
pub struct DecodeError;

/// A borrowed host string.
#[derive(Clone, Copy)]
pub struct AscStr {
    inner: AscRef<AscSlice<u16>>,
}

/// An owned host string.
pub struct AscString {
    inner: AscBox<AscSlice<u16>>,
}

/// An owned host string, or the null pointer.
pub struct AscNullableString {
    inner: AscNullableBox<AscSlice<u16>>,
}

impl View for AscStr {
    type V = u32;

    closed spec fn view(&self) -> u32 {
        self.inner@
    }
}

impl View for AscString {
    type V = u32;

    closed spec fn view(&self) -> u32 {
        self.inner@
    }
}

impl View for AscNullableString {
    type V = u32;

    closed spec fn view(&self) -> u32 {
        self.inner@
    }
}

impl AscString {
    /// Allocates the UTF-16 form of `s`; `None` when memory is exhausted.
    pub fn new(heap: &mut Heap, s: &str) -> (r: Option<AscString>)
        requires
            old(heap).wf(),
        ensures
            final(heap).wf(),
            r is Some <==> old(heap).mem().len() + block_size(2 * encode_utf16(s@).len() as int)
                <= MEMORY_LIMIT,
            match r {
                Some(t) => {
                    &&& final(heap).grown_by(*old(heap), t@)
                    &&& units_at(final(heap).mem(), t@ as int) == encode_utf16(s@)
                    &&& final(heap).mem().len() == old(heap).mem().len() + block_size(
                        2 * encode_utf16(s@).len() as int,
                    )
                },
                None => *final(heap) == *old(heap),
            },
    {
        let units = encode_str(s);
        match heap.allocate_units(&units) {
            Some(p) => Some(AscString { inner: AscBox::from_ptr(p) }),
            None => None,
        }
    }

    /// The string as a borrowed view.
    pub fn as_asc_str(&self) -> (r: AscStr)
        ensures
            r@ == self@,
    {
        AscStr { inner: self.inner.as_asc_ref() }
    }

    /// Data pointer of the string, as handed to the host.
    pub fn as_ptr(&self) -> (r: u32)
        ensures
            r == self@,
    {
        self.inner.as_ptr()
    }

    /// The owning handle of the string's block.
    pub fn into_box(self) -> (r: AscBox<AscSlice<u16>>)
        ensures
            r@ == self@,
    {
        self.inner
    }
}

impl AscStr {
    /// A view of the string at `p`, which the caller has read from a record.
    pub(crate) fn at(p: u32) -> (r: AscStr)
        ensures
            r@ == p,
    {
        AscStr { inner: AscRef::at(p) }
    }

    /// A view of the string block at `p`; `None` when no block starts there.
    pub fn from_ptr(heap: &Heap, p: u32) -> (r: Option<AscStr>)
        ensures
            r is Some <==> heap.is_block(p as int),
            r matches Some(t) ==> t@ == p,
    {
        match AscRef::from_ptr(heap, p) {
            Some(inner) => Some(AscStr { inner }),
            None => None,
        }
    }

    /// Data pointer of the string.
    pub fn as_ptr(&self) -> (r: u32)
        ensures
            r == self@,
    {
        self.inner.as_ptr()
    }

    /// The string's UTF-16 code units.
    pub fn as_code_points(&self, heap: &Heap) -> (r: Vec<u16>)
        requires
            heap.wf(),
            heap.is_block(self@ as int),
        ensures
            r@ == units_at(heap.mem(), self@ as int),
    {
        heap.units_of(self.inner.as_ptr())
    }

    /// The string decoded, with `U+FFFD` for every unpaired surrogate.
    pub fn to_string_lossy(&self, heap: &Heap) -> (r: String)
        requires
            heap.wf(),
            heap.is_block(self@ as int),
        ensures
            r@ == decode_utf16_lossy(units_at(heap.mem(), self@ as int)),
    {
        let units = self.as_code_points(heap);
        from_utf16_lossy(&units)
    }

    /// The string decoded; an error when a surrogate is unpaired.
    pub fn to_string(&self, heap: &Heap) -> (r: Result<String, DecodeError>)
        requires
            heap.wf(),
            heap.is_block(self@ as int),
        ensures
            match decode_utf16(units_at(heap.mem(), self@ as int)) {
                Some(cs) => (r matches Ok(t) && t@ == cs),
                None => r == Err::<String, DecodeError>(DecodeError),
            },
    {
        let units = self.as_code_points(heap);
        match from_utf16(&units) {
            Some(t) => Ok(t),
            None => Err(DecodeError),
        }
    }

    /// A fresh, owned copy of the string.
    pub fn to_owned(&self, heap: &mut Heap) -> (r: Option<AscString>)
        requires
            old(heap).wf(),
            old(heap).is_block(self@ as int),
        ensures
            final(heap).wf(),
            r is Some <==> old(heap).mem().len() + block_size(
                2 * units_at(old(heap).mem(), self@ as int).len() as int,
            ) <= MEMORY_LIMIT,
            match r {
                Some(t) => {
                    &&& final(heap).grown_by(*old(heap), t@)
                    &&& units_at(final(heap).mem(), t@ as int) == units_at(
                        old(heap).mem(),
                        self@ as int,
                    )
                },
                None => *final(heap) == *old(heap),
            },
    {
        let units = self.as_code_points(heap);
        match heap.allocate_units(&units) {
            Some(p) => Some(AscString { inner: AscBox::from_ptr(p) }),
            None => None,
        }
    }

    /// Whether two strings hold the same code units.
    pub fn eq_units(&self, heap: &Heap, other: &AscStr) -> (r: bool)
        requires
            heap.wf(),
            heap.is_block(self@ as int),
            heap.is_block(other@ as int),
        ensures
            r == (units_at(heap.mem(), self@ as int) == units_at(heap.mem(), other@ as int)),
    {
        let a = self.as_code_points(heap);
        let b = other.as_code_points(heap);
        if a.len() != b.len() {
            assert(a@.len() != b@.len());
            return false;
        }
        let mut i: usize = 0;
        while i < a.len()
            invariant
                a@ == units_at(heap.mem(), self@ as int),
                b@ == units_at(heap.mem(), other@ as int),
                a@.len() == b@.len(),
                i <= a@.len(),
                forall|j: int| 0 <= j < i ==> a@[j] == b@[j],
            decreases a@.len() - i,
        {
            if a[i] != b[i] {
                assert(a@[i as int] != b@[i as int]);
                return false;
            }
            i += 1;
        }
        assert(a@ =~= b@);
        true
    }
}

impl AscNullableString {
    /// The null pointer: no string.
    pub fn null() -> (r: AscNullableString)
        ensures
            r@ == 0,
    {
        AscNullableString { inner: AscNullableBox::null() }
    }

    /// Takes over an owned string.
    pub fn new(s: AscString) -> (r: AscNullableString)
        ensures
            r@ == s@,
    {
        AscNullableString { inner: AscNullableBox::new(s.inner) }
    }

    /// A view of the string, or `None` for the null pointer.
    pub fn as_asc_str(&self) -> (r: Option<AscStr>)
        ensures
            r is None <==> self@ == 0,
            r matches Some(t) ==> t@ == self@,
    {
        match self.inner.as_asc_ref() {
            Some(inner) => Some(AscStr { inner }),
            None => None,
        }
    }
}

} // verus!
