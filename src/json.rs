//! JSON values as the host hands them over: trees of tagged records.

use crate::boxed::AscRef;
use crate::heap::Heap;
use crate::sequence::{units_at, words_at};
use crate::string::decode_utf16_lossy;
use crate::value::{
    array_items, json_value_of_words, ref_ptrs_of, AscArray, AscJsonValue, AscJsonValueData,
    AscMapEntry, AscResult, JsonValueRecord, result_consistent,
};
use vstd::prelude::*;

verus! {

broadcast use vstd::std_specs::vec::group_vec_axioms;

/// An arbitrary-precision JSON number, kept as its decimal text.
#[derive(Clone, Debug, PartialEq, Eq)]
pub struct Number(pub String);

/// A JSON value; an object keeps its fields in their order.
#[derive(Debug, PartialEq, Eq)]
pub enum Value {
    Null,
    Bool(bool),
    Number(Number),
    String(String),
    Array(Vec<Value>),
    Object(Vec<(String, Value)>),
}

/// A JSON parse error.
#[derive(Clone, Copy, Debug, PartialEq, Eq, Structural)]
pub struct ParseError;

/// The mathematical content of a JSON value.
pub enum JsonModel {
    Null,
    Bool(bool),
    Number(Seq<char>),
    String(Seq<char>),
    Array(Seq<JsonModel>),
    Object(Seq<(Seq<char>, JsonModel)>),
}

pub open spec fn json_models_of(items: Seq<Value>) -> Seq<JsonModel>
    decreases items,
{
    Seq::new(
        items.len(),
        |i: int|
            if 0 <= i < items.len() {
                json_model_of(items[i])
            } else {
                JsonModel::Null
            },
    )
}

pub open spec fn json_fields_of(fields: Seq<(String, Value)>) -> Seq<(Seq<char>, JsonModel)>
    decreases fields,
{
    Seq::new(
        fields.len(),
        |i: int|
            if 0 <= i < fields.len() {
                (fields[i].0@, json_model_of(fields[i].1))
            } else {
                (Seq::empty(), JsonModel::Null)
            },
    )
}

/// The content of a JSON value.
pub open spec fn json_model_of(v: Value) -> JsonModel
    decreases v,
{
    match v {
        Value::Null => JsonModel::Null,
        Value::Bool(b) => JsonModel::Bool(b),
        Value::Number(n) => JsonModel::Number(n.0@),
        Value::String(s) => JsonModel::String(s@),
        Value::Array(items) => JsonModel::Array(json_models_of(items@)),
        Value::Object(fields) => JsonModel::Object(json_fields_of(fields@)),
    }
}

/// The trees at `items` decoded in order, when each lies below `q`.
pub open spec fn decode_json_list(heap: Heap, items: Seq<u32>, q: int) -> Option<Seq<JsonModel>>
    decreases q, items.len(),
{
    if items.len() == 0 {
        Some(Seq::empty())
    } else if 0 <= items.last() < q {
        match (
            decode_json_list(heap, items.drop_last(), q),
            decode_json(heap, items.last() as int),
        ) {
            (Some(s), Some(m)) => Some(s.push(m)),
            _ => None,
        }
    } else {
        None
    }
}

/// The entry records at `items` decoded in order, when each lies below `q`
/// and holds a key string and a value tree below itself.
pub open spec fn decode_json_fields(heap: Heap, items: Seq<u32>, q: int) -> Option<
    Seq<(Seq<char>, JsonModel)>,
>
    decreases q, items.len(),
{
    if items.len() == 0 {
        Some(Seq::empty())
    } else {
        let e = items.last() as int;
        let w = words_at(heap.mem(), e);
        if 0 <= e < q && heap.is_block(e) && w.len() >= 2 && heap.is_block(w[0] as int) && w[1] < e {
            match (
                decode_json_fields(heap, items.drop_last(), q),
                decode_json(heap, w[1] as int),
            ) {
                (Some(s), Some(m)) => Some(
                    s.push((decode_utf16_lossy(units_at(heap.mem(), w[0] as int)), m)),
                ),
                _ => None,
            }
        } else {
            None
        }
    }
}

/// The JSON value whose tree of records starts at `p`: every child lies
/// below its parent, strings decode with `U+FFFD` for unpaired surrogates.
pub open spec fn decode_json(heap: Heap, p: int) -> Option<JsonModel>
    decreases p, 0int,
{
    if !heap.is_block(p) {
        None
    } else {
        match json_value_of_words(words_at(heap.mem(), p)) {
            Some(JsonValueRecord::Null) => Some(JsonModel::Null),
            Some(JsonValueRecord::Bool(b)) => Some(JsonModel::Bool(b)),
            Some(JsonValueRecord::Number(q)) => {
                if q < p && heap.is_block(q as int) {
                    Some(JsonModel::Number(decode_utf16_lossy(units_at(heap.mem(), q as int))))
                } else {
                    None
                }
            },
            Some(JsonValueRecord::String(q)) => {
                if q < p && heap.is_block(q as int) {
                    Some(JsonModel::String(decode_utf16_lossy(units_at(heap.mem(), q as int))))
                } else {
                    None
                }
            },
            Some(JsonValueRecord::Array(q)) => {
                if q < p {
                    match (match array_items(heap, q as int) {
                        Some(items) => decode_json_list(heap, items, q as int),
                        None => None,
                    }) {
                        Some(s) => Some(JsonModel::Array(s)),
                        None => None,
                    }
                } else {
                    None
                }
            },
            Some(JsonValueRecord::Object(q)) => {
                let w = words_at(heap.mem(), q as int);
                if q < p && heap.is_block(q as int) && w.len() >= 1 && w[0] < q {
                    match (match array_items(heap, w[0] as int) {
                        Some(items) => decode_json_fields(heap, items, w[0] as int),
                        None => None,
                    }) {
                        Some(s) => Some(JsonModel::Object(s)),
                        None => None,
                    }
                } else {
                    None
                }
            },
            None => None,
        }
    }
}

proof fn lemma_json_list_prefix(heap: Heap, items: Seq<u32>, q: int, k: int)
    requires
        0 <= k <= items.len(),
    ensures
        decode_json_list(heap, items, q) is Some ==> decode_json_list(
            heap,
            items.subrange(0, k),
            q,
        ) is Some,
    decreases items.len(),
{
    if k == items.len() {
        assert(items.subrange(0, k) =~= items);
    } else {
        lemma_json_list_prefix(heap, items.drop_last(), q, k);
        assert(items.drop_last().subrange(0, k) =~= items.subrange(0, k));
    }
}

proof fn lemma_json_fields_prefix(heap: Heap, items: Seq<u32>, q: int, k: int)
    requires
        0 <= k <= items.len(),
    ensures
        decode_json_fields(heap, items, q) is Some ==> decode_json_fields(
            heap,
            items.subrange(0, k),
            q,
        ) is Some,
    decreases items.len(),
{
    if k == items.len() {
        assert(items.subrange(0, k) =~= items);
    } else {
        lemma_json_fields_prefix(heap, items.drop_last(), q, k);
        assert(items.drop_last().subrange(0, k) =~= items.subrange(0, k));
    }
}

/// The outcome of a host parse: the value tree when the result record holds
/// one, `ParseError` when it holds an error; `None` when the tree is
/// malformed. A record with both arms set, or neither, is no outcome.
pub fn parse_result(heap: &Heap, raw: AscRef<AscResult<AscJsonValue, bool>>) -> (r: Option<
    Result<Value, ParseError>,
>)
    requires
        heap.wf(),
        heap.is_block(raw@ as int),
        result_consistent(words_at(heap.mem(), raw@ as int)),
    ensures
        ({
            let w = words_at(heap.mem(), raw@ as int);
            &&& w[0] != 0 ==> match decode_json(*heap, w[0] as int) {
                Some(m) => (r matches Some(Ok(v)) && json_model_of(v) == m),
                None => r is None,
            }
            &&& w[0] == 0 ==> r == Some(Err::<Value, ParseError>(ParseError))
        }),
{
    match raw.as_std_result(heap) {
        Ok(v) => match Value::from_raw(heap, v) {
            Some(v) => Some(Ok(v)),
            None => None,
        },
        Err(_) => Some(Err(ParseError)),
    }
}

impl Value {
    fn items_from_raw(heap: &Heap, q: u32) -> (r: Option<Vec<Value>>)
        requires
            heap.wf(),
        ensures
            match (match array_items(*heap, q as int) {
                Some(items) => decode_json_list(*heap, items, q as int),
                None => None,
            }) {
                Some(s) => (r matches Some(v) && json_models_of(v@) == s),
                None => r is None,
            },
        decreases q, 1int,
    {
        if !heap.has_block(q) {
            return None;
        }
        let arr: AscRef<AscArray<AscJsonValue>> = AscRef::at(q);
        let refs = match arr.as_slice(heap) {
            Some(v) => v,
            None => return None,
        };
        let ghost items = ref_ptrs_of(refs@);
        let mut out: Vec<Value> = Vec::new();
        let mut i: usize = 0;
        assert(items.subrange(0, 0) =~= Seq::<u32>::empty());
        assert(json_models_of(out@) =~= Seq::<JsonModel>::empty());
        while i < refs.len()
            invariant
                heap.wf(),
                array_items(*heap, q as int) == Some(items),
                items == ref_ptrs_of(refs@),
                i <= refs@.len(),
                decode_json_list(*heap, items.subrange(0, i as int), q as int) == Some(
                    json_models_of(out@),
                ),
            decreases refs@.len() - i,
        {
            let item: AscRef<AscJsonValue> = AscRef::at(refs[i].as_ptr());
            let ghost next = items.subrange(0, i + 1);
            proof {
                assert(next.drop_last() =~= items.subrange(0, i as int));
                assert(next.last() == item@);
            }
            if item.as_ptr() >= q {
                proof {
                    lemma_json_list_prefix(*heap, items, q as int, i + 1);
                }
                return None;
            }
            match Self::from_raw(heap, item) {
                Some(v) => {
                    let ghost before = out@;
                    out.push(v);
                    proof {
                        assert(json_models_of(out@) =~= json_models_of(before).push(
                            json_model_of(v),
                        ));
                    }
                },
                None => {
                    proof {
                        lemma_json_list_prefix(*heap, items, q as int, i + 1);
                    }
                    return None;
                },
            }
            i += 1;
        }
        proof {
            assert(items.subrange(0, i as int) =~= items);
        }
        Some(out)
    }

    fn fields_from_raw(heap: &Heap, a: u32) -> (r: Option<Vec<(String, Value)>>)
        requires
            heap.wf(),
        ensures
            match (match array_items(*heap, a as int) {
                Some(items) => decode_json_fields(*heap, items, a as int),
                None => None,
            }) {
                Some(s) => (r matches Some(v) && json_fields_of(v@) == s),
                None => r is None,
            },
        decreases a, 1int,
    {
        if !heap.has_block(a) {
            return None;
        }
        let arr: AscRef<AscArray<AscMapEntry<AscJsonValue>>> = AscRef::at(a);
        let refs = match arr.as_slice(heap) {
            Some(v) => v,
            None => return None,
        };
        let ghost items = ref_ptrs_of(refs@);
        let mut out: Vec<(String, Value)> = Vec::new();
        let mut i: usize = 0;
        assert(items.subrange(0, 0) =~= Seq::<u32>::empty());
        assert(json_fields_of(out@) =~= Seq::<(Seq<char>, JsonModel)>::empty());
        while i < refs.len()
            invariant
                heap.wf(),
                array_items(*heap, a as int) == Some(items),
                items == ref_ptrs_of(refs@),
                i <= refs@.len(),
                decode_json_fields(*heap, items.subrange(0, i as int), a as int) == Some(
                    json_fields_of(out@),
                ),
            decreases refs@.len() - i,
        {
            let e = refs[i].as_ptr();
            let ghost next = items.subrange(0, i + 1);
            proof {
                assert(next.drop_last() =~= items.subrange(0, i as int));
                assert(next.last() == e);
            }
            if !(e < a && heap.has_block(e)) {
                proof {
                    lemma_json_fields_prefix(*heap, items, a as int, i + 1);
                }
                return None;
            }
            let w = heap.words_of(e);
            if !(w.len() >= 2 && heap.has_block(w[0]) && w[1] < e) {
                proof {
                    lemma_json_fields_prefix(*heap, items, a as int, i + 1);
                }
                return None;
            }
            let key = crate::string::AscStr::at(w[0]).to_string_lossy(heap);
            match Self::from_raw(heap, AscRef::at(w[1])) {
                Some(v) => {
                    let ghost before = out@;
                    out.push((key, v));
                    proof {
                        assert(json_fields_of(out@) =~= json_fields_of(before).push(
                            (key@, json_model_of(v)),
                        ));
                    }
                },
                None => {
                    proof {
                        lemma_json_fields_prefix(*heap, items, a as int, i + 1);
                    }
                    return None;
                },
            }
            i += 1;
        }
        proof {
            assert(items.subrange(0, i as int) =~= items);
        }
        Some(out)
    }

    /// Reads the JSON value whose tree of records starts at `raw`; `None`
    /// when the tree is malformed.
    pub fn from_raw(heap: &Heap, raw: AscRef<AscJsonValue>) -> (r: Option<Value>)
        requires
            heap.wf(),
        ensures
            match decode_json(*heap, raw@ as int) {
                Some(m) => (r matches Some(v) && json_model_of(v) == m),
                None => r is None,
            },
        decreases raw@, 0int,
    {
        let p = raw.as_ptr();
        if !heap.has_block(p) {
            return None;
        }
        if !raw.has_known_tag(heap) {
            return None;
        }
        let d = raw.data(heap);
        match d {
            AscJsonValueData::Null => Some(Value::Null),
            AscJsonValueData::Bool(b) => Some(Value::Bool(b)),
            AscJsonValueData::Number(s) => {
                if !(s.as_ptr() < p && heap.has_block(s.as_ptr())) {
                    return None;
                }
                Some(Value::Number(Number(s.to_string_lossy(heap))))
            },
            AscJsonValueData::String(s) => {
                if !(s.as_ptr() < p && heap.has_block(s.as_ptr())) {
                    return None;
                }
                Some(Value::String(s.to_string_lossy(heap)))
            },
            AscJsonValueData::Array(q) => {
                if q.as_ptr() >= p {
                    return None;
                }
                match Self::items_from_raw(heap, q.as_ptr()) {
                    Some(v) => Some(Value::Array(v)),
                    None => None,
                }
            },
            AscJsonValueData::Object(q) => {
                let q = q.as_ptr();
                if !(q < p && heap.has_block(q)) {
                    return None;
                }
                let a = match heap.word_of(q, 0) {
                    Some(a) => a,
                    None => return None,
                };
                if a >= q {
                    return None;
                }
                match Self::fields_from_raw(heap, a) {
                    Some(v) => Some(Value::Object(v)),
                    None => None,
                }
            },
        }
    }

    /// `Some(())` for null, `None` for another variant.
    pub fn as_null(&self) -> (r: Option<()>)
        ensures
            r is Some <==> self is Null,
    {
        match self {
            Value::Null => Some(()),
            _ => None,
        }
    }

    /// The boolean, or `None` for another variant.
    pub fn as_bool(&self) -> (r: Option<bool>)
        ensures
            r == (match self {
                Value::Bool(b) => Some(*b),
                _ => None,
            }),
    {
        match self {
            Value::Bool(b) => Some(*b),
            _ => None,
        }
    }

    /// The number, or `None` for another variant.
    pub fn as_number(&self) -> (r: Option<&Number>)
        ensures
            r == (match self {
                Value::Number(n) => Some(n),
                _ => None,
            }),
    {
        match self {
            Value::Number(n) => Some(n),
            _ => None,
        }
    }

    /// The string, or `None` for another variant.
    pub fn as_string(&self) -> (r: Option<&String>)
        ensures
            r == (match self {
                Value::String(s) => Some(s),
                _ => None,
            }),
    {
        match self {
            Value::String(s) => Some(s),
            _ => None,
        }
    }

    /// The items, or `None` for another variant.
    pub fn as_array(&self) -> (r: Option<&Vec<Value>>)
        ensures
            r == (match self {
                Value::Array(v) => Some(v),
                _ => None,
            }),
    {
        match self {
            Value::Array(v) => Some(v),
            _ => None,
        }
    }

    /// The fields in their order, or `None` for another variant.
    pub fn as_object(&self) -> (r: Option<&Vec<(String, Value)>>)
        ensures
            r == (match self {
                Value::Object(v) => Some(v),
                _ => None,
            }),
    {
        match self {
            Value::Object(v) => Some(v),
            _ => None,
        }
    }
}

/// The quoted and escaped text that Rust's `Debug` gives a string.
pub uninterp spec fn debug_text_of(s: Seq<char>) -> Seq<char>;

/// Relies on `<str as Debug>::fmt`: the quoted, escaped text of `s`, which
/// depends on the characters of `s` alone.
#[verifier::external_body]
fn debug_text(s: &str) -> (r: String)
    ensures
        r@ == debug_text_of(s@),
{
    format!("{:?}", s)
}

/// Compact JSON text of a value. Strings are quoted and escaped as Rust's
/// `Debug` does; object keys are written between quotes as they are.
pub open spec fn json_text(m: JsonModel) -> Seq<char>
    decreases m,
{
    match m {
        JsonModel::Null => seq!['n', 'u', 'l', 'l'],
        JsonModel::Bool(b) => if b {
            seq!['t', 'r', 'u', 'e']
        } else {
            seq!['f', 'a', 'l', 's', 'e']
        },
        JsonModel::Number(n) => n,
        JsonModel::String(s) => debug_text_of(s),
        JsonModel::Array(items) => seq!['['] + json_list_text(items) + seq![']'],
        JsonModel::Object(fields) => seq!['{'] + json_fields_text(fields) + seq!['}'],
    }
}

/// The texts of `items`, separated by commas.
pub open spec fn json_list_text(items: Seq<JsonModel>) -> Seq<char>
    decreases items,
{
    if items.len() == 0 {
        Seq::empty()
    } else if items.len() == 1 {
        json_text(items[0])
    } else {
        json_list_text(items.drop_last()) + seq![','] + json_text(items.last())
    }
}

/// The texts of `fields`, separated by commas.
pub open spec fn json_fields_text(fields: Seq<(Seq<char>, JsonModel)>) -> Seq<char>
    decreases fields,
{
    if fields.len() == 0 {
        Seq::empty()
    } else if fields.len() == 1 {
        seq!['"'] + fields[0].0 + seq!['"', ':'] + json_text(fields[0].1)
    } else {
        json_fields_text(fields.drop_last()) + seq![','] + seq!['"'] + fields.last().0 + seq![
            '"',
            ':',
        ] + json_text(fields.last().1)
    }
}

fn push_str(out: &mut String, s: &str)
    ensures
        final(out)@ == old(out)@ + s@,
{
    out.append(s);
}

impl Value {
    /// Appends the compact JSON text of this value to `out`.
    pub fn write_json(&self, out: &mut String)
        ensures
            final(out)@ == old(out)@ + json_text(json_model_of(*self)),
        decreases self,
    {
        match self {
            Value::Null => {
                crate::string::push_char(out, 'n');
                crate::string::push_char(out, 'u');
                crate::string::push_char(out, 'l');
                crate::string::push_char(out, 'l');
                assert(out@ =~= old(out)@ + seq!['n', 'u', 'l', 'l']);
            },
            Value::Bool(b) => {
                if *b {
                    crate::string::push_char(out, 't');
                    crate::string::push_char(out, 'r');
                    crate::string::push_char(out, 'u');
                    crate::string::push_char(out, 'e');
                    assert(out@ =~= old(out)@ + seq!['t', 'r', 'u', 'e']);
                } else {
                    crate::string::push_char(out, 'f');
                    crate::string::push_char(out, 'a');
                    crate::string::push_char(out, 'l');
                    crate::string::push_char(out, 's');
                    crate::string::push_char(out, 'e');
                    assert(out@ =~= old(out)@ + seq!['f', 'a', 'l', 's', 'e']);
                }
            },
            Value::Number(n) => {
                push_str(out, n.0.as_str());
            },
            Value::String(s) => {
                let t = debug_text(s.as_str());
                push_str(out, t.as_str());
            },
            Value::Array(items) => {
                Self::write_items(items, out);
            },
            Value::Object(fields) => {
                Self::write_fields(fields, out);
            },
        }
    }

    /// Appends the text of an array of `items`.
    fn write_items(items: &Vec<Value>, out: &mut String)
        ensures
            final(out)@ == old(out)@ + (seq!['['] + json_list_text(json_models_of(items@)) + seq![']']),
        decreases items,
    {
        let ghost start = out@;
        crate::string::push_char(out, '[');
        let mut i: usize = 0;
        assert(json_models_of(items@.subrange(0, 0)) =~= Seq::<JsonModel>::empty());
        while i < items.len()
            invariant
                i <= items@.len(),
                out@ == start + seq!['['] + json_list_text(
                    json_models_of(items@.subrange(0, i as int)),
                ),
            decreases items@.len() - i,
        {
            let ghost before = out@;
            let ghost prev = json_models_of(items@.subrange(0, i as int));
            let ghost next = json_models_of(items@.subrange(0, i + 1));
            proof {
                assert(next =~= prev.push(json_model_of(items@[i as int])));
                assert(next.drop_last() =~= prev);
            }
            if i > 0 {
                crate::string::push_char(out, ',');
            }
            items[i].write_json(out);
            proof {
                if i == 0 {
                    assert(prev =~= Seq::<JsonModel>::empty());
                }
                assert(out@ =~= start + seq!['['] + json_list_text(next));
            }
            i += 1;
        }
        assert(items@.subrange(0, i as int) =~= items@);
        crate::string::push_char(out, ']');
        assert(out@ =~= start + (seq!['['] + json_list_text(json_models_of(items@))
            + seq![']']));
    }

    /// Appends the text of an object of `fields`.
    fn write_fields(fields: &Vec<(String, Value)>, out: &mut String)
        ensures
            final(out)@ == old(out)@ + (seq!['{'] + json_fields_text(json_fields_of(fields@)) + seq!['}']),
        decreases fields,
    {
        let ghost start = out@;
        crate::string::push_char(out, '{');
        let mut i: usize = 0;
        assert(json_fields_of(fields@.subrange(0, 0)) =~= Seq::<(Seq<char>, JsonModel)>::empty());
        while i < fields.len()
            invariant
                i <= fields@.len(),
                out@ == start + seq!['{'] + json_fields_text(
                    json_fields_of(fields@.subrange(0, i as int)),
                ),
            decreases fields@.len() - i,
        {
            let ghost prev = json_fields_of(fields@.subrange(0, i as int));
            let ghost next = json_fields_of(fields@.subrange(0, i + 1));
            proof {
                assert(next =~= prev.push((fields@[i as int].0@, json_model_of(fields@[i as int].1))));
                assert(next.drop_last() =~= prev);
            }
            if i > 0 {
                crate::string::push_char(out, ',');
            }
            crate::string::push_char(out, '"');
            push_str(out, fields[i].0.as_str());
            crate::string::push_char(out, '"');
            crate::string::push_char(out, ':');
            fields[i].1.write_json(out);
            proof {
                if i == 0 {
                    assert(prev =~= Seq::<(Seq<char>, JsonModel)>::empty());
                }
                assert(out@ =~= start + seq!['{'] + json_fields_text(next));
            }
            i += 1;
        }
        assert(fields@.subrange(0, i as int) =~= fields@);
        crate::string::push_char(out, '}');
        assert(out@ =~= start + (seq!['{'] + json_fields_text(json_fields_of(fields@))
            + seq!['}']));
    }

    /// The compact JSON text of this value.
    pub fn to_json_string(&self) -> (r: String)
        ensures
            r@ == json_text(json_model_of(*self)),
    {
        let mut out = String::new();
        self.write_json(&mut out);
        assert(out@ =~= json_text(json_model_of(*self)));
        out
    }
}

} // verus!
