use subgraph::boxed::{AscBox, AscRef, AscSlice};
use subgraph::buf::AscTypedArray;
use subgraph::deploy::{cargo_build_args, param_validation, ConfigError, Params};
use subgraph::entity::{entity_from_raw, entity_to_raw, Value as StoreValue};
use subgraph::eth::{call_result, Address, Block, Contract, Function, SmartContractCall, Value};
use subgraph::records::AscBlock;
use subgraph::heap::Heap;
use subgraph::json::{parse_result, Number, ParseError, Value as JsonValue};
use subgraph::log::Level;
use subgraph::num::{decimal_text_parts, hex_text_parts, signum_le, AscBigDecimal, BigDecimal, BigInt};
use subgraph::string::{encode_str, from_utf16, from_utf16_lossy, AscStr, AscString};
use subgraph::value::{
    AscArray, AscEthereumValue, AscEthereumValueData, AscJsonValue, AscJsonValueData, AscMap,
    AscMapEntry, AscResult, AscValue, AscValueData,
};
use std::cmp::Ordering;

#[test]
fn string_round_trip_strict_and_lossy() {
    let mut heap = Heap::new();
    for s in ["", "hello", "héllo wörld", "日本語", "a😀b", "\u{10FFFF}"] {
        let a = AscString::new(&mut heap, s).unwrap();
        let r = a.as_asc_str();
        assert_eq!(r.to_string(&heap), Ok(s.to_string()));
        assert_eq!(r.to_string_lossy(&heap), s);
        let expected: Vec<u16> = s.encode_utf16().collect();
        assert_eq!(r.as_code_points(&heap), expected);
    }
}

#[test]
fn supplementary_character_takes_a_surrogate_pair() {
    assert_eq!(encode_str("😀"), vec![0xD83D, 0xDE00]);
    assert_eq!(from_utf16_lossy(&vec![0xD83D, 0xDE00]), "😀");
    assert_eq!(from_utf16(&vec![0x48, 0x69]), Some("Hi".to_string()));
}

#[test]
fn lone_surrogates_become_replacement_characters() {
    assert_eq!(from_utf16_lossy(&vec![0x61, 0xD800, 0x62]), "a\u{FFFD}b");
    assert_eq!(from_utf16_lossy(&vec![0xDC00]), "\u{FFFD}");
    assert_eq!(from_utf16_lossy(&vec![0xD83D]), "\u{FFFD}");
    assert_eq!(from_utf16(&vec![0x61, 0xD800, 0x62]), None);
    let mut heap = Heap::new();
    let b = AscBox::<AscSlice<u16>>::with_len(&mut heap, 2, vec![0xDE00, 0x41]).unwrap();
    let s = AscStr::from_ptr(&heap, b.as_ptr()).unwrap();
    assert_eq!(s.to_string_lossy(&heap), "\u{FFFD}A");
    assert!(s.to_string(&heap).is_err());
}

#[test]
fn strings_compare_by_code_units() {
    let mut heap = Heap::new();
    let a = AscString::new(&mut heap, "same").unwrap();
    let b = AscString::new(&mut heap, "same").unwrap();
    let c = AscString::new(&mut heap, "sama").unwrap();
    assert!(a.as_asc_str().eq_units(&heap, &b.as_asc_str()));
    assert!(!a.as_asc_str().eq_units(&heap, &c.as_asc_str()));
}

#[test]
fn signum_of_little_endian_bytes() {
    assert_eq!(BigInt::from_signed_bytes_le(&[42]).signum(), 1);
    assert_eq!(BigInt::from_signed_bytes_le(&[0xD6]).signum(), -1);
    assert_eq!(BigInt::from_signed_bytes_le(&[0]).signum(), 0);
    assert_eq!(signum_le(&[]), 0);
    assert_eq!(signum_le(&[0, 0, 0]), 0);
    assert_eq!(signum_le(&[0, 1, 0]), 1);
    assert_eq!(signum_le(&[0, 0, 0x80]), -1);
}

#[test]
fn new_big_int_has_sixteen_bytes() {
    assert_eq!(BigInt::new(-42).to_signed_bytes_le(), (-42i128).to_le_bytes().to_vec());
    assert_eq!(BigInt::new(258).to_signed_bytes_le(), 258i128.to_le_bytes().to_vec());
    assert_eq!(BigInt::new(-42).signum(), -1);
    assert_eq!(BigInt::new(0).signum(), 0);
    assert_eq!(BigInt::new(7).signum(), 1);
}

#[test]
fn ordering_from_the_sign_of_a_difference() {
    assert_eq!(BigInt::cmp_by_difference(&BigInt::new(1 - 100)), Ordering::Less);
    assert_eq!(BigInt::cmp_by_difference(&BigInt::new(124 - 1 - 100)), Ordering::Greater);
    assert_eq!(BigInt::cmp_by_difference(&BigInt::new(0)), Ordering::Equal);
    let d = BigDecimal::new(-5);
    assert_eq!(BigDecimal::cmp_by_difference(&d), Ordering::Less);
}

#[test]
fn big_decimal_from_integer_has_zero_exponent() {
    let d = BigDecimal::new(12);
    assert_eq!(d.digits().to_signed_bytes_le(), 12i128.to_le_bytes().to_vec());
    assert_eq!(d.exp().to_signed_bytes_le(), vec![0]);
    let mut heap = Heap::new();
    let raw = d.to_raw(&mut heap).unwrap();
    let back = BigDecimal::from_raw(&heap, raw.as_asc_ref()).unwrap();
    assert_eq!(back, d);
    let digits = raw.as_asc_ref().digits(&heap).unwrap();
    assert_eq!(BigInt::from_raw(&heap, digits).unwrap(), BigInt::new(12));
}

#[test]
fn big_int_crosses_the_heap() {
    let mut heap = Heap::new();
    let x = BigInt::from_signed_bytes_le(&[1, 2, 0xff]);
    let raw = x.to_raw(&mut heap).unwrap();
    assert_eq!(BigInt::from_raw(&heap, raw.as_asc_ref()).unwrap(), x);
}

#[test]
fn storage_value_variants_read_back() {
    let mut heap = Heap::new();
    let s = AscString::new(&mut heap, "name").unwrap();
    let sp = s.as_ptr();
    let v = AscValue::string(&mut heap, s).unwrap();
    match v.as_asc_ref().data(&heap) {
        AscValueData::String(t) => assert_eq!(t.to_string_lossy(&heap), "name"),
        _ => panic!("expected a string"),
    }
    assert_eq!(heap.word_of(v.as_ptr(), 2), Some(sp));
    let v = AscValue::integer(&mut heap, -7).unwrap();
    assert!(matches!(v.as_asc_ref().data(&heap), AscValueData::Int(-7)));
    let v = AscValue::bool(&mut heap, true).unwrap();
    assert!(matches!(v.as_asc_ref().data(&heap), AscValueData::Bool(true)));
    let v = AscValue::null(&mut heap).unwrap();
    assert!(matches!(v.as_asc_ref().data(&heap), AscValueData::Null));
    assert_eq!(heap.word_of(v.as_ptr(), 0), Some(5));
    let b = AscTypedArray::from_bytes(&mut heap, &[1]).unwrap();
    let bp = b.as_ptr();
    let v = AscValue::bytes(&mut heap, b).unwrap();
    match v.as_asc_ref().data(&heap) {
        AscValueData::Bytes(r) => assert_eq!(r.as_ptr(), bp),
        _ => panic!("expected bytes"),
    }
    let b = BigInt::new(3).to_raw(&mut heap).unwrap();
    let v = AscValue::bigint(&mut heap, b).unwrap();
    assert!(matches!(v.as_asc_ref().data(&heap), AscValueData::BigInt(_)));
    let d = BigDecimal::new(3).to_raw(&mut heap).unwrap();
    let v = AscValue::bigdecimal(&mut heap, d).unwrap();
    assert!(matches!(v.as_asc_ref().data(&heap), AscValueData::BigDecimal(_)));
    let a = AscArray::new(&mut heap, vec![]).unwrap();
    let v = AscValue::array(&mut heap, a).unwrap();
    assert!(matches!(v.as_asc_ref().data(&heap), AscValueData::Array(_)));
}

#[test]
fn unknown_tag_has_no_data() {
    let mut heap = Heap::new();
    let p = heap.allocate_words(&vec![99, 0, 0, 0]).unwrap();
    let r = AscRef::<AscValue>::from_ptr(&heap, p).unwrap();
    assert!(!r.has_known_tag(&heap));
    let short = heap.allocate_words(&vec![1, 0]).unwrap();
    let r = AscRef::<AscValue>::from_ptr(&heap, short).unwrap();
    assert!(!r.has_known_tag(&heap));
    let ok = heap.allocate_words(&vec![1, 0, 5, 0]).unwrap();
    let r = AscRef::<AscValue>::from_ptr(&heap, ok).unwrap();
    assert!(r.has_known_tag(&heap));
    assert!(matches!(r.data(&heap), AscValueData::Int(5)));
    let json = heap.allocate_words(&vec![6, 0, 0, 0]).unwrap();
    assert!(!AscRef::<AscJsonValue>::from_ptr(&heap, json).unwrap().has_known_tag(&heap));
    let eth = heap.allocate_words(&vec![10, 0, 0, 0]).unwrap();
    assert!(!AscRef::<AscEthereumValue>::from_ptr(&heap, eth).unwrap().has_known_tag(&heap));
}

#[test]
fn json_and_ethereum_variants_read_back() {
    let mut heap = Heap::new();
    let v = AscJsonValue::bool(&mut heap, false).unwrap();
    assert!(matches!(v.as_asc_ref().data(&heap), AscJsonValueData::Bool(false)));
    assert_eq!(heap.word_of(v.as_ptr(), 0), Some(1));
    let n = AscString::new(&mut heap, "1.5").unwrap();
    let v = AscJsonValue::number(&mut heap, n).unwrap();
    match v.as_asc_ref().data(&heap) {
        AscJsonValueData::Number(s) => assert_eq!(s.to_string_lossy(&heap), "1.5"),
        _ => panic!("expected a number"),
    }
    let v = AscEthereumValue::bool(&mut heap, true).unwrap();
    assert!(matches!(v.as_asc_ref().data(&heap), AscEthereumValueData::Bool(true)));
    assert_eq!(heap.word_of(v.as_ptr(), 0), Some(5));
    let b = BigInt::new(9).to_raw(&mut heap).unwrap();
    let bp = b.as_ptr();
    let v = AscEthereumValue::uint(&mut heap, b).unwrap();
    match v.as_asc_ref().data(&heap) {
        AscEthereumValueData::Uint(r) => assert_eq!(r.as_ptr(), bp),
        _ => panic!("expected a uint"),
    }
}

fn uint(x: i128) -> Value {
    Value::Uint(BigInt::new(x))
}

fn sample_tuple() -> Value {
    Value::Tuple(vec![
        Value::Address(Address([0x11; 20])),
        Value::FixedBytes(vec![0xde, 0xad, 0xbe, 0xef]),
        Value::Bytes(vec![1, 2, 3, 4, 5]),
        Value::Int(BigInt::new(-1234)),
        Value::Uint(BigInt::new(1234)),
        Value::Bool(true),
        Value::String("a string 😀".to_string()),
        Value::FixedArray(vec![uint(1), uint(2), uint(3)]),
        Value::Array(vec![uint(4), uint(5)]),
        Value::Tuple(vec![uint(6), uint(7), uint(8)]),
    ])
}

#[test]
fn abi_tuple_round_trip() {
    let mut heap = Heap::new();
    let raw = sample_tuple().to_raw(&mut heap).unwrap();
    let back = Value::from_raw(&heap, raw.as_asc_ref()).unwrap();
    assert_eq!(back, sample_tuple());
}

#[test]
fn call_record_and_result() {
    let mut heap = Heap::new();
    let call = SmartContractCall {
        contract: Contract { name: "Token".to_string(), address: Address([2; 20]) },
        function: Function { name: "balanceOf".to_string(), signature: "balanceOf(address):(uint256)".to_string() },
        params: vec![Value::Address(Address([3; 20]))],
    };
    let raw = call.to_raw(&mut heap).unwrap();
    let name = heap.word_of(raw.as_ptr(), 0).unwrap();
    assert_eq!(AscStr::from_ptr(&heap, name).unwrap().to_string_lossy(&heap), "Token");
    let params = heap.word_of(raw.as_ptr(), 4).unwrap();
    assert_eq!(call_result(&heap, params), Some(Some(vec![Value::Address(Address([3; 20]))])));
    assert_eq!(call_result(&heap, 0), Some(None));
}

#[test]
fn storage_values_round_trip() {
    let mut heap = Heap::new();
    let v = StoreValue::Array(vec![
        StoreValue::String("s".to_string()),
        StoreValue::Int(-3),
        StoreValue::BigDecimal(BigDecimal::new(5)),
        StoreValue::Bool(false),
        StoreValue::Null,
        StoreValue::Bytes(vec![9, 8]),
        StoreValue::BigInt(BigInt::new(77)),
        StoreValue::Array(vec![]),
    ]);
    let raw = v.to_raw(&mut heap).unwrap();
    let back = StoreValue::from_raw(&heap, raw.as_asc_ref()).unwrap();
    assert_eq!(back, v);
    assert_eq!(back.as_array().unwrap()[1].as_int(), Some(-3));
    assert_eq!(back.as_array().unwrap()[4].as_null(), Some(()));
    assert_eq!(back.as_int(), None);
}

#[test]
fn entity_keeps_insertion_order() {
    let mut heap = Heap::new();
    let entity = vec![
        ("b".to_string(), StoreValue::Int(1)),
        ("a".to_string(), StoreValue::Int(2)),
        ("c".to_string(), StoreValue::Int(3)),
    ];
    let raw = entity_to_raw(&entity, &mut heap).unwrap();
    let back = entity_from_raw(&heap, raw.as_asc_ref()).unwrap();
    let keys: Vec<&str> = back.iter().map(|(k, _)| k.as_str()).collect();
    assert_eq!(keys, vec!["b", "a", "c"]);
    assert_eq!(back, entity);
}

#[test]
fn entity_with_repeated_keys_keeps_both() {
    let mut heap = Heap::new();
    let entity = vec![
        ("k".to_string(), StoreValue::Int(1)),
        ("k".to_string(), StoreValue::Int(2)),
    ];
    let raw = entity_to_raw(&entity, &mut heap).unwrap();
    assert_eq!(entity_from_raw(&heap, raw.as_asc_ref()).unwrap(), entity);
}

#[test]
fn json_object_reads_in_order() {
    let mut heap = Heap::new();
    let k1 = AscString::new(&mut heap, "z").unwrap();
    let n = AscString::new(&mut heap, "42").unwrap();
    let v1 = AscJsonValue::number(&mut heap, n).unwrap();
    let e1 = AscMapEntry::new(&mut heap, k1, v1).unwrap();
    let k2 = AscString::new(&mut heap, "a").unwrap();
    let t = AscJsonValue::bool(&mut heap, true).unwrap();
    let nul = AscJsonValue::null(&mut heap).unwrap();
    let arr = AscArray::new(&mut heap, vec![t, nul]).unwrap();
    let v2 = AscJsonValue::array(&mut heap, arr).unwrap();
    let e2 = AscMapEntry::new(&mut heap, k2, v2).unwrap();
    let map = AscMap::new(&mut heap, vec![e1, e2]).unwrap();
    let obj = AscJsonValue::object(&mut heap, map).unwrap();
    let back = JsonValue::from_raw(&heap, obj.as_asc_ref()).unwrap();
    let expected = JsonValue::Object(vec![
        ("z".to_string(), JsonValue::Number(Number("42".to_string()))),
        ("a".to_string(), JsonValue::Array(vec![JsonValue::Bool(true), JsonValue::Null])),
    ]);
    assert_eq!(back, expected);
    assert_eq!(back.as_object().unwrap().len(), 2);
    assert!(back.as_string().is_none());
}

#[test]
fn map_entries_are_in_order() {
    let mut heap = Heap::new();
    let mut entries = Vec::new();
    for k in ["b", "a", "c"] {
        let key = AscString::new(&mut heap, k).unwrap();
        let v = AscValue::null(&mut heap).unwrap();
        entries.push(AscMapEntry::new(&mut heap, key, v).unwrap());
    }
    let map = AscMap::new(&mut heap, entries).unwrap();
    let got = map.as_asc_ref().entries(&heap).unwrap();
    let keys: Vec<String> = got
        .iter()
        .map(|e| {
            let k = e.key(&heap).unwrap();
            k.to_string_lossy(&heap)
        })
        .collect();
    assert_eq!(keys, vec!["b", "a", "c"]);
}

#[test]
fn big_decimal_record_points_at_its_parts() {
    let mut heap = Heap::new();
    let d = BigInt::new(10).to_raw(&mut heap).unwrap();
    let e = BigInt::from_signed_bytes_le(&[0]).to_raw(&mut heap).unwrap();
    let (dp, ep) = (d.as_ptr(), e.as_ptr());
    let rec = AscBigDecimal::new(&mut heap, d, e).unwrap();
    assert_eq!(rec.as_asc_ref().digits(&heap).unwrap().as_ptr(), dp);
    assert_eq!(rec.as_asc_ref().exp(&heap).unwrap().as_ptr(), ep);
}

#[test]
fn settings_come_from_flags_then_environment() {
    let params = Params {
        example_name: "graph-token".to_string(),
        graph_slug: Some("flag-slug".to_string()),
        graph_studio_token: None,
        release: false,
    };
    let c = param_validation(&params, Some("env-slug".to_string()), Some("env-token".to_string())).unwrap();
    assert_eq!(c.slug, "flag-slug");
    assert_eq!(c.studio_token, "env-token");
    assert_eq!(param_validation(&params, None, None), Err(ConfigError::MissingStudioToken));
    let bare = Params { graph_slug: None, ..params };
    assert_eq!(param_validation(&bare, None, Some("t".to_string())), Err(ConfigError::MissingSlug));
}

#[test]
fn build_arguments() {
    assert_eq!(
        cargo_build_args("graph-token", true),
        vec!["build", "-p", "graph-token", "--release", "--target", "wasm32-unknown-unknown"]
    );
    assert_eq!(
        cargo_build_args("x", false),
        vec!["build", "-p", "x", "--target", "wasm32-unknown-unknown"]
    );
}

#[test]
fn log_level_codes() {
    assert_eq!(Level::Critical.code(), 0);
    assert_eq!(Level::Error.code(), 1);
    assert_eq!(Level::Warning.code(), 2);
    assert_eq!(Level::Info.code(), 3);
    assert_eq!(Level::Debug.code(), 4);
}

#[test]
fn releasing_a_value_tree_releases_every_owned_block() {
    let mut heap = Heap::new();
    let v = StoreValue::Array(vec![
        StoreValue::String("a".to_string()),
        StoreValue::BigInt(BigInt::new(1)),
        StoreValue::BigDecimal(BigDecimal::new(2)),
        StoreValue::Int(3),
    ]);
    let raw = v.to_raw(&mut heap).unwrap();
    assert!(heap.live_count() > 0);
    let len = heap.len();
    raw.release_tree(&mut heap);
    assert_eq!(heap.live_count(), 0);
    assert_eq!(heap.len(), len);
}

#[test]
fn releasing_a_scalar_value_releases_only_its_record() {
    let mut heap = Heap::new();
    let keep = AscString::new(&mut heap, "kept").unwrap();
    let v = AscValue::integer(&mut heap, 5).unwrap();
    assert_eq!(heap.live_count(), 2);
    v.release_tree(&mut heap);
    assert_eq!(heap.live_count(), 1);
    assert!(heap.is_live(keep.as_ptr()));
}

#[test]
fn releasing_a_json_object_releases_its_entries() {
    let mut heap = Heap::new();
    let k = AscString::new(&mut heap, "k").unwrap();
    let s = AscString::new(&mut heap, "v").unwrap();
    let v = AscJsonValue::string(&mut heap, s).unwrap();
    let e = AscMapEntry::new(&mut heap, k, v).unwrap();
    let map = AscMap::new(&mut heap, vec![e]).unwrap();
    let obj = AscJsonValue::object(&mut heap, map).unwrap();
    obj.release_tree(&mut heap);
    assert_eq!(heap.live_count(), 0);
}

#[test]
fn owned_copy_of_a_tree_is_equal_and_separate() {
    let mut heap = Heap::new();
    let raw = sample_tuple().to_raw(&mut heap).unwrap();
    let copy = raw.as_asc_ref().to_owned(&mut heap).unwrap();
    assert_ne!(copy.as_ptr(), raw.as_ptr());
    assert_eq!(Value::from_raw(&heap, copy.as_asc_ref()).unwrap(), sample_tuple());
    let v = StoreValue::Bytes(vec![1, 2]).to_raw(&mut heap).unwrap();
    let c = v.as_asc_ref().to_owned(&mut heap).unwrap();
    assert_eq!(StoreValue::from_raw(&heap, c.as_asc_ref()).unwrap(), StoreValue::Bytes(vec![1, 2]));
    let s = AscString::new(&mut heap, "copy me").unwrap();
    let t = s.as_asc_str().to_owned(&mut heap).unwrap();
    assert_ne!(t.as_ptr(), s.as_ptr());
    assert_eq!(t.as_asc_str().to_string_lossy(&heap), "copy me");
}

#[test]
fn parse_result_reads_value_or_error() {
    let mut heap = Heap::new();
    let v = AscJsonValue::bool(&mut heap, true).unwrap();
    let ok = heap.allocate_words(&vec![v.as_ptr(), 0]).unwrap();
    let err = heap.allocate_words(&vec![0, v.as_ptr()]).unwrap();
    let at = |p: u32| AscRef::<AscResult<AscJsonValue, bool>>::from_ptr(&heap, p).unwrap();
    assert_eq!(parse_result(&heap, at(ok)), Some(Ok(JsonValue::Bool(true))));
    assert_eq!(parse_result(&heap, at(err)), Some(Err(ParseError)));
}

#[test]
fn json_text_is_compact_and_escapes_strings() {
    let v = JsonValue::Object(vec![
        ("a".to_string(), JsonValue::Array(vec![JsonValue::Null, JsonValue::Bool(true), JsonValue::Bool(false)])),
        ("b".to_string(), JsonValue::Number(Number("1.5e3".to_string()))),
        ("c".to_string(), JsonValue::String("say \"hi\"\n".to_string())),
        ("d".to_string(), JsonValue::Array(vec![])),
        ("e".to_string(), JsonValue::Object(vec![])),
    ]);
    assert_eq!(
        v.to_json_string(),
        "{\"a\":[null,true,false],\"b\":1.5e3,\"c\":\"say \\\"hi\\\"\\n\",\"d\":[],\"e\":{}}"
    );
    assert_eq!(JsonValue::String("x".to_string()).to_json_string(), "\"x\"");
}

#[test]
fn host_number_text_splits_into_sign_and_digits() {

    assert_eq!(decimal_text_parts("-123"), (false, "123".to_string()));
    assert_eq!(decimal_text_parts("45"), (true, "45".to_string()));
    assert_eq!(decimal_text_parts(""), (true, "".to_string()));
    assert_eq!(hex_text_parts("0x2a", 1), (true, "2a".to_string()));
    assert_eq!(hex_text_parts("0x2a", -1), (false, "2a".to_string()));
    assert_eq!(hex_text_parts("0x-2a", -1), (false, "2a".to_string()));
    assert_eq!(hex_text_parts("ff", 0), (true, "ff".to_string()));
}

#[test]
fn accessors_pick_their_variant() {
    let d = StoreValue::BigDecimal(BigDecimal::new(1));
    assert_eq!(d.as_big_decimal(), Some(&BigDecimal::new(1)));
    assert!(d.as_big_int().is_none());
    let i = StoreValue::BigInt(BigInt::new(2));
    assert_eq!(i.as_big_int(), Some(&BigInt::new(2)));
    assert_eq!(StoreValue::Bool(true).as_bool(), Some(true));
    assert_eq!(StoreValue::Bytes(vec![1]).as_bytes(), Some(&vec![1]));
    assert_eq!(StoreValue::String("s".to_string()).as_string(), Some(&"s".to_string()));
    let n = JsonValue::Number(Number("3".to_string()));
    assert_eq!(n.as_number(), Some(&Number("3".to_string())));
    assert_eq!(JsonValue::Null.as_null(), Some(()));
    assert_eq!(JsonValue::Bool(false).as_bool(), Some(false));
    assert!(JsonValue::Array(vec![]).as_array().unwrap().is_empty());
}

fn bytes_ptr(heap: &mut Heap, b: &[u8]) -> u32 {
    AscTypedArray::from_bytes(heap, b).unwrap().as_ptr()
}

#[test]
fn block_record_reads_into_a_block() {
    let mut heap = Heap::new();
    let mut words = Vec::new();
    for k in 0..7u8 {
        let len = if k == 3 { 20 } else { 32 };
        words.push(bytes_ptr(&mut heap, &vec![k; len]));
    }
    for k in 0..6u8 {
        words.push(bytes_ptr(&mut heap, &[k + 1]));
    }
    words.push(0);
    words.push(bytes_ptr(&mut heap, &[9]));
    let p = heap.allocate_words(&words).unwrap();
    let raw = AscRef::<AscBlock>::from_ptr(&heap, p).unwrap();
    let block = Block::from_raw(&heap, raw).unwrap();
    assert_eq!(block.hash, [0; 32]);
    assert_eq!(block.parent_hash, [1; 32]);
    assert_eq!(block.author, Address([3; 20]));
    assert_eq!(block.receipts_root, [6; 32]);
    assert_eq!(block.number, BigInt::from_signed_bytes_le(&[1]));
    assert_eq!(block.total_difficulty, BigInt::from_signed_bytes_le(&[6]));
    assert_eq!(block.size, None);
    assert_eq!(block.base_fee_per_gas, Some(BigInt::from_signed_bytes_le(&[9])));
    let raw = AscRef::<AscBlock>::from_ptr(&heap, p).unwrap();
    assert_eq!(raw.author(&heap).unwrap().as_ptr(), words[3]);
    assert!(raw.size(&heap).unwrap().is_none());
}

#[test]
fn block_record_with_a_short_hash_is_refused() {
    let mut heap = Heap::new();
    let mut words = Vec::new();
    for _ in 0..15 {
        words.push(bytes_ptr(&mut heap, &[1; 20]));
    }
    let p = heap.allocate_words(&words).unwrap();
    let raw = AscRef::<AscBlock>::from_ptr(&heap, p).unwrap();
    assert!(Block::from_raw(&heap, raw).is_none());
}

#[test]
fn big_integers_compare_by_number() {
    assert_eq!(BigInt::from_signed_bytes_le(&[0]), BigInt::from_signed_bytes_le(&[0, 0]));
    assert_eq!(BigInt::from_signed_bytes_le(&[]), BigInt::new(0));
    assert_eq!(BigInt::from_signed_bytes_le(&[0xff]), BigInt::new(-1));
    assert_eq!(BigInt::from_signed_bytes_le(&[0x7f]), BigInt::new(127));
    assert_ne!(BigInt::from_signed_bytes_le(&[0xff]), BigInt::from_signed_bytes_le(&[0xff, 0]));
    assert_ne!(BigInt::new(1), BigInt::new(2));
}

#[test]
fn tree_takes_exactly_its_size() {
    let mut heap = Heap::new();
    let before = heap.len();
    let v = Value::Bool(true);
    let size = v.raw_size();
    let _r = v.to_raw(&mut heap).unwrap();
    assert_eq!(heap.len() as u64, before as u64 + size);
    assert_eq!(size, 48);
    let s = StoreValue::String("ab".to_string());
    let size = s.raw_size();
    let before = heap.len();
    let _r = s.to_raw(&mut heap).unwrap();
    assert_eq!(heap.len() as u64, before as u64 + size);
    assert_eq!(size, 96);
}
