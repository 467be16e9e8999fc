use subgraph::boxed::{AscBox, AscNullableBox, AscRef, AscSlice};
use subgraph::buf::{AscArrayBuffer, AscTypedArray};
use subgraph::heap::{id_of_type, Heap, ALIGN, DATA_OFFSET, TYPE_ID};
use subgraph::string::{AscNullableString, AscStr, AscString};
use subgraph::value::{AscArray, AscResult};

#[test]
fn first_block_starts_after_padded_header() {
    let mut heap = Heap::new();
    let p = heap.allocate_bytes(vec![1, 2, 3]).unwrap();
    assert_eq!(p, DATA_OFFSET);
    assert_eq!(p % ALIGN, 0);
    assert_eq!(heap.rt_size(p), 3);
    let layout = heap.layout_of(p);
    assert_eq!(layout.root, 0);
    assert_eq!(layout.size, 48);
    assert_eq!(layout.align, 16);
    assert_eq!(heap.len(), 48);
}

#[test]
fn header_fields_sit_before_the_data() {
    let mut heap = Heap::new();
    let p = heap.allocate(7, vec![9; 20]).unwrap();
    assert_eq!(heap.read_u32(p - 20), 64);
    assert_eq!(heap.read_u32(p - 16), 16);
    assert_eq!(heap.read_u32(p - 12), 32);
    assert_eq!(heap.read_u32(p - 8), 7);
    assert_eq!(heap.read_u32(p - 4), 20);
    assert_eq!(heap.bytes_of(p), vec![9; 20]);
}

#[test]
fn blocks_follow_each_other_aligned() {
    let mut heap = Heap::new();
    let a = heap.allocate_bytes(vec![0; 17]).unwrap();
    let b = heap.allocate_bytes(vec![]).unwrap();
    assert_eq!(a, 32);
    assert_eq!(b, 32 + 64);
    assert_eq!(b % ALIGN, 0);
    assert_eq!(heap.rt_size(b), 0);
}

#[test]
fn host_allocation_is_zeroed_and_aligned() {
    let mut heap = Heap::new();
    let p = heap.allocate_for_host(10);
    assert_ne!(p, 0);
    assert_eq!(p % 16, 0);
    assert_eq!(heap.bytes_of(p), vec![0; 10]);
    assert!(heap.has_block(p));
    assert!(!heap.has_block(p + 16));
}

#[test]
fn type_id_is_constant() {
    assert_eq!(id_of_type(0), TYPE_ID);
    assert_eq!(id_of_type(41), TYPE_ID);
}

#[test]
fn release_takes_a_block_off_the_live_list() {
    let mut heap = Heap::new();
    let s = AscString::new(&mut heap, "abc").unwrap();
    let p = s.as_ptr();
    assert!(heap.is_live(p));
    assert_eq!(heap.live_count(), 1);
    let layout = s.into_box().release(&mut heap);
    assert_eq!(layout.root, p - 32);
    assert_eq!(layout.size, 48);
    assert_eq!(layout.align, 16);
    assert!(!heap.is_live(p));
    assert_eq!(heap.live_count(), 0);
}

#[test]
fn null_box_reads_as_none_and_releases_nothing() {
    let mut heap = Heap::new();
    let _keep = heap.allocate_bytes(vec![1]).unwrap();
    let before_len = heap.len();
    let before_live = heap.live_count();
    let null: AscNullableBox<AscSlice<u8>> = AscNullableBox::null();
    assert!(null.as_asc_ref().is_none());
    assert_eq!(null.as_ptr(), 0);
    assert!(null.release(&mut heap).is_none());
    assert_eq!(heap.len(), before_len);
    assert_eq!(heap.live_count(), before_live);
    let s = AscNullableString::null();
    assert!(s.as_asc_str().is_none());
}

#[test]
fn non_null_box_reads_and_releases() {
    let mut heap = Heap::new();
    let b = AscBox::<AscSlice<u8>>::from_slice(&mut heap, &[4, 5]).unwrap();
    let p = b.as_ptr();
    let n = AscNullableBox::new(b);
    assert_eq!(n.as_asc_ref().unwrap().as_ptr(), p);
    let layout = n.release(&mut heap).unwrap();
    assert_eq!(layout.root, p - 32);
    assert_eq!(heap.live_count(), 0);
}

#[test]
fn reference_from_pointer_checks_the_block() {
    let mut heap = Heap::new();
    let p = heap.allocate_bytes(vec![1]).unwrap();
    assert!(AscRef::<AscSlice<u8>>::from_ptr(&heap, p).is_some());
    assert!(AscRef::<AscSlice<u8>>::from_ptr(&heap, p + 1).is_none());
    assert!(AscRef::<AscSlice<u8>>::from_ptr(&heap, 0).is_none());
}

#[test]
fn sequence_with_length_has_that_length() {
    let mut heap = Heap::new();
    let b = AscBox::<AscSlice<u16>>::with_len(&mut heap, 4, vec![1, 2, 3, 65535]).unwrap();
    let items = b.as_asc_ref().as_slice(&heap);
    assert_eq!(items.len(), 4);
    assert_eq!(items, vec![1, 2, 3, 65535]);
    let empty = AscBox::<AscSlice<u16>>::with_len(&mut heap, 0, vec![]).unwrap();
    assert_eq!(empty.as_asc_ref().as_slice(&heap).len(), 0);
}

#[test]
fn odd_byte_buffer_read_as_units_drops_the_last_byte() {
    let mut heap = Heap::new();
    let p = heap.allocate_bytes(vec![0x41, 0x00, 0x42]).unwrap();
    let units = heap.units_of(p);
    assert_eq!(units, vec![0x41]);
    let words = heap.words_of(p);
    assert!(words.is_empty());
}

#[test]
fn typed_array_view_leaves_out_a_partial_item() {
    let mut heap = Heap::new();
    let buffer = AscArrayBuffer::new(&mut heap, &[1, 2, 3]).unwrap();
    let b = buffer.as_ptr();
    let view = AscTypedArray::<u16>::new(&mut heap, buffer).unwrap();
    assert_eq!(heap.word_of(view.as_ptr(), 0), Some(b));
    assert_eq!(heap.word_of(view.as_ptr(), 1), Some(b));
    assert_eq!(heap.word_of(view.as_ptr(), 2), Some(2));
}

#[test]
fn byte_typed_array_round_trip() {
    let mut heap = Heap::new();
    let a = AscTypedArray::from_bytes(&mut heap, &[7, 8, 9]).unwrap();
    assert_eq!(a.as_asc_ref().as_slice(&heap), Some(vec![7, 8, 9]));
    let buffer = AscArrayBuffer::new(&mut heap, &[5; 4]).unwrap();
    assert_eq!(buffer.as_bytes(&heap), vec![5; 4]);
}

#[test]
fn array_of_strings_keeps_its_items() {
    let mut heap = Heap::new();
    let a = AscString::new(&mut heap, "x").unwrap();
    let b = AscString::new(&mut heap, "yz").unwrap();
    let (pa, pb) = (a.as_ptr(), b.as_ptr());
    let arr = AscArray::new(&mut heap, vec![a.into_box(), b.into_box()]).unwrap();
    let items = arr.as_asc_ref().as_slice(&heap).unwrap();
    assert_eq!(items.len(), 2);
    assert_eq!(items[0].as_ptr(), pa);
    assert_eq!(items[1].as_ptr(), pb);
    let s = AscStr::from_ptr(&heap, items[1].as_ptr()).unwrap();
    assert_eq!(s.to_string_lossy(&heap), "yz");
}

#[test]
fn result_with_one_side_converts() {
    let mut heap = Heap::new();
    let v = heap.allocate_bytes(vec![1]).unwrap();
    let ok = heap.allocate_words(&vec![v, 0]).unwrap();
    let err = heap.allocate_words(&vec![0, v]).unwrap();
    let both = heap.allocate_words(&vec![v, v]).unwrap();
    let neither = heap.allocate_words(&vec![0, 0]).unwrap();
    let r = |p: u32| AscRef::<AscResult<AscSlice<u8>, AscSlice<u8>>>::from_ptr(&heap, p).unwrap();
    assert!(r(ok).is_consistent(&heap));
    match r(ok).as_std_result(&heap) {
        Ok(x) => assert_eq!(x.as_ptr(), v),
        Err(_) => panic!("expected Ok"),
    }
    match r(err).as_std_result(&heap) {
        Err(x) => assert_eq!(x.as_ptr(), v),
        Ok(_) => panic!("expected Err"),
    }
    assert!(!r(both).is_consistent(&heap));
    assert!(!r(neither).is_consistent(&heap));
}
