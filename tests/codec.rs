use std::collections::{HashMap, VecDeque};

use ya_binary_format::{from_bytes, to_bytes, Bytes, Deserializer, FixedAccess, FromBytes, Serializer};

#[test]
fn bool_true_is_ascii_one() {
    assert_eq!(to_bytes(&true), vec![0x31]);
    assert_eq!(to_bytes(&false), vec![0x30]);
    assert!(from_bytes::<bool>(&[0x31]));
    assert!(!from_bytes::<bool>(&[0x30]));
    // Only ASCII '1' reads as true.
    assert!(!from_bytes::<bool>(&[1]));
}

#[test]
fn option_presence_byte() {
    assert_eq!(to_bytes(&None::<u16>), vec![0x30]);
    assert_eq!(to_bytes(&Some(256u16)), vec![0x31, 0x00, 0x01]);
    assert_eq!(from_bytes::<Option<u16>>(&[0x30]), None);
    assert_eq!(from_bytes::<Option<u16>>(&[0x31, 0x00, 0x01]), Some(256));
    // Any byte other than ASCII '0' marks a present value.
    assert_eq!(from_bytes::<Option<u8>>(&[7, 9]), Some(9));
}

#[test]
fn string_is_size_prefixed() {
    assert_eq!(to_bytes(&String::from("abc")), vec![0x03, 0x61, 0x62, 0x63]);
    assert_eq!(from_bytes::<String>(&[0x03, 0x61, 0x62, 0x63]), "abc");
    assert_eq!(to_bytes(&String::new()), vec![0]);
    assert_eq!(from_bytes::<String>(&[0]), "");
    let kana = String::from("アイウ");
    let bytes = to_bytes(&kana);
    assert_eq!(bytes[0], 9);
    assert_eq!(&bytes[1..], kana.as_bytes());
    assert_eq!(from_bytes::<String>(&bytes), kana);
}

#[test]
fn product_has_no_prefix() {
    let v = (123i32, true, None::<u8>);
    let bytes = to_bytes(&v);
    assert_eq!(bytes, vec![123, 0, 0, 0, 0x31, 0x30]);
    assert_eq!(from_bytes::<(i32, bool, Option<u8>)>(&bytes), v);
}

#[test]
fn long_sequence_prefix() {
    let v: Vec<u8> = (0..300).map(|i| (i % 256) as u8).collect();
    let bytes = to_bytes(&v);
    assert_eq!(bytes.len(), 305);
    assert_eq!(&bytes[..5], &[0xFE, 0x2C, 0x01, 0x00, 0x00]);
    assert_eq!(&bytes[5..], &v[..]);
    assert_eq!(from_bytes::<Vec<u8>>(&bytes), v);
}

#[test]
fn second_variant_with_payload() {
    let mut ser = Serializer::new(Vec::new());
    ser.serialize_newtype_variant(1);
    ser.serialize_i32(-1);
    let bytes = ser.into_writer();
    assert_eq!(bytes, vec![1, 0xFF, 0xFF, 0xFF, 0xFF]);
    let mut de = Deserializer::new(&bytes);
    assert_eq!(de.deserialize_enum(&["First", "Second"]), 1);
    assert_eq!(de.deserialize_identifier(), "Second");
    assert_eq!(de.deserialize::<i32>(), -1);
    assert_eq!(de.remaining(), 0);
}

#[test]
fn size_code_boundaries() {
    assert_eq!(to_bytes(&253usize), vec![253]);
    assert_eq!(to_bytes(&254usize), vec![254, 254, 0, 0, 0]);
    assert_eq!(to_bytes(&(u32::MAX as usize)), vec![254, 0xFF, 0xFF, 0xFF, 0xFF]);
    assert_eq!(to_bytes(&(1usize << 32)), vec![255, 0, 0, 0, 0, 1, 0, 0, 0]);
    assert_eq!(from_bytes::<usize>(&[253]), 253);
    assert_eq!(from_bytes::<usize>(&[254, 254, 0, 0, 0]), 254);
    assert_eq!(from_bytes::<usize>(&[255, 0, 0, 0, 0, 1, 0, 0, 0]), 1usize << 32);
    let mut ser = Serializer::new(Vec::new());
    ser.serialize_len(254);
    assert_eq!(ser.into_writer(), vec![254, 254, 0, 0, 0]);
    let bytes = [255, 0, 0, 0, 0, 1, 0, 0, 0, 42];
    let mut de = Deserializer::new(&bytes);
    assert_eq!(de.get_len(), 1usize << 32);
    assert_eq!(de.remaining(), 1);
}

#[test]
fn swapped_field_order_misreads() {
    let bytes = to_bytes(&(0x12u8, 0x3456u16));
    assert_eq!(bytes, vec![0x12, 0x56, 0x34]);
    let swapped = from_bytes::<(u16, u8)>(&bytes);
    assert_eq!(swapped, (0x5612, 0x34));
    assert_ne!(swapped, (0x3456, 0x12));
    // The one case where the swap goes unnoticed: y == 257 * x.
    let bytes = to_bytes(&(3u8, 771u16));
    assert_eq!(from_bytes::<(u16, u8)>(&bytes), (771, 3));
}

#[test]
fn round_trip_consumes_exactly() {
    let v: (Vec<Option<String>>, u64, Box<i16>) = (
        vec![Some(String::from("x")), None, Some(String::new())],
        u64::MAX,
        Box::new(-300),
    );
    let mut bytes = to_bytes(&v);
    let n = bytes.len();
    bytes.extend_from_slice(&[9, 9, 9]);
    let mut b = Bytes::new(&bytes);
    let back = <(Vec<Option<String>>, u64, Box<i16>)>::from_bytes(&mut b);
    assert_eq!(back, v);
    assert_eq!(b.remaining(), 3);
    assert_eq!(bytes.len() - b.remaining(), n);
}

#[test]
fn signed_extremes() {
    assert_eq!(to_bytes(&i8::MIN), vec![0x80]);
    assert_eq!(to_bytes(&-2i16), vec![0xFE, 0xFF]);
    assert_eq!(to_bytes(&i64::MIN), vec![0, 0, 0, 0, 0, 0, 0, 0x80]);
    assert_eq!(from_bytes::<i128>(&to_bytes(&i128::MIN)), i128::MIN);
    assert_eq!(from_bytes::<i128>(&to_bytes(&i128::MAX)), i128::MAX);
    assert_eq!(from_bytes::<i128>(&[0xFF; 16]), -1);
    assert_eq!(from_bytes::<u128>(&[0xFF; 16]), u128::MAX);
    assert_eq!(to_bytes(&0x0102_0304u32), vec![4, 3, 2, 1]);
}

#[test]
fn streamed_and_buffered_sequences_agree() {
    let items = vec![1u16, 300, 65535];
    let mut streamed = Serializer::new(Vec::new());
    let mut coll = streamed.serialize_seq(Some(items.len()));
    assert!(coll.fixed());
    for x in &items {
        coll.add(&mut streamed, x);
    }
    coll.end(&mut streamed);
    let mut buffered = Serializer::new(Vec::new());
    let mut coll = buffered.serialize_seq(None);
    assert!(!coll.fixed());
    for x in &items {
        coll.add(&mut buffered, x);
    }
    coll.end(&mut buffered);
    let a = streamed.into_writer();
    assert_eq!(a, buffered.into_writer());
    assert_eq!(a, to_bytes(&items));
}

#[test]
fn map_count_is_entries() {
    let mut ser = Serializer::new(Vec::new());
    let mut coll = ser.serialize_map(None);
    coll.add(&mut ser, &String::from("k"));
    coll.add(&mut ser, &7u8);
    coll.add(&mut ser, &String::from("j"));
    coll.add(&mut ser, &8u8);
    coll.end_map(&mut ser);
    let bytes = ser.into_writer();
    assert_eq!(bytes, vec![2, 1, b'k', 7, 1, b'j', 8]);
    let mut de = Deserializer::new(&bytes);
    assert_eq!(de.deserialize_map(), 2);
}

#[test]
fn fixed_access_counts_down() {
    let mut access = FixedAccess::new(2);
    assert_eq!(access.size_hint(), 2);
    assert!(access.next());
    assert!(access.next());
    assert!(!access.next());
    assert_eq!(access.size_hint(), 0);
}

#[test]
fn byte_buffer_and_cursor() {
    let mut ser = Serializer::new(Vec::new());
    ser.serialize_bytes(&[1, 2, 3]);
    ser.serialize_none();
    let bytes = ser.into_writer();
    assert_eq!(bytes, vec![3, 1, 2, 3, 0x30]);
    let mut de = Deserializer::new(&bytes);
    assert_eq!(de.deserialize_byte_buf(), vec![1, 2, 3]);
    assert!(!de.deserialize_option());
    let mut b = Bytes::new(&bytes);
    b.advance(1);
    assert_eq!(b.chunk(), &[1, 2, 3, 0x30]);
    assert_eq!(b.get_u8(), 1);
    assert_eq!(b.get_le(2), 0x0302);
    assert_eq!(b.remaining(), 1);
}

#[test]
fn unordered_map_content_survives() {
    let mut m: HashMap<String, Option<String>> = HashMap::new();
    m.insert("a".to_string(), Some("b".to_string()));
    m.insert("123".to_string(), None);
    m.insert("".to_string(), Some("".to_string()));
    // The map is written as its entry count, then its entries in iteration order.
    let entries: Vec<(String, Option<String>)> =
        m.iter().map(|(k, v)| (k.clone(), v.clone())).collect();
    let bytes = to_bytes(&entries);
    assert_eq!(bytes[0], 3);
    let back: HashMap<String, Option<String>> =
        from_bytes::<Vec<(String, Option<String>)>>(&bytes).into_iter().collect();
    assert_eq!(back, m);
    // Another order of the same entries: other bytes, same map.
    let mut reversed = entries.clone();
    reversed.reverse();
    let other = to_bytes(&reversed);
    assert_ne!(other, bytes);
    assert_eq!(other.len(), bytes.len());
    let back2: HashMap<String, Option<String>> =
        from_bytes::<Vec<(String, Option<String>)>>(&other).into_iter().collect();
    assert_eq!(back2, m);
}

#[test]
fn deque_encodes_as_sequence() {
    let mut q: VecDeque<i16> = VecDeque::new();
    q.push_back(1);
    q.push_back(-1);
    q.push_front(256);
    let bytes = to_bytes(&q);
    assert_eq!(bytes, vec![3, 0x00, 0x01, 0x01, 0x00, 0xFF, 0xFF]);
    assert_eq!(bytes, to_bytes(&vec![256i16, 1, -1]));
    assert_eq!(from_bytes::<VecDeque<i16>>(&bytes), q);
}

#[test]
fn wide_tuples() {
    let v = (1u8, 2u16, 3u32, 4u64, 5i8, 6i16, String::from("seven"));
    let bytes = to_bytes(&v);
    assert_eq!(bytes.len(), 1 + 2 + 4 + 8 + 1 + 2 + 6);
    assert_eq!(from_bytes::<(u8, u16, u32, u64, i8, i16, String)>(&bytes), v);
    let single = (true,);
    assert_eq!(to_bytes(&single), vec![0x31]);
    assert_eq!(from_bytes::<(bool,)>(&[0x31]), single);
}
