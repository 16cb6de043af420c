use ya_binary_format::{Bytes, Deserializer, FromBytes, Serializer, ToBytes};

#[derive(Debug, Eq, PartialEq)]
struct A {
    a: i32,
    b: Option<String>,
    c: Vec<usize>,
    d: String,
    e: u128,
    f: (Option<u32>, bool),
}

fn write_a(v: &A, out: &mut Vec<u8>) {
    v.a.to_bytes(out);
    v.b.to_bytes(out);
    v.c.to_bytes(out);
    v.d.to_bytes(out);
    v.e.to_bytes(out);
    v.f.to_bytes(out);
}

fn read_a(b: &mut Bytes) -> A {
    let a = FromBytes::from_bytes(b);
    let bb = FromBytes::from_bytes(b);
    let c = FromBytes::from_bytes(b);
    let d = FromBytes::from_bytes(b);
    let e = FromBytes::from_bytes(b);
    let f = FromBytes::from_bytes(b);
    A { a, b: bb, c, d, e, f }
}

#[derive(Debug, Eq, PartialEq)]
struct B(bool, Vec<u8>, String, i32);

fn write_b(v: &B, out: &mut Vec<u8>) {
    v.0.to_bytes(out);
    v.1.to_bytes(out);
    v.2.to_bytes(out);
    v.3.to_bytes(out);
}

fn read_b(b: &mut Bytes) -> B {
    let x0 = FromBytes::from_bytes(b);
    let x1 = FromBytes::from_bytes(b);
    let x2 = FromBytes::from_bytes(b);
    let x3 = FromBytes::from_bytes(b);
    B(x0, x1, x2, x3)
}

#[derive(Debug, Eq, PartialEq)]
struct C;

#[derive(Debug, Eq, PartialEq)]
struct D<T: Copy> {
    a: T,
}

#[derive(Debug, Eq, PartialEq)]
struct E<T: Eq>(T);

#[derive(Debug, Eq, PartialEq)]
struct Nest {
    a: A,
    b: B,
    c: C,
}

fn write_nest(v: &Nest, out: &mut Vec<u8>) {
    write_a(&v.a, out);
    write_b(&v.b, out);
}

fn read_nest(b: &mut Bytes) -> Nest {
    let a = read_a(b);
    let bb = read_b(b);
    Nest { a, b: bb, c: C }
}

/// Encodes with `write`, decodes with `read`, and checks that the value comes
/// back and that the whole buffer was consumed.
fn round_trip<T: PartialEq + std::fmt::Debug>(
    v: &T,
    write: fn(&T, &mut Vec<u8>),
    read: fn(&mut Bytes) -> T,
) {
    let mut buf = Vec::new();
    write(v, &mut buf);
    let mut b = Bytes::new(&buf);
    let v2 = read(&mut b);
    assert_eq!(v, &v2);
    assert_eq!(b.remaining(), 0);
}

#[test]
fn struct_named() {
    let a = A {
        a: i32::MAX,
        b: Some(String::from("アイウ")),
        c: vec![10000, 256, i32::MAX as usize, 255, 254, 253, 0],
        d: String::new(),
        e: u128::MAX,
        f: (None, false),
    };
    round_trip(&a, write_a, read_a);
}

#[test]
fn struct_unnamed() {
    let b = B(true, vec![0; 1000], String::from("abc"), 123);
    round_trip(&b, write_b, read_b);
}

#[test]
fn struct_unit() {
    round_trip(&C, |_, _| {}, |_| C);
    let mut buf = Vec::new();
    ().to_bytes(&mut buf);
    assert!(buf.is_empty());
}

#[test]
fn struct_generics() {
    round_trip(&D { a: 42i32 }, |v, out| v.a.to_bytes(out), |b| D {
        a: i32::from_bytes(b),
    });
    round_trip(&E(vec![1, 2, 3]), |v, out| v.0.to_bytes(out), |b| {
        E(Vec::<i32>::from_bytes(b))
    });
}

#[test]
fn struct_nest() {
    let n = Nest {
        a: A {
            a: 0,
            b: None,
            c: vec![10],
            d: String::from("000"),
            e: 0,
            f: (None, true),
        },
        b: B(false, vec![1, 1, 2, 3, 5], String::from("999"), 42),
        c: C,
    };
    round_trip(&n, write_nest, read_nest);
}

#[derive(Debug, Eq, PartialEq)]
enum EnumOnlyUnit {
    A,
    B,
    C,
}

const UNIT_VARIANTS: [&str; 3] = ["A", "B", "C"];

fn write_only_unit(v: &EnumOnlyUnit, ser: &mut Serializer<Vec<u8>>) {
    let index = match v {
        EnumOnlyUnit::A => 0,
        EnumOnlyUnit::B => 1,
        EnumOnlyUnit::C => 2,
    };
    ser.serialize_unit_variant(index);
}

fn read_only_unit(de: &mut Deserializer) -> EnumOnlyUnit {
    de.deserialize_enum(&UNIT_VARIANTS);
    match de.deserialize_identifier() {
        "A" => EnumOnlyUnit::A,
        "B" => EnumOnlyUnit::B,
        "C" => EnumOnlyUnit::C,
        other => panic!("unknown variant {other}"),
    }
}

fn only_unit_round_trip(v: EnumOnlyUnit) {
    let mut ser = Serializer::new(Vec::new());
    write_only_unit(&v, &mut ser);
    let buf = ser.into_writer();
    let mut de = Deserializer::new(&buf);
    assert_eq!(read_only_unit(&mut de), v);
    assert_eq!(de.remaining(), 0);
}

#[test]
fn enum_only_unit() {
    only_unit_round_trip(EnumOnlyUnit::A);
    only_unit_round_trip(EnumOnlyUnit::B);
    only_unit_round_trip(EnumOnlyUnit::C);

    let list = E(vec![EnumOnlyUnit::A, EnumOnlyUnit::C, EnumOnlyUnit::B]);
    let mut ser = Serializer::new(Vec::new());
    let mut coll = ser.serialize_seq(Some(list.0.len()));
    for v in &list.0 {
        let mut item = Serializer::new(Vec::new());
        write_only_unit(v, &mut item);
        coll.add_encoded(&mut ser, &item.into_writer());
    }
    coll.end(&mut ser);
    let buf = ser.into_writer();
    assert_eq!(buf, vec![3, 0, 2, 1]);
    let mut de = Deserializer::new(&buf);
    let n = de.deserialize_seq();
    let back: Vec<EnumOnlyUnit> = (0..n).map(|_| read_only_unit(&mut de)).collect();
    assert_eq!(E(back), list);
    assert_eq!(de.remaining(), 0);
}

#[derive(Debug, Eq, PartialEq)]
enum EnumMany {
    A,
    B(i128),
    C(bool, i16),
    D { a: i8 },
    E,
    F { b: (), c: i32, d: u32 },
}

const MANY_VARIANTS: [&str; 6] = ["A", "B", "C", "D", "E", "F"];

fn write_many(v: &EnumMany, ser: &mut Serializer<Vec<u8>>) {
    match v {
        EnumMany::A => ser.serialize_unit_variant(0),
        EnumMany::B(x) => {
            ser.serialize_newtype_variant(1);
            ser.serialize_i128(*x);
        }
        EnumMany::C(x, y) => {
            ser.serialize_newtype_variant(2);
            ser.serialize_bool(*x);
            ser.serialize_i16(*y);
        }
        EnumMany::D { a } => {
            ser.serialize_newtype_variant(3);
            ser.serialize_i8(*a);
        }
        EnumMany::E => ser.serialize_unit_variant(4),
        EnumMany::F { b, c, d } => {
            ser.serialize_newtype_variant(5);
            ser.serialize(b);
            ser.serialize_i32(*c);
            ser.serialize_u32(*d);
        }
    }
}

fn read_many(de: &mut Deserializer) -> EnumMany {
    de.deserialize_enum(&MANY_VARIANTS);
    match de.deserialize_identifier() {
        "A" => EnumMany::A,
        "B" => EnumMany::B(de.deserialize()),
        "C" => {
            let x = de.deserialize_bool();
            let y = de.deserialize();
            EnumMany::C(x, y)
        }
        "D" => EnumMany::D { a: de.deserialize() },
        "E" => EnumMany::E,
        "F" => {
            let b = de.deserialize();
            let c = de.deserialize();
            let d = de.deserialize();
            EnumMany::F { b, c, d }
        }
        other => panic!("unknown variant {other}"),
    }
}

fn many_round_trip(v: EnumMany) {
    let mut ser = Serializer::new(Vec::new());
    write_many(&v, &mut ser);
    let buf = ser.into_writer();
    let mut de = Deserializer::new(&buf);
    assert_eq!(read_many(&mut de), v);
    assert_eq!(de.remaining(), 0);
}

#[test]
fn enum_many() {
    many_round_trip(EnumMany::A);
    many_round_trip(EnumMany::B(0));
    many_round_trip(EnumMany::B(i128::MAX));
    many_round_trip(EnumMany::B(i128::MIN));
    many_round_trip(EnumMany::C(true, 0));
    many_round_trip(EnumMany::C(true, 1));
    many_round_trip(EnumMany::C(true, 100));
    many_round_trip(EnumMany::C(false, 0));
    many_round_trip(EnumMany::C(false, 1));
    many_round_trip(EnumMany::C(false, 100));
    many_round_trip(EnumMany::D { a: 0 });
    many_round_trip(EnumMany::D { a: 1 });
    many_round_trip(EnumMany::D { a: 127 });
    many_round_trip(EnumMany::E);
    many_round_trip(EnumMany::F { b: (), c: 0, d: 0 });
    many_round_trip(EnumMany::F { b: (), c: 0, d: 10 });
    many_round_trip(EnumMany::F { b: (), c: -1, d: 1 });
    many_round_trip(EnumMany::F { b: (), c: -1, d: 1 });
}
