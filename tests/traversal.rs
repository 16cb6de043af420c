use ya_binary_format::{Deserializer, Serializer};

// Values are written field by field through the serializer and read back
// field by field through the deserializer, the calls that generated glue
// makes for each product type.

#[derive(Debug, Eq, PartialEq)]
struct A {
    a: i32,
    b: Option<String>,
    c: Vec<usize>,
    d: String,
    e: u128,
    f: (Option<u32>, bool),
}

fn write_a(v: &A, ser: &mut Serializer<Vec<u8>>) {
    ser.serialize_i32(v.a);
    match &v.b {
        None => ser.serialize_none(),
        Some(s) => {
            ser.serialize_some();
            ser.serialize_str(s);
        }
    }
    let mut coll = ser.serialize_seq(None);
    for x in &v.c {
        coll.add(ser, x);
    }
    coll.end(ser);
    ser.serialize_str(&v.d);
    ser.serialize_u128(v.e);
    ser.serialize(&v.f);
}

fn read_a(de: &mut Deserializer) -> A {
    let a = de.deserialize();
    let b = if de.deserialize_option() { Some(de.deserialize_string()) } else { None };
    let n = de.deserialize_seq();
    let c = (0..n).map(|_| de.get_len()).collect();
    let d = de.deserialize_string();
    let e = de.deserialize();
    let f = de.deserialize();
    A { a, b, c, d, e, f }
}

#[derive(Debug, Eq, PartialEq)]
struct B(bool, Vec<u8>, String, i32);

fn write_b(v: &B, ser: &mut Serializer<Vec<u8>>) {
    ser.serialize_bool(v.0);
    ser.serialize_bytes(&v.1);
    ser.serialize_str(&v.2);
    ser.serialize_i32(v.3);
}

fn read_b(de: &mut Deserializer) -> B {
    let x0 = de.deserialize_bool();
    let x1 = de.deserialize_byte_buf();
    let x2 = de.deserialize_string();
    let x3 = de.deserialize();
    B(x0, x1, x2, x3)
}

#[derive(Debug, Eq, PartialEq)]
struct C;

#[derive(Debug, Eq, PartialEq)]
struct D<T: Copy> {
    a: T,
}

#[derive(Debug, Eq, PartialEq)]
struct E<T: Eq>(T);

#[derive(Debug, Eq, PartialEq)]
struct Nest {
    a: A,
    b: B,
    c: C,
}

fn check<T: PartialEq + std::fmt::Debug>(
    v: &T,
    write: fn(&T, &mut Serializer<Vec<u8>>),
    read: fn(&mut Deserializer) -> T,
) {
    let mut ser = Serializer::new(Vec::new());
    write(v, &mut ser);
    let buf = ser.into_writer();
    let mut de = Deserializer::new(&buf);
    let v2 = read(&mut de);
    assert_eq!(v, &v2);
    assert_eq!(de.remaining(), 0);
}

#[test]
fn test_struct_named() {
    let a = A {
        a: i32::MAX,
        b: Some(String::from("アイウ")),
        c: vec![10000, 256, i32::MAX as usize, 255, 254, 253, 0],
        d: String::new(),
        e: u128::MAX,
        f: (None, false),
    };
    check(&a, write_a, read_a);
}

#[test]
fn test_struct_unnamed() {
    let b = B(true, vec![0; 1000], String::from("abc"), 123);
    check(&b, write_b, read_b);
}

#[test]
fn test_struct_unit() {
    check(&C, |_, _| {}, |_| C);
}

#[test]
fn test_struct_generics() {
    check(&D { a: 42i32 }, |v, ser| ser.serialize_i32(v.a), |de| D { a: de.deserialize() });
    check(&E(vec![1, 2, 3]), |v, ser| ser.serialize(&v.0), |de| E(de.deserialize::<Vec<i32>>()));
}

#[test]
fn test_struct_nest() {
    let n = Nest {
        a: A {
            a: 0,
            b: None,
            c: vec![10],
            d: String::from("000"),
            e: 0,
            f: (None, true),
        },
        b: B(false, vec![1, 1, 2, 3, 5], String::from("999"), 42),
        c: C,
    };
    check(
        &n,
        |v, ser| {
            write_a(&v.a, ser);
            write_b(&v.b, ser);
        },
        |de| {
            let a = read_a(de);
            let b = read_b(de);
            Nest { a, b, c: C }
        },
    );
}
