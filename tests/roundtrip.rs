use serde_net::{from_bytes, from_reader, to_vec, Shape, Value};

fn test_roundtrip_ok(value: Value, shape: Shape, output: Vec<u8>) {
    let bytes = to_vec(&value).unwrap();
    assert_eq!(bytes, output);

    let v = from_reader(&shape, &bytes).unwrap();
    assert_eq!(format!("{:?}", v), format!("{:?}", value));

    let w = from_bytes(&shape, &bytes).unwrap();
    assert_eq!(format!("{:?}", w), format!("{:?}", value));
}

fn string(s: &str) -> Value {
    Value::Str(String::from(s))
}

#[test]
fn test_roundtrip_unit() {
    test_roundtrip_ok(Value::Unit, Shape::Unit, vec![]);
}

#[test]
fn test_roundtrip_bool() {
    test_roundtrip_ok(Value::Bool(true), Shape::Bool, vec![1]);
    test_roundtrip_ok(Value::Bool(false), Shape::Bool, vec![0]);
}

#[test]
fn test_roundtrip_i8() {
    test_roundtrip_ok(Value::I8(-3i8), Shape::I8, vec![253]);
    test_roundtrip_ok(Value::I8(0i8), Shape::I8, vec![0]);
    test_roundtrip_ok(Value::I8(3i8), Shape::I8, vec![3]);
    test_roundtrip_ok(Value::I8(i8::MIN), Shape::I8, vec![128]);
    test_roundtrip_ok(Value::I8(i8::MAX), Shape::I8, vec![127]);
}

#[test]
fn test_roundtrip_i16() {
    test_roundtrip_ok(Value::I16(-3456i16), Shape::I16, vec![242, 128]);
    test_roundtrip_ok(Value::I16(0i16), Shape::I16, vec![0, 0]);
    test_roundtrip_ok(Value::I16(3456i16), Shape::I16, vec![13, 128]);
    test_roundtrip_ok(Value::I16(i16::MIN), Shape::I16, vec![128, 0]);
    test_roundtrip_ok(Value::I16(i16::MAX), Shape::I16, vec![127, 255]);
}

#[test]
fn test_roundtrip_i32() {
    test_roundtrip_ok(Value::I32(-7359i32), Shape::I32, vec![255, 255, 227, 65]);
    test_roundtrip_ok(Value::I32(0i32), Shape::I32, vec![0, 0, 0, 0]);
    test_roundtrip_ok(Value::I32(7359i32), Shape::I32, vec![0, 0, 28, 191]);
    test_roundtrip_ok(Value::I32(i32::MIN), Shape::I32, vec![128, 0, 0, 0]);
    test_roundtrip_ok(Value::I32(i32::MAX), Shape::I32, vec![127, 255, 255, 255]);
}

#[test]
fn test_roundtrip_i64() {
    test_roundtrip_ok(
        Value::I64(-94533i64),
        Shape::I64,
        vec![255, 255, 255, 255, 255, 254, 142, 187],
    );
    test_roundtrip_ok(Value::I64(0i64), Shape::I64, vec![0, 0, 0, 0, 0, 0, 0, 0]);
    test_roundtrip_ok(Value::I64(94533i64), Shape::I64, vec![0, 0, 0, 0, 0, 1, 113, 69]);
    test_roundtrip_ok(Value::I64(i64::MIN), Shape::I64, vec![128, 0, 0, 0, 0, 0, 0, 0]);
    test_roundtrip_ok(
        Value::I64(i64::MAX),
        Shape::I64,
        vec![127, 255, 255, 255, 255, 255, 255, 255],
    );
}

#[test]
fn test_roundtrip_u8() {
    test_roundtrip_ok(Value::U8(3u8), Shape::U8, vec![3]);
    test_roundtrip_ok(Value::U8(u8::MIN), Shape::U8, vec![0]);
    test_roundtrip_ok(Value::U8(u8::MAX), Shape::U8, vec![255]);
}

#[test]
fn test_roundtrip_u16() {
    test_roundtrip_ok(Value::U16(5456u16), Shape::U16, vec![21, 80]);
    test_roundtrip_ok(Value::U16(u16::MIN), Shape::U16, vec![0, 0]);
    test_roundtrip_ok(Value::U16(u16::MAX), Shape::U16, vec![255, 255]);
}

#[test]
fn test_roundtrip_u32() {
    test_roundtrip_ok(Value::U32(7359u32), Shape::U32, vec![0, 0, 28, 191]);
    test_roundtrip_ok(Value::U32(u32::MIN), Shape::U32, vec![0, 0, 0, 0]);
    test_roundtrip_ok(Value::U32(u32::MAX), Shape::U32, vec![255, 255, 255, 255]);
}

#[test]
fn test_roundtrip_u64() {
    test_roundtrip_ok(Value::U64(9764533u64), Shape::U64, vec![0, 0, 0, 0, 0, 148, 254, 181]);
    test_roundtrip_ok(Value::U64(u64::MIN), Shape::U64, vec![0, 0, 0, 0, 0, 0, 0, 0]);
    test_roundtrip_ok(
        Value::U64(u64::MAX),
        Shape::U64,
        vec![255, 255, 255, 255, 255, 255, 255, 255],
    );
}

#[test]
fn test_roundtrip_f32() {
    let f = |x: f32| Value::F32(x.to_bits());
    test_roundtrip_ok(f(-1.333f32), Shape::F32, vec![191, 170, 159, 190]);
    test_roundtrip_ok(f(0f32), Shape::F32, vec![0, 0, 0, 0]);
    test_roundtrip_ok(f(1.333f32), Shape::F32, vec![63, 170, 159, 190]);
    test_roundtrip_ok(f(f32::MIN), Shape::F32, vec![255, 127, 255, 255]);
    test_roundtrip_ok(f(f32::MAX), Shape::F32, vec![127, 127, 255, 255]);
}

#[test]
fn test_roundtrip_f64() {
    let f = |x: f64| Value::F64(x.to_bits());
    test_roundtrip_ok(f(-78.42568f64), Shape::F64, vec![192, 83, 155, 62, 87, 83, 163, 236]);
    test_roundtrip_ok(f(0f64), Shape::F64, vec![0, 0, 0, 0, 0, 0, 0, 0]);
    test_roundtrip_ok(f(-78.42568f64), Shape::F64, vec![192, 83, 155, 62, 87, 83, 163, 236]);
    test_roundtrip_ok(f(f64::MIN), Shape::F64, vec![255, 239, 255, 255, 255, 255, 255, 255]);
    test_roundtrip_ok(f(f64::MAX), Shape::F64, vec![127, 239, 255, 255, 255, 255, 255, 255]);
}

#[test]
fn test_roundtrip_char() {
    test_roundtrip_ok(Value::Char('a'), Shape::Char, vec![0, 0, 0, 97]);
    test_roundtrip_ok(Value::Char('💯'), Shape::Char, vec![0, 1, 244, 175]);
    test_roundtrip_ok(Value::Char('あ'), Shape::Char, vec![0, 0, 48, 66]);
    test_roundtrip_ok(Value::Char(char::MAX), Shape::Char, vec![0, 16, 255, 255]);
}

#[test]
fn test_roundtrip_string() {
    test_roundtrip_ok(string(""), Shape::Str, vec![0, 0]);
    test_roundtrip_ok(
        string("💯あ"),
        Shape::Str,
        vec![0, 7, 240, 159, 146, 175, 227, 129, 130],
    );
    test_roundtrip_ok(
        string("Hello world"),
        Shape::Str,
        vec![0, 11, 72, 101, 108, 108, 111, 32, 119, 111, 114, 108, 100],
    );
}

#[test]
fn test_roundtrip_option() {
    let shape = || Shape::Opt(Box::new(Shape::U32));
    test_roundtrip_ok(Value::Opt(None), shape(), vec![0]);
    test_roundtrip_ok(
        Value::Opt(Some(Box::new(Value::U32(77)))),
        shape(),
        vec![1, 0, 0, 0, 77],
    );
}

#[test]
fn test_roundtrip_seq() {
    // A fixed-size array has its length in its shape, as a tuple does.
    let value = Value::Tuple(vec![Value::U16(77), Value::U16(54), Value::U16(13)]);
    let shape = Shape::Tuple(vec![Shape::U16, Shape::U16, Shape::U16]);
    test_roundtrip_ok(value, shape, vec![0, 77, 0, 54, 0, 13]);
}

#[test]
fn test_roundtrip_tuple() {
    let value = Value::Tuple(vec![Value::U8(63), Value::Bool(true), Value::Char('g')]);
    let shape = Shape::Tuple(vec![Shape::U8, Shape::Bool, Shape::Char]);
    test_roundtrip_ok(value, shape, vec![63, 1, 0, 0, 0, 103]);
}

#[test]
fn test_roundtrip_map() {
    let value = Value::Entries(vec![
        (string("Dog"), Value::U8(3)),
        (string("Monkey"), Value::U8(7)),
    ]);
    let shape = Shape::Entries(Box::new(Shape::Str), Box::new(Shape::U8));
    test_roundtrip_ok(
        value,
        shape,
        vec![
            0, 2, 0, 3, 68, 111, 103, 3, 0, 6, 77, 111, 110, 107, 101, 121, 7,
        ],
    );
}

#[test]
fn test_roundtrip_unit_struct() {
    test_roundtrip_ok(Value::Unit, Shape::Unit, vec![]);
}

#[test]
fn test_roundtrip_newtype_struct() {
    test_roundtrip_ok(Value::Char('a'), Shape::Char, vec![0, 0, 0, 97]);
}

#[test]
fn test_roundtrip_tuple_struct() {
    let value = Value::Tuple(vec![Value::Char('$'), Value::U8(125), Value::Bool(false)]);
    let shape = Shape::Tuple(vec![Shape::Char, Shape::U8, Shape::Bool]);
    test_roundtrip_ok(value, shape, vec![0, 0, 0, 36, 125, 0]);
}

#[test]
fn test_roundtrip_struct() {
    let value = Value::Tuple(vec![
        Value::U32(1),
        Value::List(vec![string("a"), string("b")]),
    ]);
    let shape = Shape::Tuple(vec![Shape::U32, Shape::List(Box::new(Shape::Str))]);
    test_roundtrip_ok(value, shape, vec![0, 0, 0, 1, 0, 2, 0, 1, 97, 0, 1, 98]);
}

fn enum_shape() -> Shape {
    Shape::Union(vec![
        Shape::Unit,
        Shape::U32,
        Shape::Tuple(vec![Shape::U8, Shape::U8]),
        Shape::Tuple(vec![Shape::U32]),
    ])
}

#[test]
fn test_roundtrip_unit_variant() {
    test_roundtrip_ok(Value::Variant(0, Box::new(Value::Unit)), enum_shape(), vec![0]);
}

#[test]
fn test_roundtrip_newtype_variant() {
    test_roundtrip_ok(
        Value::Variant(1, Box::new(Value::U32(1))),
        enum_shape(),
        vec![1, 0, 0, 0, 1],
    );
}

#[test]
fn test_roundtrip_tuple_variant() {
    let payload = Value::Tuple(vec![Value::U8(1), Value::U8(2)]);
    test_roundtrip_ok(Value::Variant(2, Box::new(payload)), enum_shape(), vec![2, 1, 2]);
}

#[test]
fn test_roundtrip_struct_variant() {
    let payload = Value::Tuple(vec![Value::U32(1)]);
    test_roundtrip_ok(
        Value::Variant(3, Box::new(payload)),
        enum_shape(),
        vec![3, 0, 0, 0, 1],
    );
}
