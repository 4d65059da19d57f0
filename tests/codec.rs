use serde_net::{from_bytes, from_reader, to_vec, to_writer, Deserializer, Error, Serializer};
use serde_net::de::{arity_count, decode_prefix};
use serde_net::error::UNKNOWN_VARIANT;
use serde_net::ser::variant_tag;
use serde_net::{Shape, Value};

fn string(s: &str) -> Value {
    Value::Str(String::from(s))
}

#[test]
fn decoding_a_truncated_string_reports_end_of_input() {
    let r = from_bytes(&Shape::Str, &[0, 11, 72, 101]);
    assert!(matches!(r, Err(Error::EofWhileDeserializing)));
}

#[test]
fn decoding_a_truncated_prefix_reports_end_of_input() {
    assert!(matches!(from_bytes(&Shape::Str, &[0]), Err(Error::EofWhileDeserializing)));
    assert!(matches!(from_bytes(&Shape::U64, &[1, 2, 3]), Err(Error::EofWhileDeserializing)));
    assert!(matches!(from_bytes(&Shape::Bool, &[]), Err(Error::EofWhileDeserializing)));
}

#[test]
fn decoding_a_short_sequence_reports_end_of_input() {
    let shape = Shape::List(Box::new(Shape::U16));
    let r = from_bytes(&shape, &[0, 3, 0, 77, 0, 54]);
    assert!(matches!(r, Err(Error::EofWhileDeserializing)));
}

#[test]
fn leftover_bytes_in_a_buffer_are_trailing_bytes() {
    let r = from_bytes(&Shape::U16, &[0, 7, 9]);
    assert!(matches!(r, Err(Error::TrailingBytes)));
}

#[test]
fn a_reader_leaves_bytes_after_the_value() {
    let v = from_reader(&Shape::U16, &[0, 7, 9]).unwrap();
    assert!(matches!(v, Value::U16(7)));
}

#[test]
fn a_sequence_without_a_count_is_length_not_known() {
    let mut s = Serializer::new();
    assert!(matches!(s.serialize_seq(None), Err(Error::LengthNotKnown)));
    assert!(matches!(s.serialize_map(None), Err(Error::LengthNotKnown)));
    assert_eq!(s.into_bytes(), Vec::<u8>::new());
}

#[test]
fn the_traversal_steps_write_the_layout() {
    let mut s = Serializer::new();
    s.serialize_seq(Some(2)).unwrap();
    s.serialize_u16(77);
    s.serialize_some();
    s.serialize_i8(-1);
    s.serialize_variant(5);
    s.serialize_none();
    s.serialize_str("hi").unwrap();
    s.serialize_bytes(&[9, 8]).unwrap();
    assert_eq!(
        s.into_bytes(),
        vec![0, 2, 0, 77, 1, 255, 5, 0, 0, 2, 104, 105, 0, 2, 9, 8]
    );
}

#[test]
fn an_invalid_code_point_is_an_invalid_char() {
    assert!(matches!(from_bytes(&Shape::Char, &[0, 0, 0xD8, 0]), Err(Error::InvalidChar)));
    assert!(matches!(from_bytes(&Shape::Char, &[0, 0x11, 0, 0]), Err(Error::InvalidChar)));
}

#[test]
fn invalid_utf8_is_an_invalid_string() {
    let r = from_bytes(&Shape::Str, &[0, 2, 0xC3, 0x28]);
    assert!(matches!(r, Err(Error::InvalidString)));
}

#[test]
fn a_tag_past_the_variants_is_a_message() {
    let shape = Shape::Union(vec![Shape::Unit, Shape::U8]);
    let r = from_bytes(&shape, &[2]);
    assert!(matches!(r, Err(Error::Message(ref m)) if m == UNKNOWN_VARIANT));
    let r = from_reader(&shape, &[2, 0]);
    assert!(matches!(r, Err(Error::Message(ref m)) if m == UNKNOWN_VARIANT));
}

#[test]
fn nonzero_flags_read_as_true_and_present() {
    assert!(matches!(from_bytes(&Shape::Bool, &[2]), Ok(Value::Bool(true))));
    let shape = Shape::Opt(Box::new(Shape::U8));
    let v = from_bytes(&shape, &[7, 4]).unwrap();
    assert_eq!(format!("{:?}", v), format!("{:?}", Value::Opt(Some(Box::new(Value::U8(4))))));
}

#[test]
fn an_overlong_string_fails_to_encode() {
    let long = "a".repeat(65536);
    assert!(matches!(to_vec(&Value::Str(long)), Err(Error::Message(_))));
    let fits = "a".repeat(65535);
    let bytes = to_vec(&Value::Str(fits)).unwrap();
    assert_eq!(bytes.len(), 65537);
    assert_eq!(&bytes[..3], &[255, 255, 97]);
}

#[test]
fn an_overlong_sequence_fails_to_encode() {
    let fits: Vec<Value> = (0..65535).map(|_| Value::Unit).collect();
    assert_eq!(&to_vec(&Value::List(fits)).unwrap(), &vec![255, 255]);
    let many: Vec<Value> = (0..65536).map(|_| Value::Unit).collect();
    assert!(matches!(to_vec(&Value::List(many)), Err(Error::Message(_))));
    let bytes = vec![0u8; 70000];
    assert!(matches!(to_vec(&Value::Bytes(bytes)), Err(Error::Message(_))));
}

#[test]
fn empty_aggregates_are_their_prefixes() {
    assert_eq!(to_vec(&Value::List(vec![])).unwrap(), vec![0, 0]);
    assert_eq!(to_vec(&Value::Entries(vec![])).unwrap(), vec![0, 0]);
    assert_eq!(to_vec(&Value::Bytes(vec![])).unwrap(), vec![0, 0]);
    assert_eq!(to_vec(&Value::Tuple(vec![])).unwrap(), Vec::<u8>::new());
    let shape = Shape::Entries(Box::new(Shape::Str), Box::new(Shape::U8));
    let v = from_bytes(&shape, &[0, 0]).unwrap();
    assert_eq!(format!("{:?}", v), format!("{:?}", Value::Entries(vec![])));
}

#[test]
fn encoding_twice_gives_the_same_bytes() {
    let value = Value::Tuple(vec![
        Value::I32(-7),
        string("deterministic"),
        Value::Entries(vec![(Value::U8(1), Value::Opt(None))]),
    ]);
    assert_eq!(to_vec(&value).unwrap(), to_vec(&value).unwrap());
}

#[test]
fn nested_values_round_trip() {
    let value = Value::List(vec![
        Value::Variant(1, Box::new(Value::Bytes(vec![1, 2, 3]))),
        Value::Variant(0, Box::new(Value::Entries(vec![(string("k"), Value::I64(i64::MIN))]))),
    ]);
    let shape = Shape::List(Box::new(Shape::Union(vec![
        Shape::Entries(Box::new(Shape::Str), Box::new(Shape::I64)),
        Shape::Bytes,
    ])));
    let bytes = to_vec(&value).unwrap();
    assert_eq!(
        bytes,
        vec![0, 2, 1, 0, 3, 1, 2, 3, 0, 0, 1, 0, 1, 107, 128, 0, 0, 0, 0, 0, 0, 0]
    );
    let back = from_bytes(&shape, &bytes).unwrap();
    assert_eq!(format!("{:?}", back), format!("{:?}", value));
}

#[test]
fn to_writer_appends_to_the_sink() {
    let mut sink = vec![42u8];
    to_writer(&mut sink, &Value::U16(258)).unwrap();
    assert_eq!(sink, vec![42, 1, 2]);
    let r = to_writer(&mut sink, &Value::Bytes(vec![0u8; 65536]));
    assert!(matches!(r, Err(Error::Message(_))));
    assert_eq!(sink, vec![42, 1, 2]);
}

#[test]
fn a_deserializer_reads_values_in_turn() {
    let mut de = Deserializer::from_bytes(&[0, 5, 255, 1]);
    assert!(matches!(de.deserialize(&Shape::U16), Ok(Value::U16(5))));
    assert!(matches!(de.end(), Err(Error::TrailingBytes)));
    assert!(matches!(de.deserialize(&Shape::I8), Ok(Value::I8(-1))));
    assert!(matches!(de.deserialize(&Shape::Bool), Ok(Value::Bool(true))));
    assert!(de.end().is_ok());
    let mut de = Deserializer::from_reader(vec![255, 254]);
    assert!(matches!(de.deserialize(&Shape::I16), Ok(Value::I16(-2))));
}

#[test]
fn io_errors_are_classified() {
    let eof = std::io::Error::new(std::io::ErrorKind::UnexpectedEof, "short");
    assert!(matches!(Error::io(eof), Error::EofWhileDeserializing));
    let other = std::io::Error::new(std::io::ErrorKind::Other, "broken");
    assert!(matches!(Error::io(other), Error::Io(_)));
}

#[test]
fn errors_describe_themselves() {
    assert_eq!(Error::LengthNotKnown.describe(), "length not known");
    assert_eq!(Error::InvalidString.describe(), "invalid string");
    assert_eq!(Error::InvalidChar.describe(), "invalid char");
    assert_eq!(Error::TrailingBytes.describe(), "trailing bytes");
    assert_eq!(Error::EofWhileDeserializing.describe(), "EOF while deserializing");
    assert_eq!(Error::custom("bad shape").describe(), "bad shape");
    let io = Error::io(std::io::Error::new(std::io::ErrorKind::Other, "broken"));
    assert_eq!(io.describe(), "broken");
}

#[test]
fn signed_and_wide_numbers_use_network_order() {
    assert_eq!(to_vec(&Value::I16(-2)).unwrap(), vec![255, 254]);
    assert_eq!(to_vec(&Value::I32(-2)).unwrap(), vec![255, 255, 255, 254]);
    assert_eq!(to_vec(&Value::U64(258)).unwrap(), vec![0, 0, 0, 0, 0, 0, 1, 2]);
    assert!(matches!(from_bytes(&Shape::I32, &[255, 255, 255, 254]), Ok(Value::I32(-2))));
    assert!(matches!(from_bytes(&Shape::U32, &[0, 0, 1, 2]), Ok(Value::U32(258))));
    assert!(matches!(
        from_bytes(&Shape::I64, &[255, 255, 255, 255, 255, 255, 255, 254]),
        Ok(Value::I64(-2))
    ));
    assert!(matches!(from_bytes(&Shape::U16, &[1, 2]), Ok(Value::U16(258))));
}

#[test]
fn io_errors_keep_their_kind() {
    let eof = std::io::Error::new(std::io::ErrorKind::UnexpectedEof, "eof");
    assert!(matches!(Error::io(eof), Error::EofWhileDeserializing));
    let pipe = std::io::Error::from(std::io::ErrorKind::BrokenPipe);
    match Error::io(pipe) {
        Error::Io(e) => assert_eq!(e.kind(), std::io::ErrorKind::BrokenPipe),
        other => panic!("unexpected {:?}", other),
    }
}

#[test]
fn a_prefix_decode_tells_how_many_bytes_it_took() {
    let (v, n) = decode_prefix(&Shape::Str, &[0, 2, 104, 105, 7, 7]).unwrap();
    assert_eq!(format!("{:?}", v), format!("{:?}", string("hi")));
    assert_eq!(n, 4);
    let (v, n) = decode_prefix(&Shape::Unit, &[1]).unwrap();
    assert!(matches!(v, Value::Unit));
    assert_eq!(n, 0);
    assert!(matches!(decode_prefix(&Shape::U32, &[1, 2]), Err(Error::EofWhileDeserializing)));
}

#[test]
fn a_deserializer_takes_bytes_as_they_arrive() {
    let mut de = Deserializer::from_reader(vec![]);
    assert_eq!(de.needed(&Shape::Str), 2);
    de.feed(&[0, 3, 97]);
    assert_eq!(de.remaining_len(), 3);
    assert_eq!(de.needed(&Shape::Str), 5);
    assert!(matches!(de.deserialize_string(), Err(Error::EofWhileDeserializing)));
    let mut de = Deserializer::from_reader(vec![0, 3]);
    assert_eq!(de.needed(&Shape::Str), 5);
    de.feed(&[97, 98, 99]);
    assert_eq!(de.deserialize_string().unwrap(), "abc");
    assert_eq!(de.needed(&Shape::U64), 8);
    assert_eq!(de.needed(&Shape::Tuple(vec![])), 0);
    assert!(de.end().is_ok());
}

#[test]
fn tags_and_arities_must_fit_their_bytes() {
    assert_eq!(variant_tag(255).unwrap(), 255);
    assert!(matches!(variant_tag(256), Err(Error::Message(_))));
    assert_eq!(arity_count(65535).unwrap(), 65535);
    assert!(matches!(arity_count(65536), Err(Error::Message(_))));
}
