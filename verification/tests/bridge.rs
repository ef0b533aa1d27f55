use valuebridge::{
    decode, encode, format_int, ConvertError, Document, Dynamic, HostKind, Key, Num,
};

fn text(s: &str) -> Document {
    Document::Text(s.to_string())
}

fn key(s: &str) -> Key {
    Key::Text(s.as_bytes().to_vec())
}

#[test]
fn null_encodes_to_nil_and_back() {
    assert_eq!(encode(&Document::Null), Dynamic::Nil);
    assert_eq!(decode(&Dynamic::Nil), Ok(Document::Null));
}

#[test]
fn booleans_round_trip_exactly() {
    for b in [true, false] {
        let encoded = encode(&Document::Bool(b));
        assert_eq!(encoded, Dynamic::Bool(b));
        assert_eq!(decode(&encoded), Ok(Document::Bool(b)));
    }
}

#[test]
fn integers_round_trip_exactly() {
    for i in [0i64, 1, -1, 250, i64::MIN, i64::MAX] {
        let encoded = encode(&Document::Num(Num::Int(i)));
        assert_eq!(encoded, Dynamic::Int(i));
        assert_eq!(decode(&encoded), Ok(Document::Num(Num::Int(i))));
    }
}

#[test]
fn float_bits_round_trip_exactly() {
    for f in [2.5f64, -0.0, 1.0e300, f64::NAN, f64::INFINITY] {
        let bits = f.to_bits();
        let encoded = encode(&Document::Num(Num::Float(bits)));
        assert_eq!(encoded, Dynamic::Float(bits));
        assert_eq!(decode(&encoded), Ok(Document::Num(Num::Float(bits))));
    }
}

#[test]
fn text_round_trips_exactly() {
    for s in ["", "bar", "héllo wörld", "snow\u{2603}man", "nul\u{0}inside"] {
        let encoded = encode(&text(s));
        assert_eq!(encoded, Dynamic::Text(s.as_bytes().to_vec()));
        assert_eq!(decode(&encoded), Ok(text(s)));
    }
}

#[test]
fn object_with_string_values_round_trips() {
    let doc = Document::Object(vec![
        ("foo".to_string(), text("bar")),
        ("baz".to_string(), Document::Bool(true)),
        ("nothing".to_string(), Document::Null),
    ]);
    let encoded = encode(&doc);
    assert_eq!(
        encoded,
        Dynamic::Table(vec![
            (key("foo"), Dynamic::Text(b"bar".to_vec())),
            (key("baz"), Dynamic::Bool(true)),
            (key("nothing"), Dynamic::Nil),
        ])
    );
    let expected = Document::Object(vec![
        ("foo".to_string(), text("bar")),
        ("baz".to_string(), Document::Bool(true)),
        ("nothing".to_string(), Document::Null),
    ]);
    assert_eq!(decode(&encoded), Ok(expected));
}

#[test]
fn mutated_table_decodes_with_added_pair() {
    // A document goes out to the runtime, the host adds a pair to the
    // table, and the table comes back with both pairs.
    let doc = Document::Object(vec![("foo".to_string(), text("bar"))]);
    let encoded = encode(&doc);
    let mut pairs = match encoded {
        Dynamic::Table(pairs) => pairs,
        other => panic!("encoding an object must yield a table, got {:?}", other),
    };
    assert_eq!(pairs.len(), 1);
    assert_eq!(pairs[0].0, key("foo"));
    pairs.push((key("from_lua"), Dynamic::Text(b"string value".to_vec())));
    let decoded = decode(&Dynamic::Table(pairs)).expect("mutated table must decode");
    let expected = Document::Object(vec![
        ("foo".to_string(), text("bar")),
        ("from_lua".to_string(), text("string value")),
    ]);
    assert_eq!(decoded, expected);
}

#[test]
fn array_decodes_as_object_with_stringified_indices() {
    // The documented array/object asymmetry: [10, 20, 30] comes back as
    // {"0": 10, "1": 20, "2": 30}, not as an array.
    let doc = Document::Array(vec![
        Document::Num(Num::Int(10)),
        Document::Num(Num::Int(20)),
        Document::Num(Num::Int(30)),
    ]);
    let encoded = encode(&doc);
    assert_eq!(
        encoded,
        Dynamic::Table(vec![
            (Key::Int(0), Dynamic::Int(10)),
            (Key::Int(1), Dynamic::Int(20)),
            (Key::Int(2), Dynamic::Int(30)),
        ])
    );
    let expected = Document::Object(vec![
        ("0".to_string(), Document::Num(Num::Int(10))),
        ("1".to_string(), Document::Num(Num::Int(20))),
        ("2".to_string(), Document::Num(Num::Int(30))),
    ]);
    assert_eq!(decode(&encoded), Ok(expected));
}

#[test]
fn nested_array_inside_object_is_restructured() {
    let doc = Document::Object(vec![(
        "xs".to_string(),
        Document::Array(vec![Document::Num(Num::Int(1)), Document::Bool(false)]),
    )]);
    let expected = Document::Object(vec![(
        "xs".to_string(),
        Document::Object(vec![
            ("0".to_string(), Document::Num(Num::Int(1))),
            ("1".to_string(), Document::Bool(false)),
        ]),
    )]);
    assert_eq!(decode(&encode(&doc)), Ok(expected));
}

#[test]
fn empty_array_and_object_decode_as_empty_object() {
    assert_eq!(encode(&Document::Array(vec![])), Dynamic::Table(vec![]));
    assert_eq!(encode(&Document::Object(vec![])), Dynamic::Table(vec![]));
    assert_eq!(
        decode(&Dynamic::Table(vec![])),
        Ok(Document::Object(vec![]))
    );
}

#[test]
fn host_only_values_fail_with_unconvertible_type() {
    let cases = [
        (Dynamic::Function, HostKind::Function),
        (Dynamic::Thread, HostKind::Thread),
        (Dynamic::UserData, HostKind::UserData),
        (Dynamic::LightUserData, HostKind::LightUserData),
        (Dynamic::RuntimeError, HostKind::RuntimeError),
        (Dynamic::Other, HostKind::Other),
    ];
    for (value, kind) in cases {
        assert_eq!(decode(&value), Err(ConvertError::UnconvertibleType(kind)));
    }
}

#[test]
fn nested_host_value_fails_atomically() {
    // One bad pair fails the whole table; no partial object comes back.
    let table = Dynamic::Table(vec![
        (key("ok"), Dynamic::Nil),
        (key("bad"), Dynamic::Function),
    ]);
    assert_eq!(
        decode(&table),
        Err(ConvertError::UnconvertibleType(HostKind::Function))
    );
}

#[test]
fn invalid_utf8_string_value_fails_with_invalid_encoding() {
    let bad = Dynamic::Text(vec![0xff, 0xfe, 0x20]);
    assert_eq!(decode(&bad), Err(ConvertError::InvalidEncoding));
}

#[test]
fn invalid_utf8_string_key_fails_with_invalid_encoding() {
    // A lone continuation byte is not UTF-8; the key is rejected, never
    // replaced with a substitution character.
    let table = Dynamic::Table(vec![(Key::Text(vec![0x80]), Dynamic::Nil)]);
    assert_eq!(decode(&table), Err(ConvertError::InvalidEncoding));
}

#[test]
fn key_without_string_coercion_fails_with_non_string_key() {
    let table = Dynamic::Table(vec![(Key::NonText, Dynamic::Nil)]);
    assert_eq!(decode(&table), Err(ConvertError::NonStringKey));
}

#[test]
fn later_pair_replaces_earlier_value_in_place() {
    let table = Dynamic::Table(vec![
        (key("a"), Dynamic::Int(1)),
        (key("b"), Dynamic::Int(5)),
        (key("a"), Dynamic::Int(2)),
    ]);
    let expected = Document::Object(vec![
        ("a".to_string(), Document::Num(Num::Int(2))),
        ("b".to_string(), Document::Num(Num::Int(5))),
    ]);
    assert_eq!(decode(&table), Ok(expected));
}

#[test]
fn integer_and_text_keys_coerce_to_the_same_namespace() {
    // The integer key 1 and the string key "1" coerce to the same string
    // key, so the later pair wins.
    let table = Dynamic::Table(vec![
        (Key::Int(1), Dynamic::Bool(false)),
        (key("1"), Dynamic::Bool(true)),
    ]);
    let expected = Document::Object(vec![("1".to_string(), Document::Bool(true))]);
    assert_eq!(decode(&table), Ok(expected));
}

#[test]
fn negative_integer_key_reads_in_decimal() {
    let table = Dynamic::Table(vec![(Key::Int(-5), Dynamic::Bool(true))]);
    let expected = Document::Object(vec![("-5".to_string(), Document::Bool(true))]);
    assert_eq!(decode(&table), Ok(expected));
}

#[test]
fn format_int_writes_exact_decimal() {
    assert_eq!(format_int(0), "0");
    assert_eq!(format_int(7), "7");
    assert_eq!(format_int(10), "10");
    assert_eq!(format_int(250), "250");
    assert_eq!(format_int(-1), "-1");
    assert_eq!(format_int(i64::MAX), "9223372036854775807");
    assert_eq!(format_int(i64::MIN), "-9223372036854775808");
}

#[test]
fn into_map_hands_out_the_object_pairs() {
    let doc = Document::Object(vec![
        ("k".to_string(), Document::Null),
        ("l".to_string(), Document::Bool(true)),
    ]);
    let pairs = doc.into_map();
    assert_eq!(pairs.len(), 2);
    assert_eq!(pairs[0], ("k".to_string(), Document::Null));
    assert_eq!(pairs[1], ("l".to_string(), Document::Bool(true)));
}
