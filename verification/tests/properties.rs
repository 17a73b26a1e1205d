use dynamodb_codec::{
    clone_typed, from_hashmap, to_hashmap, AttrMap, AttributeValue, Deserializer, ErrorKind,
    Field, Serializer, Shape, SimpleKeySerializer, TypedValue, Variant, VariantShape,
};

fn s(x: &str) -> String {
    x.to_string()
}

fn field(name: &str, shape: Shape) -> Field {
    Field { name: s(name), shape, default: None }
}

fn internal_value(k: i32, f: f64) -> TypedValue {
    TypedValue::Struct(vec![
        (s("k"), TypedValue::I32(k)),
        (s("f"), TypedValue::Float(f.to_string())),
    ])
}

fn internal_shape() -> Shape {
    Shape::Struct(vec![field("k", Shape::I32), field("f", Shape::Float)])
}

#[test]
fn concrete_scenario_round_trip() {
    let make = || {
        TypedValue::Struct(vec![
            (s("i"), TypedValue::I32(18)),
            (s("intern"), internal_value(512, 13.54)),
            (
                s("list"),
                TypedValue::SeqVal(vec![
                    TypedValue::I32(0),
                    TypedValue::I32(2),
                    TypedValue::I32(5),
                ]),
            ),
            (s("some"), TypedValue::SomeVal(Box::new(internal_value(120, 144.3)))),
            (s("none"), TypedValue::NoneVal),
        ])
    };
    let shape = Shape::Struct(vec![
        field("i", Shape::I32),
        field("intern", internal_shape()),
        field("list", Shape::SeqOf(Box::new(Shape::I32))),
        field("some", Shape::Optional(Box::new(internal_shape()))),
        field("none", Shape::Optional(Box::new(internal_shape()))),
    ]);
    let hm = to_hashmap(&make()).unwrap();
    let out = from_hashmap(hm, &shape).unwrap();
    let fields = match &out {
        TypedValue::Struct(fields) => fields,
        _ => panic!("expected a struct"),
    };
    assert_eq!(fields[0].1, TypedValue::I32(18));
    assert_eq!(fields[1].1, internal_value(512, 13.54));
    assert_eq!(
        fields[2].1,
        TypedValue::SeqVal(vec![TypedValue::I32(0), TypedValue::I32(2), TypedValue::I32(5)])
    );
    assert_eq!(
        fields[3].1,
        TypedValue::SomeVal(Box::new(internal_value(120, 144.3)))
    );
    assert_eq!(fields[4].1, TypedValue::NoneVal);
    assert_eq!(make(), out);
}

#[test]
fn root_rejection_kind_is_missing_aggregate_root() {
    let e = to_hashmap(&TypedValue::I64(7)).unwrap_err();
    assert_eq!(e.kind, ErrorKind::MissingAggregateRoot);
    let e = to_hashmap(&TypedValue::Str(s("bare"))).unwrap_err();
    assert_eq!(e.kind, ErrorKind::MissingAggregateRoot);
    let e = to_hashmap(&TypedValue::SeqVal(vec![TypedValue::I32(1)])).unwrap_err();
    assert_eq!(e.kind, ErrorKind::MissingAggregateRoot);
    // Aggregates are accepted: a no-payload variant at the root included.
    assert!(to_hashmap(&TypedValue::EnumUnit(s("On"))).is_ok());
    assert!(to_hashmap(&TypedValue::Tuple(vec![TypedValue::I32(1)])).is_ok());
}

#[test]
fn numeric_fidelity_at_width_bounds() {
    let shape = Shape::Struct(vec![field("n", Shape::I64)]);
    let value = TypedValue::Struct(vec![(s("n"), TypedValue::I64(i64::MIN))]);
    let hm = to_hashmap(&value).unwrap();
    match hm.get(&s("n")) {
        Some(AttributeValue::N(text)) => assert_eq!(text, "-9223372036854775808"),
        _ => panic!("expected a number"),
    }
    let out = from_hashmap(hm, &shape).unwrap();
    assert_eq!(value, out);

    let shape = Shape::Struct(vec![field("n", Shape::U64)]);
    let value = TypedValue::Struct(vec![(s("n"), TypedValue::U64(u64::MAX))]);
    let hm = to_hashmap(&value).unwrap();
    match hm.get(&s("n")) {
        Some(AttributeValue::N(text)) => assert_eq!(text, "18446744073709551615"),
        _ => panic!("expected a number"),
    }
    let out = from_hashmap(hm, &shape).unwrap();
    assert_eq!(value, out);
}

#[test]
fn out_of_range_numbers_fail_invalid_type() {
    let stored = |text: &str| {
        let mut m = AttrMap::new();
        m.insert(s("n"), AttributeValue::N(s(text)));
        m
    };
    let i8_shape = Shape::Struct(vec![field("n", Shape::I8)]);
    let u8_shape = Shape::Struct(vec![field("n", Shape::U8)]);

    assert_eq!(
        from_hashmap(stored("127"), &i8_shape).unwrap(),
        TypedValue::Struct(vec![(s("n"), TypedValue::I8(127))])
    );
    assert_eq!(from_hashmap(stored("128"), &i8_shape).unwrap_err().kind, ErrorKind::InvalidType);
    assert_eq!(from_hashmap(stored("-129"), &i8_shape).unwrap_err().kind, ErrorKind::InvalidType);
    assert_eq!(
        from_hashmap(stored("-128"), &i8_shape).unwrap(),
        TypedValue::Struct(vec![(s("n"), TypedValue::I8(-128))])
    );
    // An unsigned target rejects any sign but an explicit plus, and garbage.
    assert_eq!(from_hashmap(stored("-0"), &u8_shape).unwrap_err().kind, ErrorKind::InvalidType);
    assert_eq!(
        from_hashmap(stored("+5"), &u8_shape).unwrap(),
        TypedValue::Struct(vec![(s("n"), TypedValue::U8(5))])
    );
    assert_eq!(
        from_hashmap(stored("007"), &u8_shape).unwrap(),
        TypedValue::Struct(vec![(s("n"), TypedValue::U8(7))])
    );
    assert_eq!(from_hashmap(stored("7a"), &u8_shape).unwrap_err().kind, ErrorKind::InvalidType);
    assert_eq!(from_hashmap(stored(""), &u8_shape).unwrap_err().kind, ErrorKind::InvalidType);
    assert_eq!(
        from_hashmap(stored("99999999999999999999999"), &u8_shape).unwrap_err().kind,
        ErrorKind::InvalidType
    );
}

#[test]
fn set_and_list_sources_decode_alike() {
    let shape = Shape::Struct(vec![field("xs", Shape::SeqOf(Box::new(Shape::U32)))]);
    let mut from_set = AttrMap::new();
    from_set.insert(s("xs"), AttributeValue::NS(vec![s("3"), s("4"), s("5")]));
    let mut from_list = AttrMap::new();
    from_list.insert(
        s("xs"),
        AttributeValue::L(vec![
            AttributeValue::N(s("3")),
            AttributeValue::N(s("4")),
            AttributeValue::N(s("5")),
        ]),
    );
    let a = from_hashmap(from_set, &shape).unwrap();
    let b = from_hashmap(from_list, &shape).unwrap();
    assert_eq!(a, b);
    assert_eq!(
        a,
        TypedValue::Struct(vec![(
            s("xs"),
            TypedValue::SeqVal(vec![
                TypedValue::U32(3),
                TypedValue::U32(4),
                TypedValue::U32(5),
            ]),
        )])
    );

    let shape = Shape::Struct(vec![field("bs", Shape::SeqOf(Box::new(Shape::Bytes)))]);
    let mut from_set = AttrMap::new();
    from_set.insert(s("bs"), AttributeValue::BS(vec![vec![1, 2], vec![3]]));
    let out = from_hashmap(from_set, &shape).unwrap();
    assert_eq!(
        out,
        TypedValue::Struct(vec![(
            s("bs"),
            TypedValue::SeqVal(vec![
                TypedValue::Bytes(vec![1, 2]),
                TypedValue::Bytes(vec![3]),
            ]),
        )])
    );
}

#[test]
fn enum_tagging_wire_shape() {
    // A no-payload variant yields only the tag entry.
    let value = TypedValue::Struct(vec![(s("kind"), TypedValue::EnumUnit(s("Dog")))]);
    let hm = to_hashmap(&value).unwrap();
    let inner = match hm.get(&s("kind")) {
        Some(AttributeValue::M(inner)) => inner,
        _ => panic!("expected a nested map"),
    };
    match inner.get(&s("___enum_tag")) {
        Some(AttributeValue::S(name)) => assert_eq!(name, "Dog"),
        _ => panic!("expected the tag"),
    }
    assert!(inner.get(&s("___enum_values")).is_none());
    assert_eq!(inner.len(), 1);

    // A single-payload variant places the payload under `"_0"`.
    let value = TypedValue::Struct(vec![(
        s("kind"),
        TypedValue::EnumNewtype(s("Leash"), Box::new(TypedValue::U32(7))),
    )]);
    let hm = to_hashmap(&value).unwrap();
    let inner = match hm.get(&s("kind")) {
        Some(AttributeValue::M(inner)) => inner,
        _ => panic!("expected a nested map"),
    };
    let values = match inner.get(&s("___enum_values")) {
        Some(AttributeValue::M(values)) => values,
        _ => panic!("expected the payload map"),
    };
    match values.get(&s("_0")) {
        Some(AttributeValue::N(text)) => assert_eq!(text, "7"),
        _ => panic!("expected the payload"),
    }

    // On decode, a bare string names a no-payload variant.
    let shape = Shape::Struct(vec![field(
        "kind",
        Shape::Enum(vec![
            Variant { name: s("Dog"), payload: VariantShape::Unit },
            Variant { name: s("Cat"), payload: VariantShape::Unit },
        ]),
    )]);
    let mut short = AttrMap::new();
    short.insert(s("kind"), AttributeValue::S(s("Dog")));
    let out = from_hashmap(short, &shape).unwrap();
    assert_eq!(out, TypedValue::Struct(vec![(s("kind"), TypedValue::EnumUnit(s("Dog")))]));
}

#[test]
fn empty_string_field_is_omitted_and_restored() {
    let value = TypedValue::Struct(vec![
        (s("name"), TypedValue::Str(s(""))),
        (s("blob"), TypedValue::Bytes(vec![])),
        (s("age"), TypedValue::U8(3)),
    ]);
    let hm = to_hashmap(&value).unwrap();
    // The empty string and empty byte string are omitted from the wire map.
    assert!(hm.get(&s("name")).is_none());
    assert!(hm.get(&s("blob")).is_none());
    assert_eq!(hm.len(), 1);
    // Decoding restores them as their empty values.
    let shape = Shape::Struct(vec![
        field("name", Shape::Str),
        field("blob", Shape::Bytes),
        field("age", Shape::U8),
    ]);
    let out = from_hashmap(hm, &shape).unwrap();
    assert_eq!(value, out);
}

#[test]
fn char_encodes_as_single_character_string() {
    let value = TypedValue::Struct(vec![(s("c"), TypedValue::Char('x'))]);
    let hm = to_hashmap(&value).unwrap();
    match hm.get(&s("c")) {
        Some(AttributeValue::S(text)) => assert_eq!(text, "x"),
        _ => panic!("expected a string"),
    }
    let out = from_hashmap(hm, &Shape::Struct(vec![field("c", Shape::Char)])).unwrap();
    assert_eq!(value, out);
}

#[test]
fn error_kinds_cover_the_failure_modes() {
    // A composite map key is rejected.
    let value = TypedValue::Struct(vec![(
        s("m"),
        TypedValue::MapVal(vec![(TypedValue::NoneVal, TypedValue::I32(1))]),
    )]);
    assert_eq!(to_hashmap(&value).unwrap_err().kind, ErrorKind::UnsupportedKeyType);

    // A byte-string map key is not representable.
    let value = TypedValue::Struct(vec![(
        s("m"),
        TypedValue::MapVal(vec![(TypedValue::Bytes(vec![1]), TypedValue::I32(1))]),
    )]);
    assert_eq!(to_hashmap(&value).unwrap_err().kind, ErrorKind::UnsupportedShape);

    // A required position that is absent is missing.
    let shape = Shape::Struct(vec![field("flag", Shape::Bool)]);
    let e = from_hashmap(AttrMap::new(), &shape).unwrap_err();
    assert_eq!(e.kind, ErrorKind::MissingField);
    assert_eq!(e.key, s("flag"));

    // A wrong wire variant is an invalid type.
    let mut m = AttrMap::new();
    m.insert(s("flag"), AttributeValue::S(s("yes")));
    assert_eq!(from_hashmap(m, &shape).unwrap_err().kind, ErrorKind::InvalidType);
}

#[test]
fn map_keys_serialize_to_their_string_forms() {
    let value = TypedValue::Struct(vec![(
        s("m"),
        TypedValue::MapVal(vec![
            (TypedValue::Bool(true), TypedValue::I32(1)),
            (TypedValue::I32(-5), TypedValue::I32(2)),
            (TypedValue::U64(9), TypedValue::I32(3)),
            (TypedValue::Char('z'), TypedValue::I32(4)),
        ]),
    )]);
    let hm = to_hashmap(&value).unwrap();
    let inner = match hm.get(&s("m")) {
        Some(AttributeValue::M(inner)) => inner,
        _ => panic!("expected a nested map"),
    };
    assert!(inner.get(&s("true")).is_some());
    assert!(inner.get(&s("-5")).is_some());
    assert!(inner.get(&s("9")).is_some());
    assert!(inner.get(&s("z")).is_some());
}

#[test]
fn simple_key_serializer_produces_scalar_strings() {
    let mut ks = SimpleKeySerializer::new();
    ks.serialize_str(&s("surname"));
    assert_eq!(ks.get_result(), s("surname"));
    let mut ks = SimpleKeySerializer::new();
    ks.serialize_i64(-42);
    assert_eq!(ks.get_result(), s("-42"));
    let mut ks = SimpleKeySerializer::new();
    ks.serialize_bool(false);
    assert_eq!(ks.get_result(), s("false"));
    let mut ks = SimpleKeySerializer::new();
    assert_eq!(ks.serialize_bytes().unwrap_err().kind, ErrorKind::UnsupportedShape);
    let mut ks = SimpleKeySerializer::new();
    assert_eq!(ks.serialize_composite().unwrap_err().kind, ErrorKind::UnsupportedKeyType);
}

#[test]
fn serializer_and_deserializer_drive_the_codec() {
    let value = TypedValue::Struct(vec![(s("age"), TypedValue::U8(8))]);
    let mut ser = Serializer::new();
    ser.serialize_item(&value).unwrap();
    let de = Deserializer::new(ser.root);
    let out = de.deserialize_item(&Shape::Struct(vec![field("age", Shape::U8)])).unwrap();
    assert_eq!(value, out);
    let copy = clone_typed(&out);
    assert_eq!(copy, out);
}

#[test]
fn best_effort_decode_sniffs_the_populated_variant() {
    let mut m = AttrMap::new();
    m.insert(s("n"), AttributeValue::N(s("8")));
    m.insert(s("name"), AttributeValue::S(s("Fido")));
    m.insert(s("flag"), AttributeValue::Bool(true));
    m.insert(s("gone"), AttributeValue::Null);
    m.insert(s("tags"), AttributeValue::SS(vec![s("a"), s("b")]));
    let shape = Shape::Struct(vec![
        field("n", Shape::Any),
        field("name", Shape::Any),
        field("flag", Shape::Any),
        field("gone", Shape::Any),
        field("tags", Shape::Any),
    ]);
    let out = from_hashmap(m, &shape).unwrap();
    assert_eq!(
        out,
        TypedValue::Struct(vec![
            (s("n"), TypedValue::Float(s("8"))),
            (s("name"), TypedValue::Str(s("Fido"))),
            (s("flag"), TypedValue::Bool(true)),
            (s("gone"), TypedValue::Unit),
            (
                s("tags"),
                TypedValue::SeqVal(vec![TypedValue::Str(s("a")), TypedValue::Str(s("b"))]),
            ),
        ])
    );
}

#[test]
fn reserved_key_as_plain_struct_field_name() {
    // The tag key is reserved for the sum-type protocol; as a plain struct
    // field name it still travels as an ordinary key, which is the
    // documented behavior for this unsupported corner.
    let value = TypedValue::Struct(vec![(s("___enum_tag"), TypedValue::Str(s("odd")))]);
    let shape = Shape::Struct(vec![field("___enum_tag", Shape::Str)]);
    let hm = to_hashmap(&value).unwrap();
    let out = from_hashmap(hm, &shape).unwrap();
    assert_eq!(value, out);
}
