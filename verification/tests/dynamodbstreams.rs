use dynamodb_codec::{
    from_hashmap, to_hashmap, AttrMap, AttributeValue, Field, Shape, TypedValue, Variant,
    VariantShape,
};
use std::collections::HashSet;

fn s(x: &str) -> String {
    x.to_string()
}

fn field(name: &str, shape: Shape) -> Field {
    Field { name: s(name), shape, default: None }
}

fn dfield(name: &str, shape: Shape, default: TypedValue) -> Field {
    Field { name: s(name), shape, default: Some(default) }
}

fn internal_value(k: i32, f: f64) -> TypedValue {
    TypedValue::Struct(vec![
        (s("k"), TypedValue::I32(k)),
        (s("f"), TypedValue::Float(f.to_string())),
    ])
}

fn internal_shape() -> Shape {
    Shape::Struct(vec![field("k", Shape::I32), field("f", Shape::Float)])
}

fn my_enum_shape() -> Shape {
    Shape::Enum(vec![
        Variant { name: s("Unit"), payload: VariantShape::Unit },
        Variant { name: s("Newtype"), payload: VariantShape::Newtype(Box::new(Shape::I32)) },
        Variant {
            name: s("Tuple"),
            payload: VariantShape::TupleLike(vec![Shape::I32, Shape::Bool]),
        },
        Variant { name: s("Struct"), payload: VariantShape::StructLike(vec![field("f", Shape::I32)]) },
    ])
}

fn round_trip(value: TypedValue, shape: &Shape) -> TypedValue {
    let serialized = to_hashmap(&value).unwrap();
    let deserialized = from_hashmap(serialized, shape);
    assert!(deserialized.is_ok());
    deserialized.unwrap()
}

#[test]
fn dynamodbstreams_can_serialize_struct() {
    let value = TypedValue::Struct(vec![
        (s("i"), TypedValue::I32(5)),
        (s("f"), TypedValue::Float(10.2f32.to_string())),
    ]);
    assert!(to_hashmap(&value).is_ok())
}

#[test]
fn dynamodbstreams_can_deserialize_struct() {
    let mut value = AttrMap::new();
    value.insert(s("i"), AttributeValue::N(s("5")));
    value.insert(s("j"), AttributeValue::N(s("12")));
    let mut intern = AttrMap::new();
    intern.insert(s("k"), AttributeValue::N(s("27")));
    value.insert(s("intern"), AttributeValue::M(intern));
    let shape = Shape::Struct(vec![
        field("i", Shape::I32),
        field("j", Shape::I32),
        field("intern", Shape::Struct(vec![field("k", Shape::I32)])),
    ]);
    let res = from_hashmap(value, &shape);
    assert!(res.is_ok());
}

#[test]
fn dynamodbstreams_can_go_back_and_forth() {
    let value = TypedValue::Struct(vec![
        (s("i"), TypedValue::I32(18)),
        (s("j"), TypedValue::I32(74)),
        (s("f"), TypedValue::Float(21.55f32.to_string())),
        (s("d"), TypedValue::Float((-45206.153f64).to_string())),
        (s("b"), TypedValue::U8(13)),
        (s("u"), TypedValue::U32(312)),
        (s("c"), TypedValue::Char(0 as u8 as char)),
        (s("e1"), TypedValue::EnumUnit(s("Unit"))),
        (s("e2"), TypedValue::EnumNewtype(s("Newtype"), Box::new(TypedValue::I32(5)))),
        (
            s("e3"),
            TypedValue::EnumTuple(s("Tuple"), vec![TypedValue::I32(12), TypedValue::Bool(false)]),
        ),
        (
            s("e4"),
            TypedValue::EnumStruct(s("Struct"), vec![(s("f"), TypedValue::I32(27))]),
        ),
        (s("intern"), internal_value(512, 13.54)),
        (
            s("list"),
            TypedValue::SeqVal(vec![
                TypedValue::I32(0),
                TypedValue::I32(2),
                TypedValue::I32(5),
            ]),
        ),
        (s("some"), TypedValue::SomeVal(Box::new(internal_value(120, 144.304)))),
        (s("none"), TypedValue::NoneVal),
        (
            s("complex"),
            TypedValue::SeqVal(vec![
                TypedValue::NoneVal,
                TypedValue::SomeVal(Box::new(internal_value(10, 12.56))),
            ]),
        ),
        (s("unit"), TypedValue::Unit),
        (s("unit_struct"), TypedValue::Unit),
    ]);
    let shape = Shape::Struct(vec![
        field("i", Shape::I32),
        field("j", Shape::I32),
        field("f", Shape::Float),
        field("d", Shape::Float),
        field("b", Shape::U8),
        field("u", Shape::U32),
        field("c", Shape::Char),
        field("e1", my_enum_shape()),
        field("e2", my_enum_shape()),
        field("e3", my_enum_shape()),
        field("e4", my_enum_shape()),
        field("intern", internal_shape()),
        field("list", Shape::SeqOf(Box::new(Shape::I32))),
        field("some", Shape::Optional(Box::new(internal_shape()))),
        field("none", Shape::Optional(Box::new(internal_shape()))),
        field("complex", Shape::SeqOf(Box::new(Shape::Optional(Box::new(internal_shape()))))),
        field("unit", Shape::Unit),
        field("unit_struct", Shape::Unit),
    ]);
    let hm = to_hashmap(&value).unwrap();
    let out = from_hashmap(hm, &shape).unwrap();
    assert_eq!(value, out);
}

#[test]
fn dynamodbstreams_can_serialize_struct_leveled() {
    let value = TypedValue::Struct(vec![(
        s("intern"),
        TypedValue::Struct(vec![(s("i"), TypedValue::I32(5))]),
    )]);
    assert!(to_hashmap(&value).is_ok())
}

#[test]
fn dynamodbstreams_can_create_struct_custom_serialization() {
    let x_y: u8 = 100;
    let x = x_y / 2 - 1;
    let y = x_y / 2 + 1;
    let value = TypedValue::Struct(vec![
        (s("x"), TypedValue::Str(x.to_string())),
        (s("y"), TypedValue::Str(y.to_string())),
    ]);
    let hm = to_hashmap(&value).unwrap();
    let decoded = from_hashmap(hm, &Shape::MapOf(Box::new(Shape::Str)));
    assert!(decoded.is_ok());
    let mut x_str = String::new();
    let mut y_str = String::new();
    match decoded.unwrap() {
        TypedValue::MapVal(pairs) => {
            for (key, val) in pairs {
                let k = match key {
                    TypedValue::Str(k) => k,
                    _ => panic!("Serialization failed!"),
                };
                let v = match val {
                    TypedValue::Str(v) => v,
                    _ => panic!("Serialization failed!"),
                };
                if k == "x" {
                    x_str = v;
                } else if k == "y" {
                    y_str = v;
                } else {
                    panic!("Serialization failed!")
                }
            }
        },
        _ => panic!("Serialization failed!"),
    }
    let num_x: u8 = x_str.parse::<u8>().unwrap();
    let num_y: u8 = y_str.parse::<u8>().unwrap();
    assert!(num_x + num_y == x_y);
}

#[test]
fn dynamodbstreams_can_deserialize_hashset() {
    let mut value = AttrMap::new();
    value.insert(
        s("bar"),
        AttributeValue::SS(vec![s("foo"), s("bar")]),
    );
    value.insert(
        s("baz"),
        AttributeValue::NS(vec![s("3"), s("4"), s("5")]),
    );
    let shape = Shape::Struct(vec![
        field("bar", Shape::SeqOf(Box::new(Shape::Str))),
        field("baz", Shape::SeqOf(Box::new(Shape::U32))),
    ]);
    let foo = from_hashmap(value, &shape).unwrap();
    let fields = match foo {
        TypedValue::Struct(fields) => fields,
        _ => panic!("expected a struct"),
    };
    let bar: HashSet<String> = match &fields[0].1 {
        TypedValue::SeqVal(items) => items
            .iter()
            .map(|i| match i {
                TypedValue::Str(x) => x.clone(),
                _ => panic!("expected a string"),
            })
            .collect(),
        _ => panic!("expected a sequence"),
    };
    let mut expected = HashSet::new();
    expected.insert(s("foo"));
    expected.insert(s("bar"));
    assert_eq!(bar, expected);

    let baz: HashSet<u32> = match &fields[1].1 {
        TypedValue::SeqVal(items) => items
            .iter()
            .map(|i| match i {
                TypedValue::U32(x) => *x,
                _ => panic!("expected a number"),
            })
            .collect(),
        _ => panic!("expected a sequence"),
    };
    let mut expected = HashSet::new();
    expected.insert(3);
    expected.insert(4);
    expected.insert(5);
    assert_eq!(baz, expected);
}

#[test]
fn dynamodbstreams_can_be_missing_with_default() {
    let priority_shape = Shape::Enum(vec![
        Variant { name: s("ExtraHigh"), payload: VariantShape::Unit },
        Variant { name: s("High"), payload: VariantShape::Unit },
        Variant { name: s("Normal"), payload: VariantShape::Unit },
        Variant { name: s("Low"), payload: VariantShape::Unit },
        Variant { name: s("ExtraLow"), payload: VariantShape::Unit },
    ]);
    let shape = Shape::Struct(vec![
        dfield("resource", Shape::Str, TypedValue::Str(s("/"))),
        dfield("timeout", Shape::U32, TypedValue::U32(30)),
        dfield("priority", priority_shape, TypedValue::EnumUnit(s("ExtraLow"))),
    ]);
    let value = AttrMap::new();
    let request = from_hashmap(value, &shape).unwrap();
    let fields = match request {
        TypedValue::Struct(fields) => fields,
        _ => panic!("expected a struct"),
    };
    assert_eq!(fields[0].1, TypedValue::Str(s("/")));
    assert_eq!(fields[1].1, TypedValue::U32(30));
    assert_eq!(fields[2].1, TypedValue::EnumUnit(s("ExtraLow")));
}

#[test]
fn dynamodbstreams_can_serialize_bytes() {
    let original = TypedValue::Struct(vec![(
        s("b"),
        TypedValue::Bytes(vec![2, 3, 5, 7, 11, 13, 17, 19, 23, 29]),
    )]);
    let shape = Shape::Struct(vec![field("b", Shape::Bytes)]);
    let out = round_trip(original, &shape);
    let original = TypedValue::Struct(vec![(
        s("b"),
        TypedValue::Bytes(vec![2, 3, 5, 7, 11, 13, 17, 19, 23, 29]),
    )]);
    assert_eq!(original, out);
}

#[test]
fn dynamodbstreams_can_serialize_tuple() {
    let original = TypedValue::Tuple(vec![TypedValue::U32(1), TypedValue::Str(s("a"))]);
    let shape = Shape::Tuple(vec![Shape::U32, Shape::Str]);
    let out = round_trip(original, &shape);
    let original = TypedValue::Tuple(vec![TypedValue::U32(1), TypedValue::Str(s("a"))]);
    assert_eq!(original, out);
}

#[test]
fn dynamodbstreams_can_serialize_tuple_in_struct() {
    let make = || {
        TypedValue::Struct(vec![(
            s("t"),
            TypedValue::Tuple(vec![TypedValue::U32(1), TypedValue::Str(s("a"))]),
        )])
    };
    let shape = Shape::Struct(vec![field("t", Shape::Tuple(vec![Shape::U32, Shape::Str]))]);
    let out = round_trip(make(), &shape);
    assert_eq!(make(), out);
}

#[test]
fn dynamodbstreams_can_serialize_tuple_struct() {
    let make = || {
        TypedValue::Tuple(vec![
            TypedValue::I32(1),
            TypedValue::I32(2),
            TypedValue::Bool(false),
        ])
    };
    let shape = Shape::Tuple(vec![Shape::I32, Shape::I32, Shape::Bool]);
    let out = round_trip(make(), &shape);
    assert_eq!(make(), out);
}

#[test]
fn dynamodbstreams_can_serialize_hashmap() {
    let make = || {
        TypedValue::Struct(vec![(
            s("hm"),
            TypedValue::MapVal(vec![
                (TypedValue::Str(s("a")), TypedValue::Str(s("hoho"))),
                (TypedValue::Str(s("b")), TypedValue::Str(s("haha"))),
            ]),
        )])
    };
    let shape = Shape::Struct(vec![field("hm", Shape::MapOf(Box::new(Shape::Str)))]);
    let out = round_trip(make(), &shape);
    assert_eq!(make(), out);
}

#[test]
fn can_serialize_enum() {
    let shape = my_enum_shape();
    let out = round_trip(TypedValue::EnumUnit(s("Unit")), &shape);
    assert_eq!(TypedValue::EnumUnit(s("Unit")), out);
    let out = round_trip(
        TypedValue::EnumNewtype(s("Newtype"), Box::new(TypedValue::I32(5))),
        &shape,
    );
    assert_eq!(TypedValue::EnumNewtype(s("Newtype"), Box::new(TypedValue::I32(5))), out);
    let out = round_trip(
        TypedValue::EnumTuple(s("Tuple"), vec![TypedValue::I32(5), TypedValue::Bool(false)]),
        &shape,
    );
    assert_eq!(
        TypedValue::EnumTuple(s("Tuple"), vec![TypedValue::I32(5), TypedValue::Bool(false)]),
        out
    );
    let out = round_trip(
        TypedValue::EnumStruct(s("Struct"), vec![(s("f"), TypedValue::I32(7))]),
        &shape,
    );
    assert_eq!(TypedValue::EnumStruct(s("Struct"), vec![(s("f"), TypedValue::I32(7))]), out);
}

#[test]
fn can_serialize_enum_in_struct() {
    let shape = Shape::Struct(vec![field("my_enum", my_enum_shape())]);
    let wrap = |e: TypedValue| TypedValue::Struct(vec![(s("my_enum"), e)]);
    let out = round_trip(wrap(TypedValue::EnumUnit(s("Unit"))), &shape);
    assert_eq!(wrap(TypedValue::EnumUnit(s("Unit"))), out);
    let out = round_trip(
        wrap(TypedValue::EnumNewtype(s("Newtype"), Box::new(TypedValue::I32(5)))),
        &shape,
    );
    assert_eq!(
        wrap(TypedValue::EnumNewtype(s("Newtype"), Box::new(TypedValue::I32(5)))),
        out
    );
    let out = round_trip(
        wrap(TypedValue::EnumTuple(
            s("Tuple"),
            vec![TypedValue::I32(5), TypedValue::Bool(false)],
        )),
        &shape,
    );
    assert_eq!(
        wrap(TypedValue::EnumTuple(
            s("Tuple"),
            vec![TypedValue::I32(5), TypedValue::Bool(false)],
        )),
        out
    );
    let out = round_trip(
        wrap(TypedValue::EnumStruct(s("Struct"), vec![(s("f"), TypedValue::I32(7))])),
        &shape,
    );
    assert_eq!(
        wrap(TypedValue::EnumStruct(s("Struct"), vec![(s("f"), TypedValue::I32(7))])),
        out
    );
}
