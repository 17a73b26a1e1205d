use dynamodb_codec::{
    from_hashmap, to_hashmap, AttrMap, AttributeValue, Field, Shape, TypedValue,
};
use std::collections::HashSet;

fn s(x: &str) -> String {
    x.to_string()
}

fn field(name: &str, shape: Shape) -> Field {
    Field { name: s(name), shape, default: None }
}

fn internal_value(k: i32, f: f64) -> TypedValue {
    TypedValue::Struct(vec![
        (s("k"), TypedValue::I32(k)),
        (s("f"), TypedValue::Float(f.to_string())),
    ])
}

fn internal_shape() -> Shape {
    Shape::Struct(vec![field("k", Shape::I32), field("f", Shape::Float)])
}

#[test]
fn test_cant_serialize_non_struct() {
    let number = TypedValue::U8(5);
    assert!(to_hashmap(&number).is_err());
    let number = TypedValue::U16(5);
    assert!(to_hashmap(&number).is_err());
    let number = TypedValue::U32(5);
    assert!(to_hashmap(&number).is_err());
    let number = TypedValue::U64(5);
    assert!(to_hashmap(&number).is_err());

    let number = TypedValue::Float(5.1f32.to_string());
    assert!(to_hashmap(&number).is_err());
    let number = TypedValue::Float(5.2f64.to_string());
    assert!(to_hashmap(&number).is_err());

    let none = TypedValue::NoneVal;
    assert!(to_hashmap(&none).is_err());

    let some = TypedValue::SomeVal(Box::new(TypedValue::Float(13.54f64.to_string())));
    assert!(to_hashmap(&some).is_err());
}

#[test]
fn test_can_serialize_struct() {
    let value = TypedValue::Struct(vec![
        (s("i"), TypedValue::I32(5)),
        (s("f"), TypedValue::Float(10.2f32.to_string())),
    ]);
    assert!(to_hashmap(&value).is_ok())
}

#[test]
fn test_can_deserialize_struct() {
    let mut value = AttrMap::new();
    value.insert(s("i"), AttributeValue::N(s("5")));
    value.insert(s("j"), AttributeValue::N(s("12")));
    let mut intern = AttrMap::new();
    intern.insert(s("k"), AttributeValue::N(s("27")));
    value.insert(s("intern"), AttributeValue::M(intern));
    let shape = Shape::Struct(vec![
        field("i", Shape::I32),
        field("j", Shape::I32),
        field("intern", Shape::Struct(vec![field("k", Shape::I32)])),
    ]);
    let res = from_hashmap(value, &shape);
    assert!(res.is_ok());
}

#[test]
fn test_can_go_back_and_forth() {
    let value = TypedValue::Struct(vec![
        (s("i"), TypedValue::I32(18)),
        (s("j"), TypedValue::I32(74)),
        (s("f"), TypedValue::Float(21.55f32.to_string())),
        (s("d"), TypedValue::Float((-45206.153f64).to_string())),
        (s("b"), TypedValue::U8(13)),
        (s("u"), TypedValue::U32(312)),
        (s("c"), TypedValue::Char(0 as u8 as char)),
        (s("intern"), internal_value(512, 13.54)),
        (
            s("list"),
            TypedValue::SeqVal(vec![
                TypedValue::I32(0),
                TypedValue::I32(2),
                TypedValue::I32(5),
            ]),
        ),
        (s("some"), TypedValue::SomeVal(Box::new(internal_value(120, 144.304)))),
        (s("none"), TypedValue::NoneVal),
        (
            s("complex"),
            TypedValue::SeqVal(vec![
                TypedValue::NoneVal,
                TypedValue::SomeVal(Box::new(internal_value(10, 12.56))),
            ]),
        ),
    ]);
    let shape = Shape::Struct(vec![
        field("i", Shape::I32),
        field("j", Shape::I32),
        field("f", Shape::Float),
        field("d", Shape::Float),
        field("b", Shape::U8),
        field("u", Shape::U32),
        field("c", Shape::Char),
        field("intern", internal_shape()),
        field("list", Shape::SeqOf(Box::new(Shape::I32))),
        field("some", Shape::Optional(Box::new(internal_shape()))),
        field("none", Shape::Optional(Box::new(internal_shape()))),
        field("complex", Shape::SeqOf(Box::new(Shape::Optional(Box::new(internal_shape()))))),
    ]);
    let hm = to_hashmap(&value).unwrap();
    let out = from_hashmap(hm, &shape).unwrap();
    assert_eq!(value, out);
}

#[test]
fn test_can_serialize_struct_leveled() {
    let value = TypedValue::Struct(vec![(
        s("intern"),
        TypedValue::Struct(vec![(s("i"), TypedValue::I32(5))]),
    )]);
    assert!(to_hashmap(&value).is_ok())
}

#[test]
fn test_can_create_struct_custom_serialization() {
    let x_y: u8 = 100;
    let x = x_y / 2 - 1;
    let y = x_y / 2 + 1;
    let value = TypedValue::Struct(vec![
        (s("x"), TypedValue::Str(x.to_string())),
        (s("y"), TypedValue::Str(y.to_string())),
    ]);
    let hm = to_hashmap(&value).unwrap();
    let point_result = from_hashmap(hm, &Shape::MapOf(Box::new(Shape::Str)));
    assert!(point_result.is_ok())
}

#[test]
fn test_can_deserialize_hashset() {
    let mut value = AttrMap::new();
    value.insert(
        s("bar"),
        AttributeValue::SS(vec![s("foo"), s("bar")]),
    );
    value.insert(
        s("baz"),
        AttributeValue::NS(vec![s("3"), s("4"), s("5")]),
    );
    let shape = Shape::Struct(vec![
        field("bar", Shape::SeqOf(Box::new(Shape::Str))),
        field("baz", Shape::SeqOf(Box::new(Shape::U32))),
    ]);
    let foo = from_hashmap(value, &shape).unwrap();
    let fields = match foo {
        TypedValue::Struct(fields) => fields,
        _ => panic!("expected a struct"),
    };
    let bar: HashSet<String> = match &fields[0].1 {
        TypedValue::SeqVal(items) => items
            .iter()
            .map(|i| match i {
                TypedValue::Str(x) => x.clone(),
                _ => panic!("expected a string"),
            })
            .collect(),
        _ => panic!("expected a sequence"),
    };
    let mut expected = HashSet::new();
    expected.insert(s("foo"));
    expected.insert(s("bar"));
    assert_eq!(bar, expected);

    let baz: HashSet<u32> = match &fields[1].1 {
        TypedValue::SeqVal(items) => items
            .iter()
            .map(|i| match i {
                TypedValue::U32(x) => *x,
                _ => panic!("expected a number"),
            })
            .collect(),
        _ => panic!("expected a sequence"),
    };
    let mut expected = HashSet::new();
    expected.insert(3);
    expected.insert(4);
    expected.insert(5);
    assert_eq!(baz, expected);
}
