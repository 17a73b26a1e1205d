//! The decoder: walks an attribute-value map, driven by the [`Shape`] the
//! caller requests, and rebuilds a typed value.
//!
//! Contract by requested shape: scalars read their matching wire variant and
//! fail `InvalidType` on any other populated variant or unparsable number;
//! an absent required position fails `MissingField`, except that an absent
//! string or byte string decodes to its empty value (mirroring the encoder's
//! omission rule) and an absent optional decodes to the absent value.
//! Sequence targets read `L`, `NS`, `SS`, or `BS` alike; tuple targets read
//! the positional keys `"_0"`, `"_1"`, … and stop at the first missing
//! index; struct targets are driven by their expected field set (unknown
//! stored keys are ignored, absent expected keys fall back per field);
//! sum-type targets follow the shared tag protocol, accepting a bare string
//! as a short form for a no-payload variant at non-root positions.

use vstd::prelude::*;
use crate::attr::{av_view, avs_view, map_get, AttrMap, AttrV, AttributeValue};
use crate::error::{Error, ErrorKind};
use crate::num::{dec_to_int, has_minus, parse_i64_bounded, parse_u64_bounded};
use crate::ser::{tag_key, tuple_key, values_key};
use crate::shape::{find_variant, variant_get, Field, Shape, Variant, VariantShape};
use crate::typed::{tv_view, TypedV, TypedValue};

verus! {

/// The decoding of the attribute found (or missing) at a position, driven by
/// the requested shape.
pub open spec fn dec_at(oa: Option<AttrV>, shape: Shape) -> Result<TypedV, ErrorKind>
    decreases shape, 0int, 0int,
{
    match shape {
        Shape::Bool => match oa {
            Option::None => Result::Err(ErrorKind::MissingField),
            Option::Some(a) => match a {
                AttrV::Bool(b) => Result::Ok(TypedV::Bool(b)),
                _ => Result::Err(ErrorKind::InvalidType),
            },
        },
        Shape::I8 => dec_signed(oa, i8::MIN as int, i8::MAX as int),
        Shape::I16 => dec_signed(oa, i16::MIN as int, i16::MAX as int),
        Shape::I32 => dec_signed(oa, i32::MIN as int, i32::MAX as int),
        Shape::I64 => dec_signed(oa, i64::MIN as int, i64::MAX as int),
        Shape::U8 => dec_unsigned(oa, u8::MAX as int),
        Shape::U16 => dec_unsigned(oa, u16::MAX as int),
        Shape::U32 => dec_unsigned(oa, u32::MAX as int),
        Shape::U64 => dec_unsigned(oa, u64::MAX as int),
        Shape::Float => match oa {
            Option::None => Result::Err(ErrorKind::MissingField),
            Option::Some(a) => match a {
                AttrV::N(s) => Result::Ok(TypedV::Float(s)),
                _ => Result::Err(ErrorKind::InvalidType),
            },
        },
        Shape::Char => match oa {
            Option::None => Result::Err(ErrorKind::MissingField),
            Option::Some(a) => match a {
                AttrV::S(s) => if s.len() == 1 {
                    Result::Ok(TypedV::Char(s[0]))
                } else {
                    Result::Err(ErrorKind::InvalidType)
                },
                _ => Result::Err(ErrorKind::InvalidType),
            },
        },
        Shape::Str => match oa {
            Option::None => Result::Ok(TypedV::Str(Seq::empty())),
            Option::Some(a) => match a {
                AttrV::S(s) => Result::Ok(TypedV::Str(s)),
                _ => Result::Err(ErrorKind::InvalidType),
            },
        },
        Shape::Bytes => match oa {
            Option::None => Result::Ok(TypedV::Bytes(Seq::empty())),
            Option::Some(a) => match a {
                AttrV::B(b) => Result::Ok(TypedV::Bytes(b)),
                _ => Result::Err(ErrorKind::InvalidType),
            },
        },
        Shape::Unit => match oa {
            Option::None => Result::Err(ErrorKind::MissingField),
            Option::Some(a) => match a {
                AttrV::Null => Result::Ok(TypedV::Unit),
                _ => Result::Err(ErrorKind::InvalidType),
            },
        },
        Shape::Optional(inner) => match oa {
            Option::None => Result::Ok(TypedV::NoneVal),
            Option::Some(a) => if a is Null {
                Result::Ok(TypedV::NoneVal)
            } else {
                match dec_at(Option::Some(a), *inner) {
                    Result::Ok(t) => Result::Ok(TypedV::SomeVal(Box::new(t))),
                    Result::Err(k) => Result::Err(k),
                }
            },
        },
        Shape::SeqOf(elem) => match oa {
            Option::None => Result::Err(ErrorKind::MissingField),
            Option::Some(a) => match dec_seq_items(a, *elem) {
                Result::Ok(ts) => Result::Ok(TypedV::SeqVal(ts)),
                Result::Err(k) => Result::Err(k),
            },
        },
        Shape::Tuple(shapes) => match oa {
            Option::None => Result::Err(ErrorKind::MissingField),
            Option::Some(a) => match a {
                AttrV::M(m) => match dec_tuple_elems(m, shapes@, 0) {
                    Result::Ok(ts) => Result::Ok(TypedV::Tuple(ts)),
                    Result::Err(k) => Result::Err(k),
                },
                _ => Result::Err(ErrorKind::InvalidType),
            },
        },
        Shape::Struct(fields) => match oa {
            Option::None => Result::Err(ErrorKind::MissingField),
            Option::Some(a) => match a {
                AttrV::M(m) => match dec_struct_fields(m, fields@) {
                    Result::Ok(fs) => Result::Ok(TypedV::Struct(fs)),
                    Result::Err(k) => Result::Err(k),
                },
                _ => Result::Err(ErrorKind::InvalidType),
            },
        },
        Shape::MapOf(vshape) => match oa {
            Option::None => Result::Err(ErrorKind::MissingField),
            Option::Some(a) => match a {
                AttrV::M(m) => match dec_map_entries(m, *vshape) {
                    Result::Ok(ps) => Result::Ok(TypedV::MapVal(ps)),
                    Result::Err(k) => Result::Err(k),
                },
                _ => Result::Err(ErrorKind::InvalidType),
            },
        },
        Shape::Enum(vs) => match oa {
            Option::None => Result::Err(ErrorKind::MissingField),
            Option::Some(a) => match a {
                AttrV::S(name) => match variant_get(vs@, name) {
                    Option::Some(var) => match var.payload {
                        VariantShape::Unit => Result::Ok(TypedV::EnumUnit(name)),
                        _ => Result::Err(ErrorKind::InvalidType),
                    },
                    Option::None => Result::Err(ErrorKind::InvalidType),
                },
                AttrV::M(m) => dec_enum_in(m, vs@),
                _ => Result::Err(ErrorKind::InvalidType),
            },
        },
        Shape::Any => match oa {
            Option::None => Result::Err(ErrorKind::MissingField),
            Option::Some(a) => dec_any(a),
        },
    }
}


/// The decoding of a sequence source: a list or any set variant read as a
/// list of the corresponding scalar attributes; any other variant is
/// rejected.
pub open spec fn dec_seq_items(a: AttrV, elem: Shape) -> Result<Seq<TypedV>, ErrorKind>
    decreases elem, 1int, 0int,
{
    match a {
        AttrV::L(items) => dec_list_elems(items, elem),
        AttrV::NS(ns) => dec_list_elems(ns.map_values(|s: Seq<char>| AttrV::N(s)), elem),
        AttrV::SS(ss) => dec_list_elems(ss.map_values(|s: Seq<char>| AttrV::S(s)), elem),
        AttrV::BS(bs) => dec_list_elems(bs.map_values(|b: Seq<u8>| AttrV::B(b)), elem),
        _ => Result::Err(ErrorKind::InvalidType),
    }
}

/// A signed integer read from the attribute at a position: the stored
/// decimal string must parse to a value within `[lo, hi]`.
pub open spec fn dec_signed(oa: Option<AttrV>, lo: int, hi: int) -> Result<TypedV, ErrorKind> {
    match oa {
        Option::None => Result::Err(ErrorKind::MissingField),
        Option::Some(a) => match a {
            AttrV::N(s) => match dec_to_int(s) {
                Option::Some(v) => if lo <= v <= hi {
                    Result::Ok(int_value(v, lo, hi))
                } else {
                    Result::Err(ErrorKind::InvalidType)
                },
                Option::None => Result::Err(ErrorKind::InvalidType),
            },
            _ => Result::Err(ErrorKind::InvalidType),
        },
    }
}

/// An unsigned integer read from the attribute at a position: the stored
/// decimal string must be sign-free and parse to a value within `[0, hi]`.
pub open spec fn dec_unsigned(oa: Option<AttrV>, hi: int) -> Result<TypedV, ErrorKind> {
    match oa {
        Option::None => Result::Err(ErrorKind::MissingField),
        Option::Some(a) => match a {
            AttrV::N(s) => match dec_to_int(s) {
                Option::Some(v) => if !has_minus(s) && 0 <= v <= hi {
                    Result::Ok(uint_value(v, hi))
                } else {
                    Result::Err(ErrorKind::InvalidType)
                },
                Option::None => Result::Err(ErrorKind::InvalidType),
            },
            _ => Result::Err(ErrorKind::InvalidType),
        },
    }
}

/// The typed value of a decoded signed integer, at the width `[lo, hi]`
/// names.
pub open spec fn int_value(v: int, lo: int, hi: int) -> TypedV {
    if hi == i8::MAX as int {
        TypedV::I8(v as i8)
    } else if hi == i16::MAX as int {
        TypedV::I16(v as i16)
    } else if hi == i32::MAX as int {
        TypedV::I32(v as i32)
    } else {
        TypedV::I64(v as i64)
    }
}

/// The typed value of a decoded unsigned integer, at the width `hi` names.
pub open spec fn uint_value(v: int, hi: int) -> TypedV {
    if hi == u8::MAX as int {
        TypedV::U8(v as u8)
    } else if hi == u16::MAX as int {
        TypedV::U16(v as u16)
    } else if hi == u32::MAX as int {
        TypedV::U32(v as u32)
    } else {
        TypedV::U64(v as u64)
    }
}

/// The decoding of sequence elements, each against the element shape.
pub open spec fn dec_list_elems(items: Seq<AttrV>, elem: Shape) -> Result<Seq<TypedV>, ErrorKind>
    decreases elem, 0int, items.len(),
{
    if items.len() == 0 {
        Result::Ok(Seq::empty())
    } else {
        match dec_at(Option::Some(items[0]), elem) {
            Result::Ok(t) => match dec_list_elems(items.drop_first(), elem) {
                Result::Ok(rest) => Result::Ok(seq![t] + rest),
                Result::Err(k) => Result::Err(k),
            },
            Result::Err(k) => Result::Err(k),
        }
    }
}

/// The decoding of one positional element: the value under `"_key"`, which
/// must be present.
pub open spec fn dec_tuple_one(
    m: Seq<(Seq<char>, AttrV)>,
    sh: Shape,
    key: nat,
) -> Result<TypedV, ErrorKind>
    decreases sh, 1int, 0int,
{
    match map_get(m, tuple_key(key)) {
        Option::None => Result::Err(ErrorKind::MissingField),
        Option::Some(a) => dec_at(Option::Some(a), sh),
    }
}

/// The decoding of tuple elements from their positional keys, starting at
/// index `idx`; iteration stops with an error at the first missing index.
pub open spec fn dec_tuple_elems(
    m: Seq<(Seq<char>, AttrV)>,
    shapes: Seq<Shape>,
    idx: nat,
) -> Result<Seq<TypedV>, ErrorKind>
    decreases shapes, 0int, 0int,
{
    if shapes.len() == 0 {
        Result::Ok(Seq::empty())
    } else {
        match dec_tuple_one(m, shapes[0], idx) {
            Result::Ok(t) => match dec_tuple_elems(m, shapes.drop_first(), idx + 1) {
                Result::Ok(rest) => Result::Ok(seq![t] + rest),
                Result::Err(k) => Result::Err(k),
            },
            Result::Err(k) => Result::Err(k),
        }
    }
}

/// The decoding of one expected struct field: the stored value when the key
/// is present, the declared default when absent and one is declared, and
/// otherwise whatever the field's shape makes of absence.
pub open spec fn dec_field_one(m: Seq<(Seq<char>, AttrV)>, f: Field) -> Result<TypedV, ErrorKind>
    decreases f, 1int, 0int,
{
    match map_get(m, f.name@) {
        Option::None => match f.default {
            Option::Some(d) => Result::Ok(tv_view(d)),
            Option::None => dec_at(Option::None, f.shape),
        },
        Option::Some(a) => dec_at(Option::Some(a), f.shape),
    }
}

/// The decoding of a struct's expected fields, driven by the field set:
/// stored keys outside it are ignored.
pub open spec fn dec_struct_fields(m: Seq<(Seq<char>, AttrV)>, fields: Seq<Field>) -> Result<
    Seq<(Seq<char>, TypedV)>,
    ErrorKind,
>
    decreases fields, 0int, 0int,
{
    if fields.len() == 0 {
        Result::Ok(Seq::empty())
    } else {
        match dec_field_one(m, fields[0]) {
            Result::Ok(t) => match dec_struct_fields(m, fields.drop_first()) {
                Result::Ok(rest) => Result::Ok(seq![(fields[0].name@, t)] + rest),
                Result::Err(k) => Result::Err(k),
            },
            Result::Err(k) => Result::Err(k),
        }
    }
}

/// The decoding of a mapping: every stored entry in order, its key as a
/// string value and its value against the value shape.
pub open spec fn dec_map_entries(m: Seq<(Seq<char>, AttrV)>, vshape: Shape) -> Result<
    Seq<(TypedV, TypedV)>,
    ErrorKind,
>
    decreases vshape, 0int, m.len(),
{
    if m.len() == 0 {
        Result::Ok(Seq::empty())
    } else {
        match dec_at(Option::Some(m[0].1), vshape) {
            Result::Ok(t) => match dec_map_entries(m.drop_first(), vshape) {
                Result::Ok(rest) => Result::Ok(seq![(TypedV::Str(m[0].0), t)] + rest),
                Result::Err(k) => Result::Err(k),
            },
            Result::Err(k) => Result::Err(k),
        }
    }
}

/// The decoding of a sum type from the map holding its reserved keys: the
/// tag names the variant, and the payload is read from the values map (an
/// absent or non-map values entry reads as empty).
pub open spec fn dec_enum_in(m: Seq<(Seq<char>, AttrV)>, vs: Seq<Variant>) -> Result<
    TypedV,
    ErrorKind,
>
    decreases vs, 1int, 0int,
{
    match map_get(m, tag_key()) {
        Option::None => Result::Err(ErrorKind::MissingField),
        Option::Some(tag) => match tag {
            AttrV::S(name) => {
                let values = match map_get(m, values_key()) {
                    Option::Some(AttrV::M(vm)) => vm,
                    _ => Seq::empty(),
                };
                dec_enum_pick(values, name, vs)
            },
            _ => Result::Err(ErrorKind::InvalidType),
        },
    }
}

/// The decoding of a sum-type payload against the first variant named
/// `name`; an unknown variant name is rejected.
pub open spec fn dec_enum_pick(
    values: Seq<(Seq<char>, AttrV)>,
    name: Seq<char>,
    vs: Seq<Variant>,
) -> Result<TypedV, ErrorKind>
    decreases vs, 0int, 0int,
{
    if vs.len() == 0 {
        Result::Err(ErrorKind::InvalidType)
    } else if vs[0].name@ == name {
        match vs[0].payload {
            VariantShape::Unit => Result::Ok(TypedV::EnumUnit(name)),
            VariantShape::Newtype(inner) => match dec_at(map_get(values, tuple_key(0)), *inner) {
                Result::Ok(t) => Result::Ok(TypedV::EnumNewtype(name, Box::new(t))),
                Result::Err(k) => Result::Err(k),
            },
            VariantShape::TupleLike(shapes) => match dec_tuple_elems(values, shapes@, 0) {
                Result::Ok(ts) => Result::Ok(TypedV::EnumTuple(name, ts)),
                Result::Err(k) => Result::Err(k),
            },
            VariantShape::StructLike(fields) => match dec_struct_fields(values, fields@) {
                Result::Ok(fs) => Result::Ok(TypedV::EnumStruct(name, fs)),
                Result::Err(k) => Result::Err(k),
            },
        }
    } else {
        dec_enum_pick(values, name, vs.drop_first())
    }
}

/// The best-effort decoding of one attribute, driven by which wire variant
/// is populated (binary, boolean, list-like, map, number, null, string):
/// numbers read as floats, maps as string-keyed mappings.
pub open spec fn dec_any(a: AttrV) -> Result<TypedV, ErrorKind>
    decreases a,
{
    match a {
        AttrV::B(b) => Result::Ok(TypedV::Bytes(b)),
        AttrV::Bool(b) => Result::Ok(TypedV::Bool(b)),
        AttrV::L(items) => match dec_any_list(items) {
            Result::Ok(ts) => Result::Ok(TypedV::SeqVal(ts)),
            Result::Err(k) => Result::Err(k),
        },
        AttrV::NS(ns) => Result::Ok(TypedV::SeqVal(ns.map_values(|s: Seq<char>| TypedV::Float(s)))),
        AttrV::SS(ss) => Result::Ok(TypedV::SeqVal(ss.map_values(|s: Seq<char>| TypedV::Str(s)))),
        AttrV::BS(bs) => Result::Ok(TypedV::SeqVal(bs.map_values(|b: Seq<u8>| TypedV::Bytes(b)))),
        AttrV::M(m) => match dec_any_map(m) {
            Result::Ok(ps) => Result::Ok(TypedV::MapVal(ps)),
            Result::Err(k) => Result::Err(k),
        },
        AttrV::N(s) => Result::Ok(TypedV::Float(s)),
        AttrV::Null => Result::Ok(TypedV::Unit),
        AttrV::S(s) => Result::Ok(TypedV::Str(s)),
    }
}

/// The best-effort decoding of list elements.
pub open spec fn dec_any_list(items: Seq<AttrV>) -> Result<Seq<TypedV>, ErrorKind>
    decreases items,
{
    if items.len() == 0 {
        Result::Ok(Seq::empty())
    } else {
        match dec_any(items[0]) {
            Result::Ok(t) => match dec_any_list(items.drop_first()) {
                Result::Ok(rest) => Result::Ok(seq![t] + rest),
                Result::Err(k) => Result::Err(k),
            },
            Result::Err(k) => Result::Err(k),
        }
    }
}

/// The best-effort decoding of map entries, keys as string values.
pub open spec fn dec_any_map(m: Seq<(Seq<char>, AttrV)>) -> Result<Seq<(TypedV, TypedV)>, ErrorKind>
    decreases m,
{
    if m.len() == 0 {
        Result::Ok(Seq::empty())
    } else {
        match dec_any(m[0].1) {
            Result::Ok(t) => match dec_any_map(m.drop_first()) {
                Result::Ok(rest) => Result::Ok(seq![(TypedV::Str(m[0].0), t)] + rest),
                Result::Err(k) => Result::Err(k),
            },
            Result::Err(k) => Result::Err(k),
        }
    }
}

/// The decoding of a whole item: aggregate shapes read the top-level
/// entries directly (a sum type reads its reserved keys at the top level,
/// with no short form there); any other shape reads as if its position were
/// absent.
pub open spec fn dec_root(m: Seq<(Seq<char>, AttrV)>, shape: Shape) -> Result<TypedV, ErrorKind> {
    match shape {
        Shape::Tuple(shapes) => match dec_tuple_elems(m, shapes@, 0) {
            Result::Ok(ts) => Result::Ok(TypedV::Tuple(ts)),
            Result::Err(k) => Result::Err(k),
        },
        Shape::Struct(fields) => match dec_struct_fields(m, fields@) {
            Result::Ok(fs) => Result::Ok(TypedV::Struct(fs)),
            Result::Err(k) => Result::Err(k),
        },
        Shape::MapOf(vshape) => match dec_map_entries(m, *vshape) {
            Result::Ok(ps) => Result::Ok(TypedV::MapVal(ps)),
            Result::Err(k) => Result::Err(k),
        },
        Shape::Enum(vs) => dec_enum_in(m, vs@),
        _ => dec_at(Option::None, shape),
    }
}


/// The model of a possibly absent attribute reference.
pub open spec fn view_opt(oa: Option<&AttributeValue>) -> Option<AttrV> {
    match oa {
        Option::None => Option::None,
        Option::Some(a) => Option::Some(a@),
    }
}

/// When the elements decode pointwise to `ts`, the whole list decodes to
/// `ts`.
pub proof fn lemma_dec_list_ok(items: Seq<AttrV>, elem: Shape, ts: Seq<TypedV>)
    requires
        ts.len() == items.len(),
        forall|j: int| 0 <= j < items.len() ==> dec_at(Option::Some(items[j]), elem) == Result::<
            TypedV,
            ErrorKind,
        >::Ok(ts[j]),
    ensures
        dec_list_elems(items, elem) == Result::<Seq<TypedV>, ErrorKind>::Ok(ts),
    decreases items.len(),
{
    if items.len() == 0 {
        assert(ts =~= Seq::empty());
    } else {
        assert(forall|j: int| 0 <= j < items.len() - 1 ==> items.drop_first()[j] == items[j + 1]);
        assert(forall|j: int| 0 <= j < ts.len() - 1 ==> ts.drop_first()[j] == ts[j + 1]);
        lemma_dec_list_ok(items.drop_first(), elem, ts.drop_first());
        assert(seq![ts[0]] + ts.drop_first() =~= ts);
    }
}

/// When every element up to `i` decodes and element `i` fails with `k`, the
/// whole list fails with `k`.
pub proof fn lemma_dec_list_err(items: Seq<AttrV>, elem: Shape, i: int, k: ErrorKind)
    requires
        0 <= i < items.len(),
        forall|j: int| 0 <= j < i ==> dec_at(Option::Some(items[j]), elem) is Ok,
        dec_at(Option::Some(items[i]), elem) == Result::<TypedV, ErrorKind>::Err(k),
    ensures
        dec_list_elems(items, elem) == Result::<Seq<TypedV>, ErrorKind>::Err(k),
    decreases i,
{
    if i > 0 {
        assert(forall|j: int| 0 <= j < items.len() - 1 ==> items.drop_first()[j] == items[j + 1]);
        lemma_dec_list_err(items.drop_first(), elem, i - 1, k);
    }
}

/// When the positions decode pointwise to `ts`, the whole tuple decodes to
/// `ts`.
pub proof fn lemma_dec_tuple_ok(
    m: Seq<(Seq<char>, AttrV)>,
    shapes: Seq<Shape>,
    idx: nat,
    ts: Seq<TypedV>,
)
    requires
        ts.len() == shapes.len(),
        forall|j: int| 0 <= j < shapes.len() ==> dec_tuple_one(m, shapes[j], (idx + j) as nat)
            == Result::<TypedV, ErrorKind>::Ok(ts[j]),
    ensures
        dec_tuple_elems(m, shapes, idx) == Result::<Seq<TypedV>, ErrorKind>::Ok(ts),
    decreases shapes.len(),
{
    if shapes.len() == 0 {
        assert(ts =~= Seq::empty());
    } else {
        assert(forall|j: int|
            0 <= j < shapes.len() - 1 ==> shapes.drop_first()[j] == shapes[j + 1]);
        assert(forall|j: int| 0 <= j < ts.len() - 1 ==> ts.drop_first()[j] == ts[j + 1]);
        lemma_dec_tuple_ok(m, shapes.drop_first(), idx + 1, ts.drop_first());
        assert(seq![ts[0]] + ts.drop_first() =~= ts);
    }
}

/// When every position up to `i` decodes and position `i` fails with `k`,
/// the whole tuple fails with `k`.
pub proof fn lemma_dec_tuple_err(
    m: Seq<(Seq<char>, AttrV)>,
    shapes: Seq<Shape>,
    idx: nat,
    i: int,
    k: ErrorKind,
)
    requires
        0 <= i < shapes.len(),
        forall|j: int| 0 <= j < i ==> dec_tuple_one(m, shapes[j], (idx + j) as nat) is Ok,
        dec_tuple_one(m, shapes[i], (idx + i) as nat) == Result::<TypedV, ErrorKind>::Err(k),
    ensures
        dec_tuple_elems(m, shapes, idx) == Result::<Seq<TypedV>, ErrorKind>::Err(k),
    decreases i,
{
    if i > 0 {
        assert(forall|j: int|
            0 <= j < shapes.len() - 1 ==> shapes.drop_first()[j] == shapes[j + 1]);
        lemma_dec_tuple_err(m, shapes.drop_first(), idx + 1, i - 1, k);
    }
}

/// When the expected fields decode pointwise to `fs`, the whole struct
/// decodes to `fs`.
pub proof fn lemma_dec_struct_ok(
    m: Seq<(Seq<char>, AttrV)>,
    fields: Seq<Field>,
    fs: Seq<(Seq<char>, TypedV)>,
)
    requires
        fs.len() == fields.len(),
        forall|j: int| 0 <= j < fields.len() ==> dec_field_one(m, fields[j]) == Result::<
            TypedV,
            ErrorKind,
        >::Ok(fs[j].1) && fs[j].0 == fields[j].name@,
    ensures
        dec_struct_fields(m, fields) == Result::<Seq<(Seq<char>, TypedV)>, ErrorKind>::Ok(fs),
    decreases fields.len(),
{
    if fields.len() == 0 {
        assert(fs =~= Seq::empty());
    } else {
        assert(forall|j: int|
            0 <= j < fields.len() - 1 ==> fields.drop_first()[j] == fields[j + 1]);
        assert(forall|j: int| 0 <= j < fs.len() - 1 ==> fs.drop_first()[j] == fs[j + 1]);
        lemma_dec_struct_ok(m, fields.drop_first(), fs.drop_first());
        assert(fs[0] == (fields[0].name@, fs[0].1));
        assert(seq![fs[0]] + fs.drop_first() =~= fs);
    }
}

/// When every expected field up to `i` decodes and field `i` fails with
/// `k`, the whole struct fails with `k`.
pub proof fn lemma_dec_struct_err(m: Seq<(Seq<char>, AttrV)>, fields: Seq<Field>, i: int, k: ErrorKind)
    requires
        0 <= i < fields.len(),
        forall|j: int| 0 <= j < i ==> dec_field_one(m, fields[j]) is Ok,
        dec_field_one(m, fields[i]) == Result::<TypedV, ErrorKind>::Err(k),
    ensures
        dec_struct_fields(m, fields) == Result::<Seq<(Seq<char>, TypedV)>, ErrorKind>::Err(k),
    decreases i,
{
    if i > 0 {
        assert(forall|j: int|
            0 <= j < fields.len() - 1 ==> fields.drop_first()[j] == fields[j + 1]);
        lemma_dec_struct_err(m, fields.drop_first(), i - 1, k);
    }
}

/// When the stored entries decode pointwise to `ps`, the whole mapping
/// decodes to `ps`.
pub proof fn lemma_dec_map_ok(m: Seq<(Seq<char>, AttrV)>, vshape: Shape, ps: Seq<(TypedV, TypedV)>)
    requires
        ps.len() == m.len(),
        forall|j: int| 0 <= j < m.len() ==> dec_at(Option::Some(m[j].1), vshape) == Result::<
            TypedV,
            ErrorKind,
        >::Ok(ps[j].1) && ps[j].0 == TypedV::Str(m[j].0),
    ensures
        dec_map_entries(m, vshape) == Result::<Seq<(TypedV, TypedV)>, ErrorKind>::Ok(ps),
    decreases m.len(),
{
    if m.len() == 0 {
        assert(ps =~= Seq::empty());
    } else {
        assert(forall|j: int| 0 <= j < m.len() - 1 ==> m.drop_first()[j] == m[j + 1]);
        assert(forall|j: int| 0 <= j < ps.len() - 1 ==> ps.drop_first()[j] == ps[j + 1]);
        lemma_dec_map_ok(m.drop_first(), vshape, ps.drop_first());
        assert(ps[0] == (TypedV::Str(m[0].0), ps[0].1));
        assert(seq![ps[0]] + ps.drop_first() =~= ps);
    }
}

/// When every stored entry up to `i` decodes and entry `i` fails with `k`,
/// the whole mapping fails with `k`.
pub proof fn lemma_dec_map_err(m: Seq<(Seq<char>, AttrV)>, vshape: Shape, i: int, k: ErrorKind)
    requires
        0 <= i < m.len(),
        forall|j: int| 0 <= j < i ==> dec_at(Option::Some(m[j].1), vshape) is Ok,
        dec_at(Option::Some(m[i].1), vshape) == Result::<TypedV, ErrorKind>::Err(k),
    ensures
        dec_map_entries(m, vshape) == Result::<Seq<(TypedV, TypedV)>, ErrorKind>::Err(k),
    decreases i,
{
    if i > 0 {
        assert(forall|j: int| 0 <= j < m.len() - 1 ==> m.drop_first()[j] == m[j + 1]);
        lemma_dec_map_err(m.drop_first(), vshape, i - 1, k);
    }
}

/// Variants that do not bear the looked-up name can be skipped.
pub proof fn lemma_dec_enum_pick_skip(
    values: Seq<(Seq<char>, AttrV)>,
    name: Seq<char>,
    vs: Seq<Variant>,
    i: int,
)
    requires
        0 <= i <= vs.len(),
        forall|j: int| 0 <= j < i ==> vs[j].name@ != name,
    ensures
        dec_enum_pick(values, name, vs) == dec_enum_pick(values, name, vs.skip(i)),
    decreases i,
{
    if i == 0 {
        assert(vs.skip(0) =~= vs);
    } else {
        assert(vs.drop_first() =~= vs.skip(1));
        assert(forall|j: int| 0 <= j < vs.len() - 1 ==> vs.drop_first()[j] == vs[j + 1]);
        lemma_dec_enum_pick_skip(values, name, vs.drop_first(), i - 1);
        assert(vs.drop_first().skip(i - 1) =~= vs.skip(i));
    }
}

/// When the elements best-effort decode pointwise to `ts`, the whole list
/// does.
pub proof fn lemma_dec_any_list_ok(items: Seq<AttrV>, ts: Seq<TypedV>)
    requires
        ts.len() == items.len(),
        forall|j: int| 0 <= j < items.len() ==> dec_any(items[j]) == Result::<
            TypedV,
            ErrorKind,
        >::Ok(ts[j]),
    ensures
        dec_any_list(items) == Result::<Seq<TypedV>, ErrorKind>::Ok(ts),
    decreases items.len(),
{
    if items.len() == 0 {
        assert(ts =~= Seq::empty());
    } else {
        assert(forall|j: int| 0 <= j < items.len() - 1 ==> items.drop_first()[j] == items[j + 1]);
        assert(forall|j: int| 0 <= j < ts.len() - 1 ==> ts.drop_first()[j] == ts[j + 1]);
        lemma_dec_any_list_ok(items.drop_first(), ts.drop_first());
        assert(seq![ts[0]] + ts.drop_first() =~= ts);
    }
}

/// When some element fails the best-effort decode, the whole list fails the
/// same way.
proof fn lemma_dec_any_list_err(items: Seq<AttrV>, i: int, k: ErrorKind)
    requires
        0 <= i < items.len(),
        forall|j: int| 0 <= j < i ==> dec_any(items[j]) is Ok,
        dec_any(items[i]) == Result::<TypedV, ErrorKind>::Err(k),
    ensures
        dec_any_list(items) == Result::<Seq<TypedV>, ErrorKind>::Err(k),
    decreases i,
{
    if i > 0 {
        assert(forall|j: int| 0 <= j < items.len() - 1 ==> items.drop_first()[j] == items[j + 1]);
        lemma_dec_any_list_err(items.drop_first(), i - 1, k);
    }
}

/// When the entries best-effort decode pointwise to `ps`, the whole map
/// does.
pub proof fn lemma_dec_any_map_ok(m: Seq<(Seq<char>, AttrV)>, ps: Seq<(TypedV, TypedV)>)
    requires
        ps.len() == m.len(),
        forall|j: int| 0 <= j < m.len() ==> dec_any(m[j].1) == Result::<TypedV, ErrorKind>::Ok(
            ps[j].1,
        ) && ps[j].0 == TypedV::Str(m[j].0),
    ensures
        dec_any_map(m) == Result::<Seq<(TypedV, TypedV)>, ErrorKind>::Ok(ps),
    decreases m.len(),
{
    if m.len() == 0 {
        assert(ps =~= Seq::empty());
    } else {
        assert(forall|j: int| 0 <= j < m.len() - 1 ==> m.drop_first()[j] == m[j + 1]);
        assert(forall|j: int| 0 <= j < ps.len() - 1 ==> ps.drop_first()[j] == ps[j + 1]);
        lemma_dec_any_map_ok(m.drop_first(), ps.drop_first());
        assert(ps[0] == (TypedV::Str(m[0].0), ps[0].1));
        assert(seq![ps[0]] + ps.drop_first() =~= ps);
    }
}

/// When some entry fails the best-effort decode, the whole map fails the
/// same way.
proof fn lemma_dec_any_map_err(m: Seq<(Seq<char>, AttrV)>, i: int, k: ErrorKind)
    requires
        0 <= i < m.len(),
        forall|j: int| 0 <= j < i ==> dec_any(m[j].1) is Ok,
        dec_any(m[i].1) == Result::<TypedV, ErrorKind>::Err(k),
    ensures
        dec_any_map(m) == Result::<Seq<(TypedV, TypedV)>, ErrorKind>::Err(k),
    decreases i,
{
    if i > 0 {
        assert(forall|j: int| 0 <= j < m.len() - 1 ==> m.drop_first()[j] == m[j + 1]);
        lemma_dec_any_map_err(m.drop_first(), i - 1, k);
    }
}


/// A deep copy of a typed value.
pub fn clone_typed(v: &TypedValue) -> (r: TypedValue)
    ensures
        r@ == v@,
    decreases *v,
{
    match v {
        TypedValue::Bool(b) => TypedValue::Bool(*b),
        TypedValue::I8(i) => TypedValue::I8(*i),
        TypedValue::I16(i) => TypedValue::I16(*i),
        TypedValue::I32(i) => TypedValue::I32(*i),
        TypedValue::I64(i) => TypedValue::I64(*i),
        TypedValue::U8(u) => TypedValue::U8(*u),
        TypedValue::U16(u) => TypedValue::U16(*u),
        TypedValue::U32(u) => TypedValue::U32(*u),
        TypedValue::U64(u) => TypedValue::U64(*u),
        TypedValue::Float(s) => TypedValue::Float(s.clone()),
        TypedValue::Char(c) => TypedValue::Char(*c),
        TypedValue::Str(s) => TypedValue::Str(s.clone()),
        TypedValue::Bytes(b) => TypedValue::Bytes(b.clone()),
        TypedValue::Unit => TypedValue::Unit,
        TypedValue::NoneVal => TypedValue::NoneVal,
        TypedValue::SomeVal(b) => TypedValue::SomeVal(Box::new(clone_typed(&**b))),
        TypedValue::SeqVal(l) => TypedValue::SeqVal(clone_typed_vec(l)),
        TypedValue::Tuple(l) => TypedValue::Tuple(clone_typed_vec(l)),
        TypedValue::Struct(f) => TypedValue::Struct(clone_typed_fields(f)),
        TypedValue::MapVal(p) => TypedValue::MapVal(clone_typed_pairs(p)),
        TypedValue::EnumUnit(n) => TypedValue::EnumUnit(n.clone()),
        TypedValue::EnumNewtype(n, b) => TypedValue::EnumNewtype(
            n.clone(),
            Box::new(clone_typed(&**b)),
        ),
        TypedValue::EnumTuple(n, l) => TypedValue::EnumTuple(n.clone(), clone_typed_vec(l)),
        TypedValue::EnumStruct(n, f) => TypedValue::EnumStruct(n.clone(), clone_typed_fields(f)),
    }
}

/// A deep copy of a vector of typed values.
fn clone_typed_vec(l: &Vec<TypedValue>) -> (r: Vec<TypedValue>)
    ensures
        crate::typed::tvs_view(r@) == crate::typed::tvs_view(l@),
    decreases *l,
{
    let mut r: Vec<TypedValue> = Vec::new();
    let n = l.len();
    for i in 0..n
        invariant
            n == l@.len(),
            r@.len() == i,
            forall|j: int| 0 <= j < i ==> tv_view(r@[j]) == tv_view(l@[j]),
    {
        r.push(clone_typed(&l[i]));
    }
    proof {
        crate::typed::lemma_tvs_view(r@);
        crate::typed::lemma_tvs_view(l@);
        assert(crate::typed::tvs_view(r@) =~= crate::typed::tvs_view(l@));
    }
    r
}

/// A deep copy of a vector of named fields.
fn clone_typed_fields(l: &Vec<(String, TypedValue)>) -> (r: Vec<(String, TypedValue)>)
    ensures
        crate::typed::tv_fields_view(r@) == crate::typed::tv_fields_view(l@),
    decreases *l,
{
    let mut r: Vec<(String, TypedValue)> = Vec::new();
    let n = l.len();
    for i in 0..n
        invariant
            n == l@.len(),
            r@.len() == i,
            forall|j: int| 0 <= j < i ==> r@[j].0@ == l@[j].0@ && tv_view(r@[j].1) == tv_view(
                l@[j].1,
            ),
    {
        let name = l[i].0.clone();
        let value = clone_typed(&l[i].1);
        r.push((name, value));
    }
    proof {
        crate::typed::lemma_tv_fields_view(r@);
        crate::typed::lemma_tv_fields_view(l@);
        assert(crate::typed::tv_fields_view(r@) =~= crate::typed::tv_fields_view(l@));
    }
    r
}

/// A deep copy of a vector of key-value pairs.
fn clone_typed_pairs(l: &Vec<(TypedValue, TypedValue)>) -> (r: Vec<(TypedValue, TypedValue)>)
    ensures
        crate::typed::tv_pairs_view(r@) == crate::typed::tv_pairs_view(l@),
    decreases *l,
{
    let mut r: Vec<(TypedValue, TypedValue)> = Vec::new();
    let n = l.len();
    for i in 0..n
        invariant
            n == l@.len(),
            r@.len() == i,
            forall|j: int| 0 <= j < i ==> tv_view(r@[j].0) == tv_view(l@[j].0) && tv_view(
                r@[j].1,
            ) == tv_view(l@[j].1),
    {
        let key = clone_typed(&l[i].0);
        let value = clone_typed(&l[i].1);
        r.push((key, value));
    }
    proof {
        crate::typed::lemma_tv_pairs_view(r@);
        crate::typed::lemma_tv_pairs_view(l@);
        assert(crate::typed::tv_pairs_view(r@) =~= crate::typed::tv_pairs_view(l@));
    }
    r
}

/// Reads a signed integer from the attribute at a position.
fn dec_signed_exec(oa: Option<&AttributeValue>, lo: i64, hi: i64) -> (r: Result<i64, Error>)
    requires
        lo < 0 < hi,
    ensures
        match r {
            Result::Ok(v) => lo <= v <= hi && dec_signed(view_opt(oa), lo as int, hi as int)
                == Result::<TypedV, ErrorKind>::Ok(int_value(v as int, lo as int, hi as int)),
            Result::Err(e) => dec_signed(view_opt(oa), lo as int, hi as int) == Result::<
                TypedV,
                ErrorKind,
            >::Err(e.kind),
        },
{
    match oa {
        Option::None => Result::Err(Error::at_root(ErrorKind::MissingField)),
        Option::Some(a) => match a {
            AttributeValue::N(s) => match parse_i64_bounded(s.as_str(), lo, hi) {
                Option::Some(v) => Result::Ok(v),
                Option::None => Result::Err(Error::at_root(ErrorKind::InvalidType)),
            },
            _ => Result::Err(Error::at_root(ErrorKind::InvalidType)),
        },
    }
}

/// Reads an unsigned integer from the attribute at a position.
fn dec_unsigned_exec(oa: Option<&AttributeValue>, hi: u64) -> (r: Result<u64, Error>)
    requires
        hi > 0,
    ensures
        match r {
            Result::Ok(v) => v <= hi && dec_unsigned(view_opt(oa), hi as int) == Result::<
                TypedV,
                ErrorKind,
            >::Ok(uint_value(v as int, hi as int)),
            Result::Err(e) => dec_unsigned(view_opt(oa), hi as int) == Result::<
                TypedV,
                ErrorKind,
            >::Err(e.kind),
        },
{
    match oa {
        Option::None => Result::Err(Error::at_root(ErrorKind::MissingField)),
        Option::Some(a) => match a {
            AttributeValue::N(s) => match parse_u64_bounded(s.as_str(), hi) {
                Option::Some(v) => Result::Ok(v),
                Option::None => Result::Err(Error::at_root(ErrorKind::InvalidType)),
            },
            _ => Result::Err(Error::at_root(ErrorKind::InvalidType)),
        },
    }
}


/// The numeric-set entries as number attributes.
fn ns_to_attrs(ns: &Vec<String>) -> (r: Vec<AttributeValue>)
    ensures
        avs_view(r@) == (ns@.map_values(|s: String| s@)).map_values(|s: Seq<char>| AttrV::N(s)),
{
    let mut items2: Vec<AttributeValue> = Vec::new();
    let n = ns.len();
    for i in 0..n
        invariant
            n == ns@.len(),
            items2@.len() == i,
            forall|j: int| 0 <= j < i ==> av_view(items2@[j]) == AttrV::N(ns@[j]@),
    {
        items2.push(AttributeValue::N(ns[i].clone()));
    }
    proof {
        crate::attr::lemma_avs_view(items2@);
        assert(avs_view(items2@) =~= (ns@.map_values(|s: String| s@)).map_values(
            |s: Seq<char>| AttrV::N(s),
        ));
    }
    items2
}

/// The string-set entries as string attributes.
fn ss_to_attrs(ss: &Vec<String>) -> (r: Vec<AttributeValue>)
    ensures
        avs_view(r@) == (ss@.map_values(|s: String| s@)).map_values(|s: Seq<char>| AttrV::S(s)),
{
    let mut items2: Vec<AttributeValue> = Vec::new();
    let n = ss.len();
    for i in 0..n
        invariant
            n == ss@.len(),
            items2@.len() == i,
            forall|j: int| 0 <= j < i ==> av_view(items2@[j]) == AttrV::S(ss@[j]@),
    {
        items2.push(AttributeValue::S(ss[i].clone()));
    }
    proof {
        crate::attr::lemma_avs_view(items2@);
        assert(avs_view(items2@) =~= (ss@.map_values(|s: String| s@)).map_values(
            |s: Seq<char>| AttrV::S(s),
        ));
    }
    items2
}

/// The binary-set entries as byte-string attributes.
fn bs_to_attrs(bs: &Vec<Vec<u8>>) -> (r: Vec<AttributeValue>)
    ensures
        avs_view(r@) == (bs@.map_values(|b: Vec<u8>| b@)).map_values(|b: Seq<u8>| AttrV::B(b)),
{
    let mut items2: Vec<AttributeValue> = Vec::new();
    let n = bs.len();
    for i in 0..n
        invariant
            n == bs@.len(),
            items2@.len() == i,
            forall|j: int| 0 <= j < i ==> av_view(items2@[j]) == AttrV::B(bs@[j]@),
    {
        items2.push(AttributeValue::B(bs[i].clone()));
    }
    proof {
        crate::attr::lemma_avs_view(items2@);
        assert(avs_view(items2@) =~= (bs@.map_values(|b: Vec<u8>| b@)).map_values(
            |b: Seq<u8>| AttrV::B(b),
        ));
    }
    items2
}


/// Whether a shape is a scalar target (no nested positions).
pub open spec fn scalar_shape(s: Shape) -> bool {
    ||| s is Bool
    ||| s is I8
    ||| s is I16
    ||| s is I32
    ||| s is I64
    ||| s is U8
    ||| s is U16
    ||| s is U32
    ||| s is U64
    ||| s is Float
    ||| s is Char
    ||| s is Str
    ||| s is Bytes
    ||| s is Unit
}

/// Decodes the attribute found (or missing) at a position against a scalar
/// shape.
#[verifier::rlimit(60)]
fn dec_scalar_exec(oa: Option<&AttributeValue>, shape: &Shape) -> (r: Result<TypedValue, Error>)
    requires
        scalar_shape(*shape),
    ensures
        match r {
            Result::Ok(t) => dec_at(view_opt(oa), *shape) == Result::<TypedV, ErrorKind>::Ok(t@),
            Result::Err(e) => dec_at(view_opt(oa), *shape) == Result::<TypedV, ErrorKind>::Err(
                e.kind,
            ),
        },
{
    match shape {
        Shape::Bool => match oa {
            Option::None => Result::Err(Error::at_root(ErrorKind::MissingField)),
            Option::Some(a) => match a {
                AttributeValue::Bool(b) => Result::Ok(TypedValue::Bool(*b)),
                _ => Result::Err(Error::at_root(ErrorKind::InvalidType)),
            },
        },
        Shape::I8 => match dec_signed_exec(oa, i8::MIN as i64, i8::MAX as i64) {
            Result::Ok(v) => Result::Ok(TypedValue::I8(v as i8)),
            Result::Err(e) => Result::Err(e),
        },
        Shape::I16 => match dec_signed_exec(oa, i16::MIN as i64, i16::MAX as i64) {
            Result::Ok(v) => Result::Ok(TypedValue::I16(v as i16)),
            Result::Err(e) => Result::Err(e),
        },
        Shape::I32 => match dec_signed_exec(oa, i32::MIN as i64, i32::MAX as i64) {
            Result::Ok(v) => Result::Ok(TypedValue::I32(v as i32)),
            Result::Err(e) => Result::Err(e),
        },
        Shape::I64 => match dec_signed_exec(oa, i64::MIN, i64::MAX) {
            Result::Ok(v) => Result::Ok(TypedValue::I64(v)),
            Result::Err(e) => Result::Err(e),
        },
        Shape::U8 => match dec_unsigned_exec(oa, u8::MAX as u64) {
            Result::Ok(v) => Result::Ok(TypedValue::U8(v as u8)),
            Result::Err(e) => Result::Err(e),
        },
        Shape::U16 => match dec_unsigned_exec(oa, u16::MAX as u64) {
            Result::Ok(v) => Result::Ok(TypedValue::U16(v as u16)),
            Result::Err(e) => Result::Err(e),
        },
        Shape::U32 => match dec_unsigned_exec(oa, u32::MAX as u64) {
            Result::Ok(v) => Result::Ok(TypedValue::U32(v as u32)),
            Result::Err(e) => Result::Err(e),
        },
        Shape::U64 => match dec_unsigned_exec(oa, u64::MAX) {
            Result::Ok(v) => Result::Ok(TypedValue::U64(v)),
            Result::Err(e) => Result::Err(e),
        },
        Shape::Float => match oa {
            Option::None => Result::Err(Error::at_root(ErrorKind::MissingField)),
            Option::Some(a) => match a {
                AttributeValue::N(s) => Result::Ok(TypedValue::Float(s.clone())),
                _ => Result::Err(Error::at_root(ErrorKind::InvalidType)),
            },
        },
        Shape::Char => match oa {
            Option::None => Result::Err(Error::at_root(ErrorKind::MissingField)),
            Option::Some(a) => match a {
                AttributeValue::S(s) => {
                    if s.as_str().unicode_len() == 1 {
                        Result::Ok(TypedValue::Char(s.as_str().get_char(0)))
                    } else {
                        Result::Err(Error::at_root(ErrorKind::InvalidType))
                    }
                },
                _ => Result::Err(Error::at_root(ErrorKind::InvalidType)),
            },
        },
        Shape::Str => match oa {
            Option::None => Result::Ok(TypedValue::Str(String::new())),
            Option::Some(a) => match a {
                AttributeValue::S(s) => Result::Ok(TypedValue::Str(s.clone())),
                _ => Result::Err(Error::at_root(ErrorKind::InvalidType)),
            },
        },
        Shape::Bytes => match oa {
            Option::None => Result::Ok(TypedValue::Bytes(Vec::new())),
            Option::Some(a) => match a {
                AttributeValue::B(b) => Result::Ok(TypedValue::Bytes(b.clone())),
                _ => Result::Err(Error::at_root(ErrorKind::InvalidType)),
            },
        },
        Shape::Unit => match oa {
            Option::None => Result::Err(Error::at_root(ErrorKind::MissingField)),
            Option::Some(a) => match a {
                AttributeValue::Null => Result::Ok(TypedValue::Unit),
                _ => Result::Err(Error::at_root(ErrorKind::InvalidType)),
            },
        },
        _ => Result::Err(Error::at_root(ErrorKind::InvalidType)),
    }
}

/// Decodes the attribute found (or missing) at a position, driven by the
/// requested shape.
#[verifier::loop_isolation(false)]
#[verifier::rlimit(100)]
pub fn dec_attr(oa: Option<&AttributeValue>, shape: &Shape) -> (r: Result<TypedValue, Error>)
    ensures
        match r {
            Result::Ok(t) => dec_at(view_opt(oa), *shape) == Result::<TypedV, ErrorKind>::Ok(t@),
            Result::Err(e) => dec_at(view_opt(oa), *shape) == Result::<TypedV, ErrorKind>::Err(
                e.kind,
            ),
        },
    decreases *shape, 0int,
{
    match shape {
        Shape::Optional(inner) => match oa {
            Option::None => Result::Ok(TypedValue::NoneVal),
            Option::Some(a) => {
                if let AttributeValue::Null = a {
                    Result::Ok(TypedValue::NoneVal)
                } else {
                    match dec_attr(Option::Some(a), &**inner) {
                        Result::Ok(t) => Result::Ok(TypedValue::SomeVal(Box::new(t))),
                        Result::Err(e) => Result::Err(e),
                    }
                }
            },
        },
        Shape::SeqOf(elem) => match oa {
            Option::None => Result::Err(Error::at_root(ErrorKind::MissingField)),
            Option::Some(a) => match dec_seq_exec(a, &**elem) {
                Result::Ok(ts) => Result::Ok(TypedValue::SeqVal(ts)),
                Result::Err(e) => Result::Err(e),
            },
        },
        Shape::Tuple(shapes) => match oa {
            Option::None => Result::Err(Error::at_root(ErrorKind::MissingField)),
            Option::Some(a) => match a {
                AttributeValue::M(m) => match dec_tuple_exec(m, shapes) {
                    Result::Ok(ts) => Result::Ok(TypedValue::Tuple(ts)),
                    Result::Err(e) => Result::Err(e),
                },
                _ => Result::Err(Error::at_root(ErrorKind::InvalidType)),
            },
        },
        Shape::Struct(fields) => match oa {
            Option::None => Result::Err(Error::at_root(ErrorKind::MissingField)),
            Option::Some(a) => match a {
                AttributeValue::M(m) => match dec_struct_exec(m, fields) {
                    Result::Ok(fs) => Result::Ok(TypedValue::Struct(fs)),
                    Result::Err(e) => Result::Err(e),
                },
                _ => Result::Err(Error::at_root(ErrorKind::InvalidType)),
            },
        },
        Shape::MapOf(vshape) => match oa {
            Option::None => Result::Err(Error::at_root(ErrorKind::MissingField)),
            Option::Some(a) => match a {
                AttributeValue::M(m) => match dec_map_exec(m, &**vshape) {
                    Result::Ok(ps) => Result::Ok(TypedValue::MapVal(ps)),
                    Result::Err(e) => Result::Err(e),
                },
                _ => Result::Err(Error::at_root(ErrorKind::InvalidType)),
            },
        },
        Shape::Enum(vs) => match oa {
            Option::None => Result::Err(Error::at_root(ErrorKind::MissingField)),
            Option::Some(a) => match a {
                AttributeValue::S(name) => match find_variant(vs, name) {
                    Option::Some(var) => {
                        if let VariantShape::Unit = &var.payload {
                            Result::Ok(TypedValue::EnumUnit(name.clone()))
                        } else {
                            Result::Err(Error::at_root(ErrorKind::InvalidType))
                        }
                    },
                    Option::None => Result::Err(Error::at_root(ErrorKind::InvalidType)),
                },
                AttributeValue::M(m) => dec_enum_exec(m, vs),
                _ => Result::Err(Error::at_root(ErrorKind::InvalidType)),
            },
        },
        Shape::Any => match oa {
            Option::None => Result::Err(Error::at_root(ErrorKind::MissingField)),
            Option::Some(a) => dec_any_exec(a),
        },
        _ => dec_scalar_exec(oa, shape),
    }
}


/// Decodes a sequence source against the element shape.
#[verifier::loop_isolation(false)]
fn dec_seq_exec(a: &AttributeValue, elem: &Shape) -> (r: Result<Vec<TypedValue>, Error>)
    ensures
        match r {
            Result::Ok(ts) => dec_seq_items(a@, *elem) == Result::<Seq<TypedV>, ErrorKind>::Ok(
                crate::typed::tvs_view(ts@),
            ),
            Result::Err(e) => dec_seq_items(a@, *elem) == Result::<Seq<TypedV>, ErrorKind>::Err(
                e.kind,
            ),
        },
    decreases *elem, 2int,
{
    match a {
        AttributeValue::L(items) => dec_list_shared(items, elem),
        AttributeValue::NS(ns) => {
            let items2 = ns_to_attrs(ns);
            dec_list_shared(&items2, elem)
        },
        AttributeValue::SS(ss) => {
            let items2 = ss_to_attrs(ss);
            dec_list_shared(&items2, elem)
        },
        AttributeValue::BS(bs) => {
            let items2 = bs_to_attrs(bs);
            dec_list_shared(&items2, elem)
        },
        _ => Result::Err(Error::at_root(ErrorKind::InvalidType)),
    }
}

/// Decodes the elements of a list against the element shape.
#[verifier::loop_isolation(false)]
fn dec_list_shared(items: &Vec<AttributeValue>, elem: &Shape) -> (r: Result<Vec<TypedValue>, Error>)
    ensures
        match r {
            Result::Ok(ts) => dec_list_elems(avs_view(items@), *elem) == Result::<
                Seq<TypedV>,
                ErrorKind,
            >::Ok(crate::typed::tvs_view(ts@)),
            Result::Err(e) => dec_list_elems(avs_view(items@), *elem) == Result::<
                Seq<TypedV>,
                ErrorKind,
            >::Err(e.kind),
        },
    decreases *elem, 1int,
{
    let mut out: Vec<TypedValue> = Vec::new();
    let n = items.len();
    proof {
        crate::attr::lemma_avs_view(items@);
    }
    for i in 0..n
        invariant
            n == items@.len(),
            avs_view(items@).len() == n,
            forall|k: int| 0 <= k < n ==> avs_view(items@)[k] == av_view(items@[k]),
            out@.len() == i,
            forall|j: int| 0 <= j < i ==> (#[trigger] dec_at(
                Option::Some(avs_view(items@)[j]),
                *elem,
            )) == Result::<TypedV, ErrorKind>::Ok(tv_view(out@[j])),
    {
        match dec_attr(Option::Some(&items[i]), elem) {
            Result::Ok(t) => {
                out.push(t);
            },
            Result::Err(e) => {
                proof {
                    assert(forall|j: int| 0 <= j < i ==> dec_at(
                        Option::Some(avs_view(items@)[j]),
                        *elem,
                    ) is Ok);
                    assert(dec_at(Option::Some(avs_view(items@)[i as int]), *elem)
                        == Result::<TypedV, ErrorKind>::Err(e.kind));
                    lemma_dec_list_err(avs_view(items@), *elem, i as int, e.kind);
                }
                return Result::Err(e);
            },
        }
    }
    proof {
        crate::typed::lemma_tvs_view(out@);
        lemma_dec_list_ok(avs_view(items@), *elem, crate::typed::tvs_view(out@));
    }
    Result::Ok(out)
}

/// Decodes tuple elements from their positional keys.
#[verifier::loop_isolation(false)]
fn dec_tuple_exec(m: &AttrMap, shapes: &Vec<Shape>) -> (r: Result<Vec<TypedValue>, Error>)
    ensures
        match r {
            Result::Ok(ts) => dec_tuple_elems(m@, shapes@, 0) == Result::<
                Seq<TypedV>,
                ErrorKind,
            >::Ok(crate::typed::tvs_view(ts@)),
            Result::Err(e) => dec_tuple_elems(m@, shapes@, 0) == Result::<
                Seq<TypedV>,
                ErrorKind,
            >::Err(e.kind),
        },
    decreases *shapes, 1int,
{
    let mut out: Vec<TypedValue> = Vec::new();
    let n = shapes.len();
    for i in 0..n
        invariant
            n == shapes@.len(),
            out@.len() == i,
            forall|j: int| 0 <= j < i ==> dec_tuple_one(m@, shapes@[j], j as nat) == Result::<
                TypedV,
                ErrorKind,
            >::Ok(tv_view(out@[j])),
    {
        let key = crate::ser::make_tuple_key(i);
        match m.get(&key) {
            Option::None => {
                proof {
                    lemma_dec_tuple_err(m@, shapes@, 0, i as int, ErrorKind::MissingField);
                }
                return Result::Err(Error::new(ErrorKind::MissingField, key));
            },
            Option::Some(a) => {
                match dec_attr(Option::Some(a), &shapes[i]) {
                    Result::Ok(t) => {
                        out.push(t);
                    },
                    Result::Err(e) => {
                        proof {
                            lemma_dec_tuple_err(m@, shapes@, 0, i as int, e.kind);
                        }
                        return Result::Err(e);
                    },
                }
            },
        }
    }
    proof {
        crate::typed::lemma_tvs_view(out@);
        lemma_dec_tuple_ok(m@, shapes@, 0, crate::typed::tvs_view(out@));
    }
    Result::Ok(out)
}

/// Decodes a struct's expected fields, driven by the field set.
#[verifier::loop_isolation(false)]
fn dec_struct_exec(m: &AttrMap, fields: &Vec<Field>) -> (r: Result<
    Vec<(String, TypedValue)>,
    Error,
>)
    ensures
        match r {
            Result::Ok(fs) => dec_struct_fields(m@, fields@) == Result::<
                Seq<(Seq<char>, TypedV)>,
                ErrorKind,
            >::Ok(crate::typed::tv_fields_view(fs@)),
            Result::Err(e) => dec_struct_fields(m@, fields@) == Result::<
                Seq<(Seq<char>, TypedV)>,
                ErrorKind,
            >::Err(e.kind),
        },
    decreases *fields, 1int,
{
    let mut out: Vec<(String, TypedValue)> = Vec::new();
    let n = fields.len();
    for i in 0..n
        invariant
            n == fields@.len(),
            out@.len() == i,
            forall|j: int| 0 <= j < i ==> dec_field_one(m@, fields@[j]) == Result::<
                TypedV,
                ErrorKind,
            >::Ok(tv_view(out@[j].1)) && out@[j].0@ == fields@[j].name@,
    {
        let decoded = match m.get(&fields[i].name) {
            Option::Some(a) => dec_attr(Option::Some(a), &fields[i].shape),
            Option::None => match &fields[i].default {
                Option::Some(d) => Result::Ok(clone_typed(d)),
                Option::None => dec_attr(Option::None, &fields[i].shape),
            },
        };
        match decoded {
            Result::Ok(t) => {
                let name = fields[i].name.clone();
                out.push((name, t));
            },
            Result::Err(e) => {
                proof {
                    lemma_dec_struct_err(m@, fields@, i as int, e.kind);
                }
                if e.key.as_str().is_empty() {
                    let key = fields[i].name.clone();
                    return Result::Err(Error::new(e.kind, key));
                }
                return Result::Err(e);
            },
        }
    }
    proof {
        crate::typed::lemma_tv_fields_view(out@);
        lemma_dec_struct_ok(m@, fields@, crate::typed::tv_fields_view(out@));
    }
    Result::Ok(out)
}

/// Decodes a mapping: every stored entry, keys as string values.
#[verifier::loop_isolation(false)]
fn dec_map_exec(m: &AttrMap, vshape: &Shape) -> (r: Result<Vec<(TypedValue, TypedValue)>, Error>)
    ensures
        match r {
            Result::Ok(ps) => dec_map_entries(m@, *vshape) == Result::<
                Seq<(TypedV, TypedV)>,
                ErrorKind,
            >::Ok(crate::typed::tv_pairs_view(ps@)),
            Result::Err(e) => dec_map_entries(m@, *vshape) == Result::<
                Seq<(TypedV, TypedV)>,
                ErrorKind,
            >::Err(e.kind),
        },
    decreases *vshape, 1int,
{
    let mut out: Vec<(TypedValue, TypedValue)> = Vec::new();
    let n = m.entries.len();
    proof {
        crate::attr::lemma_entries_view(m.entries@);
    }
    for i in 0..n
        invariant
            n == m.entries@.len(),
            m@.len() == n,
            forall|k: int| 0 <= k < n ==> m@[k] == (m.entries@[k].0@, av_view(m.entries@[k].1)),
            out@.len() == i,
            forall|j: int| 0 <= j < i ==> dec_at(Option::Some(m@[j].1), *vshape) == Result::<
                TypedV,
                ErrorKind,
            >::Ok(tv_view(out@[j].1)) && tv_view(out@[j].0) == TypedV::Str(m@[j].0),
    {
        match dec_attr(Option::Some(&m.entries[i].1), vshape) {
            Result::Ok(t) => {
                let key = TypedValue::Str(m.entries[i].0.clone());
                out.push((key, t));
            },
            Result::Err(e) => {
                proof {
                    lemma_dec_map_err(m@, *vshape, i as int, e.kind);
                }
                return Result::Err(e);
            },
        }
    }
    proof {
        crate::typed::lemma_tv_pairs_view(out@);
        lemma_dec_map_ok(m@, *vshape, crate::typed::tv_pairs_view(out@));
    }
    Result::Ok(out)
}

/// Decodes a sum type from the map holding its reserved keys.
#[verifier::loop_isolation(false)]
fn dec_enum_exec(m: &AttrMap, vs: &Vec<Variant>) -> (r: Result<TypedValue, Error>)
    ensures
        match r {
            Result::Ok(t) => dec_enum_in(m@, vs@) == Result::<TypedV, ErrorKind>::Ok(t@),
            Result::Err(e) => dec_enum_in(m@, vs@) == Result::<TypedV, ErrorKind>::Err(e.kind),
        },
    decreases *vs, 1int,
{
    let tagk = String::from_str("___enum_tag");
    let tag = match m.get(&tagk) {
        Option::None => {
            return Result::Err(Error::new(ErrorKind::MissingField, tagk));
        },
        Option::Some(a) => a,
    };
    let name = match tag {
        AttributeValue::S(name) => name,
        _ => {
            return Result::Err(Error::new(ErrorKind::InvalidType, tagk));
        },
    };
    let valsk = String::from_str("___enum_values");
    let empty = AttrMap::new();
    let values: &AttrMap = match m.get(&valsk) {
        Option::Some(AttributeValue::M(vm)) => vm,
        _ => &empty,
    };
    let ghost spec_values = match map_get(m@, values_key()) {
        Option::Some(AttrV::M(vm)) => vm,
        _ => Seq::empty(),
    };
    proof {
        assert(values@ =~= spec_values);
    }
    let n = vs.len();
    for i in 0..n
        invariant
            n == vs@.len(),
            forall|j: int| 0 <= j < i ==> vs@[j].name@ != name@,
    {
        if vs[i].name == *name {
            proof {
                lemma_dec_enum_pick_skip(spec_values, name@, vs@, i as int);
                assert(vs@.skip(i as int)[0] == vs@[i as int]);
            }
            match &vs[i].payload {
                VariantShape::Unit => {
                    return Result::Ok(TypedValue::EnumUnit(name.clone()));
                },
                VariantShape::Newtype(inner) => {
                    let k0 = crate::ser::make_tuple_key(0);
                    match dec_attr(values.get(&k0), &**inner) {
                        Result::Ok(t) => {
                            return Result::Ok(
                                TypedValue::EnumNewtype(name.clone(), Box::new(t)),
                            );
                        },
                        Result::Err(e) => {
                            return Result::Err(e);
                        },
                    }
                },
                VariantShape::TupleLike(shapes) => {
                    match dec_tuple_exec(values, shapes) {
                        Result::Ok(ts) => {
                            return Result::Ok(TypedValue::EnumTuple(name.clone(), ts));
                        },
                        Result::Err(e) => {
                            return Result::Err(e);
                        },
                    }
                },
                VariantShape::StructLike(fields) => {
                    match dec_struct_exec(values, fields) {
                        Result::Ok(fs) => {
                            return Result::Ok(TypedValue::EnumStruct(name.clone(), fs));
                        },
                        Result::Err(e) => {
                            return Result::Err(e);
                        },
                    }
                },
            }
        }
    }
    proof {
        lemma_dec_enum_pick_skip(spec_values, name@, vs@, n as int);
        assert(vs@.skip(n as int).len() == 0);
    }
    Result::Err(Error::new(ErrorKind::InvalidType, name.clone()))
}

/// Best-effort decode of one attribute, driven by its populated variant.
#[verifier::loop_isolation(false)]
fn dec_any_exec(a: &AttributeValue) -> (r: Result<TypedValue, Error>)
    ensures
        match r {
            Result::Ok(t) => dec_any(a@) == Result::<TypedV, ErrorKind>::Ok(t@),
            Result::Err(e) => dec_any(a@) == Result::<TypedV, ErrorKind>::Err(e.kind),
        },
    decreases *a,
{
    match a {
        AttributeValue::B(b) => Result::Ok(TypedValue::Bytes(b.clone())),
        AttributeValue::Bool(b) => Result::Ok(TypedValue::Bool(*b)),
        AttributeValue::L(items) => {
            let mut out: Vec<TypedValue> = Vec::new();
            let n = items.len();
            proof {
                crate::attr::lemma_avs_view(items@);
            }
            for i in 0..n
                invariant
                    n == items@.len(),
                    avs_view(items@).len() == n,
                    forall|k: int| 0 <= k < n ==> avs_view(items@)[k] == av_view(items@[k]),
                    out@.len() == i,
                    forall|j: int| 0 <= j < i ==> dec_any(avs_view(items@)[j]) == Result::<
                        TypedV,
                        ErrorKind,
                    >::Ok(tv_view(out@[j])),
            {
                match dec_any_exec(&items[i]) {
                    Result::Ok(t) => {
                        out.push(t);
                    },
                    Result::Err(e) => {
                        proof {
                            lemma_dec_any_list_err(avs_view(items@), i as int, e.kind);
                        }
                        return Result::Err(e);
                    },
                }
            }
            proof {
                crate::typed::lemma_tvs_view(out@);
                lemma_dec_any_list_ok(avs_view(items@), crate::typed::tvs_view(out@));
            }
            Result::Ok(TypedValue::SeqVal(out))
        },
        AttributeValue::NS(ns) => {
            let mut out: Vec<TypedValue> = Vec::new();
            let n = ns.len();
            for i in 0..n
                invariant
                    n == ns@.len(),
                    out@.len() == i,
                    forall|j: int| 0 <= j < i ==> tv_view(out@[j]) == TypedV::Float(ns@[j]@),
            {
                out.push(TypedValue::Float(ns[i].clone()));
            }
            proof {
                crate::typed::lemma_tvs_view(out@);
                assert(crate::typed::tvs_view(out@) =~= (ns@.map_values(
                    |s: String| s@,
                )).map_values(|s: Seq<char>| TypedV::Float(s)));
            }
            Result::Ok(TypedValue::SeqVal(out))
        },
        AttributeValue::SS(ss) => {
            let mut out: Vec<TypedValue> = Vec::new();
            let n = ss.len();
            for i in 0..n
                invariant
                    n == ss@.len(),
                    out@.len() == i,
                    forall|j: int| 0 <= j < i ==> tv_view(out@[j]) == TypedV::Str(ss@[j]@),
            {
                out.push(TypedValue::Str(ss[i].clone()));
            }
            proof {
                crate::typed::lemma_tvs_view(out@);
                assert(crate::typed::tvs_view(out@) =~= (ss@.map_values(
                    |s: String| s@,
                )).map_values(|s: Seq<char>| TypedV::Str(s)));
            }
            Result::Ok(TypedValue::SeqVal(out))
        },
        AttributeValue::BS(bs) => {
            let mut out: Vec<TypedValue> = Vec::new();
            let n = bs.len();
            for i in 0..n
                invariant
                    n == bs@.len(),
                    out@.len() == i,
                    forall|j: int| 0 <= j < i ==> tv_view(out@[j]) == TypedV::Bytes(bs@[j]@),
            {
                out.push(TypedValue::Bytes(bs[i].clone()));
            }
            proof {
                crate::typed::lemma_tvs_view(out@);
                assert(crate::typed::tvs_view(out@) =~= (bs@.map_values(
                    |b: Vec<u8>| b@,
                )).map_values(|b: Seq<u8>| TypedV::Bytes(b)));
            }
            Result::Ok(TypedValue::SeqVal(out))
        },
        AttributeValue::M(m) => {
            let mut out: Vec<(TypedValue, TypedValue)> = Vec::new();
            let n = m.entries.len();
            proof {
                crate::attr::lemma_entries_view(m.entries@);
            }
            for i in 0..n
                invariant
                    n == m.entries@.len(),
                    m@.len() == n,
                    forall|k: int| 0 <= k < n ==> m@[k] == (
                        m.entries@[k].0@,
                        av_view(m.entries@[k].1),
                    ),
                    out@.len() == i,
                    forall|j: int| 0 <= j < i ==> dec_any(m@[j].1) == Result::<
                        TypedV,
                        ErrorKind,
                    >::Ok(tv_view(out@[j].1)) && tv_view(out@[j].0) == TypedV::Str(m@[j].0),
            {
                match dec_any_exec(&m.entries[i].1) {
                    Result::Ok(t) => {
                        let key = TypedValue::Str(m.entries[i].0.clone());
                        out.push((key, t));
                    },
                    Result::Err(e) => {
                        proof {
                            lemma_dec_any_map_err(m@, i as int, e.kind);
                        }
                        return Result::Err(e);
                    },
                }
            }
            proof {
                crate::typed::lemma_tv_pairs_view(out@);
                lemma_dec_any_map_ok(m@, crate::typed::tv_pairs_view(out@));
            }
            Result::Ok(TypedValue::MapVal(out))
        },
        AttributeValue::N(s) => Result::Ok(TypedValue::Float(s.clone())),
        AttributeValue::Null => Result::Ok(TypedValue::Unit),
        AttributeValue::S(s) => Result::Ok(TypedValue::Str(s.clone())),
    }
}

/// The decoder: owns the attribute-value map an item is read from.
pub struct Deserializer {
    /// The top-level map being read.
    pub attrs: AttrMap,
}

impl Deserializer {
    /// A decoder over the given map.
    pub fn new(attrs: AttrMap) -> (r: Deserializer)
        ensures
            r.attrs == attrs,
    {
        Deserializer { attrs }
    }

    /// Decodes the whole item against the requested shape: aggregate shapes
    /// read the top-level entries directly, any other shape reads as if its
    /// position were absent.
    pub fn deserialize_item(&self, shape: &Shape) -> (r: Result<TypedValue, Error>)
        ensures
            match r {
                Result::Ok(t) => dec_root(self.attrs@, *shape) == Result::<
                    TypedV,
                    ErrorKind,
                >::Ok(t@),
                Result::Err(e) => dec_root(self.attrs@, *shape) == Result::<
                    TypedV,
                    ErrorKind,
                >::Err(e.kind),
            },
    {
        match shape {
            Shape::Tuple(shapes) => match dec_tuple_exec(&self.attrs, shapes) {
                Result::Ok(ts) => Result::Ok(TypedValue::Tuple(ts)),
                Result::Err(e) => Result::Err(e),
            },
            Shape::Struct(fields) => match dec_struct_exec(&self.attrs, fields) {
                Result::Ok(fs) => Result::Ok(TypedValue::Struct(fs)),
                Result::Err(e) => Result::Err(e),
            },
            Shape::MapOf(vshape) => match dec_map_exec(&self.attrs, &**vshape) {
                Result::Ok(ps) => Result::Ok(TypedValue::MapVal(ps)),
                Result::Err(e) => Result::Err(e),
            },
            Shape::Enum(vs) => dec_enum_exec(&self.attrs, vs),
            _ => dec_attr(Option::None, shape),
        }
    }
}

/// Decodes a whole item: reconstructs a typed value of the requested shape
/// from the map, using the root-level rules.
pub fn from_hashmap(attrs: AttrMap, shape: &Shape) -> (r: Result<TypedValue, Error>)
    ensures
        match r {
            Result::Ok(t) => dec_root(attrs@, *shape) == Result::<TypedV, ErrorKind>::Ok(t@),
            Result::Err(e) => dec_root(attrs@, *shape) == Result::<TypedV, ErrorKind>::Err(
                e.kind,
            ),
        },
{
    let de = Deserializer::new(attrs);
    de.deserialize_item(shape)
}

} // verus!
