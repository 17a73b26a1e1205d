//! The typed value model the encoder consumes and the decoder produces:
//! the closed set of structured-data shapes (scalars, strings, byte strings,
//! options, sequences, tuples, named-field structs, mappings, and sum types
//! with their four payload kinds).
//!
//! Floating-point values are carried in their base-10 string form: the wire
//! format transports every number as a decimal string, so a float field
//! travels through the codec as exactly the string a caller formatted it to.

use vstd::prelude::*;

verus! {

/// Spec-level typed value: the mathematical model of a [`TypedValue`].
pub enum TypedV {
    /// Boolean.
    Bool(bool),
    /// Signed integer of width 8.
    I8(i8),
    /// Signed integer of width 16.
    I16(i16),
    /// Signed integer of width 32.
    I32(i32),
    /// Signed integer of width 64.
    I64(i64),
    /// Unsigned integer of width 8.
    U8(u8),
    /// Unsigned integer of width 16.
    U16(u16),
    /// Unsigned integer of width 32.
    U32(u32),
    /// Unsigned integer of width 64.
    U64(u64),
    /// Floating-point value in its base-10 string form.
    Float(Seq<char>),
    /// Single character.
    Char(char),
    /// Text string.
    Str(Seq<char>),
    /// Byte string.
    Bytes(Seq<u8>),
    /// Unit, and unit structs.
    Unit,
    /// Absent optional value.
    NoneVal,
    /// Present optional value.
    SomeVal(Box<TypedV>),
    /// Ordered sequence.
    SeqVal(Seq<TypedV>),
    /// Fixed-arity tuple, and tuple structs.
    Tuple(Seq<TypedV>),
    /// Named-field struct: fields in declaration order.
    Struct(Seq<(Seq<char>, TypedV)>),
    /// Mapping with typed keys, in insertion order.
    MapVal(Seq<(TypedV, TypedV)>),
    /// Sum-type variant without payload.
    EnumUnit(Seq<char>),
    /// Sum-type variant with a single positional payload.
    EnumNewtype(Seq<char>, Box<TypedV>),
    /// Sum-type variant with several positional payloads.
    EnumTuple(Seq<char>, Seq<TypedV>),
    /// Sum-type variant with named-field payload.
    EnumStruct(Seq<char>, Seq<(Seq<char>, TypedV)>),
}

/// A typed value: what the encoder consumes and the decoder produces.
#[derive(Debug)]
pub enum TypedValue {
    /// Boolean.
    Bool(bool),
    /// Signed integer of width 8.
    I8(i8),
    /// Signed integer of width 16.
    I16(i16),
    /// Signed integer of width 32.
    I32(i32),
    /// Signed integer of width 64.
    I64(i64),
    /// Unsigned integer of width 8.
    U8(u8),
    /// Unsigned integer of width 16.
    U16(u16),
    /// Unsigned integer of width 32.
    U32(u32),
    /// Unsigned integer of width 64.
    U64(u64),
    /// Floating-point value in its base-10 string form.
    Float(String),
    /// Single character.
    Char(char),
    /// Text string.
    Str(String),
    /// Byte string.
    Bytes(Vec<u8>),
    /// Unit, and unit structs.
    Unit,
    /// Absent optional value.
    NoneVal,
    /// Present optional value.
    SomeVal(Box<TypedValue>),
    /// Ordered sequence.
    SeqVal(Vec<TypedValue>),
    /// Fixed-arity tuple, and tuple structs.
    Tuple(Vec<TypedValue>),
    /// Named-field struct: fields in declaration order.
    Struct(Vec<(String, TypedValue)>),
    /// Mapping with typed keys, in insertion order.
    MapVal(Vec<(TypedValue, TypedValue)>),
    /// Sum-type variant without payload.
    EnumUnit(String),
    /// Sum-type variant with a single positional payload.
    EnumNewtype(String, Box<TypedValue>),
    /// Sum-type variant with several positional payloads.
    EnumTuple(String, Vec<TypedValue>),
    /// Sum-type variant with named-field payload.
    EnumStruct(String, Vec<(String, TypedValue)>),
}

/// The model of one typed value.
pub open spec fn tv_view(v: TypedValue) -> TypedV
    decreases v,
{
    match v {
        TypedValue::Bool(b) => TypedV::Bool(b),
        TypedValue::I8(i) => TypedV::I8(i),
        TypedValue::I16(i) => TypedV::I16(i),
        TypedValue::I32(i) => TypedV::I32(i),
        TypedValue::I64(i) => TypedV::I64(i),
        TypedValue::U8(u) => TypedV::U8(u),
        TypedValue::U16(u) => TypedV::U16(u),
        TypedValue::U32(u) => TypedV::U32(u),
        TypedValue::U64(u) => TypedV::U64(u),
        TypedValue::Float(s) => TypedV::Float(s@),
        TypedValue::Char(c) => TypedV::Char(c),
        TypedValue::Str(s) => TypedV::Str(s@),
        TypedValue::Bytes(b) => TypedV::Bytes(b@),
        TypedValue::Unit => TypedV::Unit,
        TypedValue::NoneVal => TypedV::NoneVal,
        TypedValue::SomeVal(b) => TypedV::SomeVal(Box::new(tv_view(*b))),
        TypedValue::SeqVal(l) => TypedV::SeqVal(tvs_view(l@)),
        TypedValue::Tuple(l) => TypedV::Tuple(tvs_view(l@)),
        TypedValue::Struct(f) => TypedV::Struct(tv_fields_view(f@)),
        TypedValue::MapVal(p) => TypedV::MapVal(tv_pairs_view(p@)),
        TypedValue::EnumUnit(n) => TypedV::EnumUnit(n@),
        TypedValue::EnumNewtype(n, b) => TypedV::EnumNewtype(n@, Box::new(tv_view(*b))),
        TypedValue::EnumTuple(n, l) => TypedV::EnumTuple(n@, tvs_view(l@)),
        TypedValue::EnumStruct(n, f) => TypedV::EnumStruct(n@, tv_fields_view(f@)),
    }
}

/// The model of a sequence of typed values, element by element.
pub open spec fn tvs_view(s: Seq<TypedValue>) -> Seq<TypedV>
    decreases s,
{
    if s.len() == 0 {
        Seq::empty()
    } else {
        seq![tv_view(s[0])] + tvs_view(s.drop_first())
    }
}

/// The model of a sequence of named fields, field by field.
pub open spec fn tv_fields_view(s: Seq<(String, TypedValue)>) -> Seq<(Seq<char>, TypedV)>
    decreases s,
{
    if s.len() == 0 {
        Seq::empty()
    } else {
        seq![(s[0].0@, tv_view(s[0].1))] + tv_fields_view(s.drop_first())
    }
}

/// The model of a sequence of key-value pairs, pair by pair.
pub open spec fn tv_pairs_view(s: Seq<(TypedValue, TypedValue)>) -> Seq<(TypedV, TypedV)>
    decreases s,
{
    if s.len() == 0 {
        Seq::empty()
    } else {
        seq![(tv_view(s[0].0), tv_view(s[0].1))] + tv_pairs_view(s.drop_first())
    }
}

impl View for TypedValue {
    type V = TypedV;

    open spec fn view(&self) -> TypedV {
        tv_view(*self)
    }
}

/// `tvs_view` maps its argument pointwise.
pub proof fn lemma_tvs_view(s: Seq<TypedValue>)
    ensures
        tvs_view(s).len() == s.len(),
        forall|i: int| 0 <= i < s.len() ==> tvs_view(s)[i] == tv_view(s[i]),
    decreases s.len(),
{
    if s.len() > 0 {
        lemma_tvs_view(s.drop_first());
    }
}

/// `tv_fields_view` maps its argument pointwise.
pub proof fn lemma_tv_fields_view(s: Seq<(String, TypedValue)>)
    ensures
        tv_fields_view(s).len() == s.len(),
        forall|i: int| 0 <= i < s.len() ==> tv_fields_view(s)[i] == (s[i].0@, tv_view(s[i].1)),
    decreases s.len(),
{
    if s.len() > 0 {
        lemma_tv_fields_view(s.drop_first());
    }
}

/// `tv_pairs_view` maps its argument pointwise.
pub proof fn lemma_tv_pairs_view(s: Seq<(TypedValue, TypedValue)>)
    ensures
        tv_pairs_view(s).len() == s.len(),
        forall|i: int| 0 <= i < s.len() ==> tv_pairs_view(s)[i] == (
            tv_view(s[i].0),
            tv_view(s[i].1),
        ),
    decreases s.len(),
{
    if s.len() > 0 {
        lemma_tv_pairs_view(s.drop_first());
    }
}


/// Whether two byte strings hold the same bytes.
#[verifier::loop_isolation(false)]
fn bytes_eq(a: &Vec<u8>, b: &Vec<u8>) -> (r: bool)
    ensures
        r == (a@ == b@),
{
    if a.len() != b.len() {
        return false;
    }
    let n = a.len();
    for i in 0..n
        invariant
            n == a@.len() == b@.len(),
            forall|j: int| 0 <= j < i ==> a@[j] == b@[j],
    {
        if a[i] != b[i] {
            return false;
        }
    }
    proof {
        assert(a@ =~= b@);
    }
    true
}


/// A typed value and its model are always the same variant.
proof fn lemma_view_variant(v: TypedValue)
    ensures
        v is Bool <==> tv_view(v) is Bool,
        v is I8 <==> tv_view(v) is I8,
        v is I16 <==> tv_view(v) is I16,
        v is I32 <==> tv_view(v) is I32,
        v is I64 <==> tv_view(v) is I64,
        v is U8 <==> tv_view(v) is U8,
        v is U16 <==> tv_view(v) is U16,
        v is U32 <==> tv_view(v) is U32,
        v is U64 <==> tv_view(v) is U64,
        v is Float <==> tv_view(v) is Float,
        v is Char <==> tv_view(v) is Char,
        v is Str <==> tv_view(v) is Str,
        v is Bytes <==> tv_view(v) is Bytes,
        v is Unit <==> tv_view(v) is Unit,
        v is NoneVal <==> tv_view(v) is NoneVal,
        v is SomeVal <==> tv_view(v) is SomeVal,
        v is SeqVal <==> tv_view(v) is SeqVal,
        v is Tuple <==> tv_view(v) is Tuple,
        v is Struct <==> tv_view(v) is Struct,
        v is MapVal <==> tv_view(v) is MapVal,
        v is EnumUnit <==> tv_view(v) is EnumUnit,
        v is EnumNewtype <==> tv_view(v) is EnumNewtype,
        v is EnumTuple <==> tv_view(v) is EnumTuple,
        v is EnumStruct <==> tv_view(v) is EnumStruct,
{
}

/// Whether two typed values are the same value, by deep comparison.
#[verifier::rlimit(100)]
pub fn typed_eq(a: &TypedValue, b: &TypedValue) -> (r: bool)
    ensures
        r == (a@ == b@),
    decreases *a,
{
    match (a, b) {
        (TypedValue::Bool(x), TypedValue::Bool(y)) => x == y,
        (TypedValue::I8(x), TypedValue::I8(y)) => x == y,
        (TypedValue::I16(x), TypedValue::I16(y)) => x == y,
        (TypedValue::I32(x), TypedValue::I32(y)) => x == y,
        (TypedValue::I64(x), TypedValue::I64(y)) => x == y,
        (TypedValue::U8(x), TypedValue::U8(y)) => x == y,
        (TypedValue::U16(x), TypedValue::U16(y)) => x == y,
        (TypedValue::U32(x), TypedValue::U32(y)) => x == y,
        (TypedValue::U64(x), TypedValue::U64(y)) => x == y,
        (TypedValue::Float(x), TypedValue::Float(y)) => *x == *y,
        (TypedValue::Char(x), TypedValue::Char(y)) => x == y,
        (TypedValue::Str(x), TypedValue::Str(y)) => *x == *y,
        (TypedValue::Bytes(x), TypedValue::Bytes(y)) => bytes_eq(x, y),
        (TypedValue::Unit, TypedValue::Unit) => true,
        (TypedValue::NoneVal, TypedValue::NoneVal) => true,
        (TypedValue::SomeVal(x), TypedValue::SomeVal(y)) => typed_eq(&**x, &**y),
        (TypedValue::SeqVal(x), TypedValue::SeqVal(y)) => typed_vec_eq(x, y),
        (TypedValue::Tuple(x), TypedValue::Tuple(y)) => typed_vec_eq(x, y),
        (TypedValue::Struct(x), TypedValue::Struct(y)) => typed_fields_eq(x, y),
        (TypedValue::MapVal(x), TypedValue::MapVal(y)) => typed_pairs_eq(x, y),
        (TypedValue::EnumUnit(m), TypedValue::EnumUnit(n)) => *m == *n,
        (TypedValue::EnumNewtype(m, x), TypedValue::EnumNewtype(n, y)) => *m == *n && typed_eq(&**x, &**y),
        (TypedValue::EnumTuple(m, x), TypedValue::EnumTuple(n, y)) => *m == *n && typed_vec_eq(x, y),
        (TypedValue::EnumStruct(m, x), TypedValue::EnumStruct(n, y)) => *m == *n && typed_fields_eq(x, y),
        _ => {
            proof {
                lemma_view_variant(*a);
                lemma_view_variant(*b);
            }
            false
        },
    }
}

/// Whether two vectors of typed values are the same, element by element.
#[verifier::loop_isolation(false)]
fn typed_vec_eq(a: &Vec<TypedValue>, b: &Vec<TypedValue>) -> (r: bool)
    ensures
        r == (tvs_view(a@) == tvs_view(b@)),
    decreases *a,
{
    proof {
        lemma_tvs_view(a@);
        lemma_tvs_view(b@);
    }
    if a.len() != b.len() {
        return false;
    }
    let n = a.len();
    for i in 0..n
        invariant
            n == a@.len() == b@.len(),
            tvs_view(a@).len() == n && tvs_view(b@).len() == n,
            forall|k: int| 0 <= k < n ==> tvs_view(a@)[k] == tv_view(a@[k]) && tvs_view(b@)[k]
                == tv_view(b@[k]),
            forall|j: int| 0 <= j < i ==> tv_view(a@[j]) == tv_view(b@[j]),
    {
        if !typed_eq(&a[i], &b[i]) {
            proof {
                assert(tv_view(a@[i as int]) != tv_view(b@[i as int]));
                assert(tvs_view(a@)[i as int] != tvs_view(b@)[i as int]);
                assert(tvs_view(a@) != tvs_view(b@));
            }
            return false;
        }
    }
    proof {
        assert(tvs_view(a@) =~= tvs_view(b@));
    }
    true
}

/// Whether two vectors of named fields are the same, field by field.
#[verifier::loop_isolation(false)]
fn typed_fields_eq(a: &Vec<(String, TypedValue)>, b: &Vec<(String, TypedValue)>) -> (r: bool)
    ensures
        r == (tv_fields_view(a@) == tv_fields_view(b@)),
    decreases *a,
{
    proof {
        lemma_tv_fields_view(a@);
        lemma_tv_fields_view(b@);
    }
    if a.len() != b.len() {
        return false;
    }
    let n = a.len();
    for i in 0..n
        invariant
            n == a@.len() == b@.len(),
            tv_fields_view(a@).len() == n && tv_fields_view(b@).len() == n,
            forall|k: int| 0 <= k < n ==> tv_fields_view(a@)[k] == (
                a@[k].0@,
                tv_view(a@[k].1),
            ) && tv_fields_view(b@)[k] == (b@[k].0@, tv_view(b@[k].1)),
            forall|j: int| 0 <= j < i ==> a@[j].0@ == b@[j].0@ && tv_view(a@[j].1) == tv_view(
                b@[j].1,
            ),
    {
        if !(a[i].0 == b[i].0) {
            proof {
                assert(tv_fields_view(a@)[i as int].0 != tv_fields_view(b@)[i as int].0);
                assert(tv_fields_view(a@) != tv_fields_view(b@));
            }
            return false;
        }
        if !typed_eq(&a[i].1, &b[i].1) {
            proof {
                assert(tv_fields_view(a@)[i as int].1 != tv_fields_view(b@)[i as int].1);
                assert(tv_fields_view(a@) != tv_fields_view(b@));
            }
            return false;
        }
    }
    proof {
        assert(tv_fields_view(a@) =~= tv_fields_view(b@));
    }
    true
}

/// Whether two vectors of key-value pairs are the same, pair by pair.
#[verifier::loop_isolation(false)]
fn typed_pairs_eq(a: &Vec<(TypedValue, TypedValue)>, b: &Vec<(TypedValue, TypedValue)>) -> (r:
    bool)
    ensures
        r == (tv_pairs_view(a@) == tv_pairs_view(b@)),
    decreases *a,
{
    proof {
        lemma_tv_pairs_view(a@);
        lemma_tv_pairs_view(b@);
    }
    if a.len() != b.len() {
        return false;
    }
    let n = a.len();
    for i in 0..n
        invariant
            n == a@.len() == b@.len(),
            tv_pairs_view(a@).len() == n && tv_pairs_view(b@).len() == n,
            forall|k: int| 0 <= k < n ==> tv_pairs_view(a@)[k] == (
                tv_view(a@[k].0),
                tv_view(a@[k].1),
            ) && tv_pairs_view(b@)[k] == (tv_view(b@[k].0), tv_view(b@[k].1)),
            forall|j: int| 0 <= j < i ==> tv_view(a@[j].0) == tv_view(b@[j].0) && tv_view(
                a@[j].1,
            ) == tv_view(b@[j].1),
    {
        if !typed_eq(&a[i].0, &b[i].0) {
            proof {
                assert(tv_pairs_view(a@)[i as int].0 != tv_pairs_view(b@)[i as int].0);
                assert(tv_pairs_view(a@) != tv_pairs_view(b@));
            }
            return false;
        }
        if !typed_eq(&a[i].1, &b[i].1) {
            proof {
                assert(tv_pairs_view(a@)[i as int].1 != tv_pairs_view(b@)[i as int].1);
                assert(tv_pairs_view(a@) != tv_pairs_view(b@));
            }
            return false;
        }
    }
    proof {
        assert(tv_pairs_view(a@) =~= tv_pairs_view(b@));
    }
    true
}

impl PartialEq for TypedValue {
    fn eq(&self, other: &TypedValue) -> (r: bool) {
        typed_eq(self, other)
    }
}

impl vstd::std_specs::cmp::PartialEqSpecImpl for TypedValue {
    open spec fn obeys_eq_spec() -> bool {
        true
    }

    open spec fn eq_spec(&self, other: &TypedValue) -> bool {
        self@ == other@
    }
}

} // verus!
