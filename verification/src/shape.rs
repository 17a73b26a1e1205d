//! The target shapes that drive a decode.  The wire format carries no
//! schema, so a caller hands the decoder a [`Shape`] describing the typed
//! value it wants back, mirroring the closed shape set of
//! [`crate::typed::TypedValue`].

use vstd::prelude::*;
use crate::typed::TypedValue;

verus! {

/// A decode target shape.
#[derive(Debug)]
pub enum Shape {
    /// Boolean.
    Bool,
    /// Signed integer of width 8.
    I8,
    /// Signed integer of width 16.
    I16,
    /// Signed integer of width 32.
    I32,
    /// Signed integer of width 64.
    I64,
    /// Unsigned integer of width 8.
    U8,
    /// Unsigned integer of width 16.
    U16,
    /// Unsigned integer of width 32.
    U32,
    /// Unsigned integer of width 64.
    U64,
    /// Floating-point value, carried as its base-10 string.
    Float,
    /// Single character.
    Char,
    /// Text string.
    Str,
    /// Byte string.
    Bytes,
    /// Unit, and unit structs.
    Unit,
    /// Optional value of the inner shape.
    Optional(Box<Shape>),
    /// Ordered sequence of elements of the inner shape.
    SeqOf(Box<Shape>),
    /// Fixed-arity tuple, and tuple structs.
    Tuple(Vec<Shape>),
    /// Named-field struct with its expected field set.
    Struct(Vec<Field>),
    /// Mapping from string keys to values of the inner shape.
    MapOf(Box<Shape>),
    /// Sum type with its variant set.
    Enum(Vec<Variant>),
    /// Best-effort decode driven by whichever wire variant is populated.
    Any,
}

/// One expected field of a struct target: its name, its shape, and the value
/// it falls back to when the key is absent.
#[derive(Debug)]
pub struct Field {
    /// The field's key in the wire map.
    pub name: String,
    /// The shape of the field's value.
    pub shape: Shape,
    /// The declared fallback used when the key is absent, if any.
    pub default: Option<TypedValue>,
}

/// One variant of a sum-type target: its name and its payload kind.
#[derive(Debug)]
pub struct Variant {
    /// The variant name carried in the wire tag.
    pub name: String,
    /// What the variant carries.
    pub payload: VariantShape,
}

/// The payload kind of a sum-type variant.
#[derive(Debug)]
pub enum VariantShape {
    /// No payload.
    Unit,
    /// A single positional payload of the inner shape.
    Newtype(Box<Shape>),
    /// Several positional payloads.
    TupleLike(Vec<Shape>),
    /// A named-field payload with its expected field set.
    StructLike(Vec<Field>),
}

/// The first variant named `name`, if any.
pub open spec fn variant_get(vs: Seq<Variant>, name: Seq<char>) -> Option<Variant>
    decreases vs.len(),
{
    if vs.len() == 0 {
        Option::None
    } else if vs[0].name@ == name {
        Option::Some(vs[0])
    } else {
        variant_get(vs.drop_first(), name)
    }
}

/// When `vs[i]` is the first variant named `name`, `variant_get` returns it.
pub proof fn lemma_variant_get_index(vs: Seq<Variant>, name: Seq<char>, i: int)
    requires
        0 <= i < vs.len(),
        vs[i].name@ == name,
        forall|j: int| 0 <= j < i ==> vs[j].name@ != name,
    ensures
        variant_get(vs, name) == Option::Some(vs[i]),
    decreases i,
{
    if i > 0 {
        assert(vs.drop_first()[i - 1] == vs[i]);
        assert(forall|j: int| 0 <= j < i - 1 ==> vs.drop_first()[j] == vs[j + 1]);
        lemma_variant_get_index(vs.drop_first(), name, i - 1);
    }
}

/// When no variant is named `name`, `variant_get` finds none.
pub proof fn lemma_variant_get_absent(vs: Seq<Variant>, name: Seq<char>)
    requires
        forall|j: int| 0 <= j < vs.len() ==> vs[j].name@ != name,
    ensures
        variant_get(vs, name) is None,
    decreases vs.len(),
{
    if vs.len() > 0 {
        assert(forall|j: int| 0 <= j < vs.len() - 1 ==> vs.drop_first()[j] == vs[j + 1]);
        lemma_variant_get_absent(vs.drop_first(), name);
    }
}

/// Looks a variant up by name: the first one so named, if any.
pub fn find_variant<'a>(vs: &'a Vec<Variant>, name: &String) -> (r: Option<&'a Variant>)
    ensures
        match r {
            Option::Some(v) => variant_get(vs@, name@) == Option::Some(*v),
            Option::None => variant_get(vs@, name@) is None,
        },
{
    let n = vs.len();
    for i in 0..n
        invariant
            n == vs@.len(),
            forall|j: int| 0 <= j < i ==> vs@[j].name@ != name@,
    {
        if vs[i].name == *name {
            proof {
                lemma_variant_get_index(vs@, name@, i as int);
            }
            return Option::Some(&vs[i]);
        }
    }
    proof {
        lemma_variant_get_absent(vs@, name@);
    }
    Option::None
}

} // verus!
