//! The codec's laws, stated over the spec-level models and proved once and
//! for all: which roots encode, that numbers survive a round trip at every
//! width, that set and list sources decode alike, how sum types are tagged,
//! how absent struct fields fall back, and that encoding then decoding a
//! compatible value returns it unchanged.

use vstd::prelude::*;
use crate::attr::{
    keys_unique, lemma_keys_unique_concat, lemma_map_get_has, lemma_map_set_absent, map_get,
    map_has, AttrV,
};
use crate::de::{
    dec_at, dec_enum_in, dec_enum_pick, dec_field_one, dec_list_elems, dec_map_entries, dec_root,
    dec_seq_items, dec_signed, dec_struct_fields, dec_tuple_elems, dec_tuple_one, dec_unsigned,
    int_value, uint_value,
};
use crate::error::ErrorKind;
use crate::keyser::key_string;
use crate::num::{dec_digits, dec_str_int, dec_to_int, has_minus, lemma_dec_round_trip};
use crate::ser::{
    enc_fields, enc_list, enc_pairs, enc_root, enc_tuple_entries, enc_val, enum_entries,
    lemma_reserved_keys_distinct, newtype_values, skip_av, tag_key, tuple_key, values_key,
};
use crate::shape::{variant_get, Field, Shape, Variant, VariantShape};
use crate::typed::TypedV;

verus! {

/// Whether a typed value is an aggregate accepted at the document root.
pub open spec fn root_aggregate(v: TypedV) -> bool {
    ||| v is Tuple
    ||| v is Struct
    ||| v is MapVal
    ||| v is EnumUnit
    ||| v is EnumNewtype
    ||| v is EnumTuple
    ||| v is EnumStruct
}

/// Encoding a value below the root fails only over a map key: with
/// `UnsupportedKeyType` for a composite key or `UnsupportedShape` for a
/// byte-string key, never with any other kind.
pub proof fn lemma_enc_err_kinds(v: TypedV)
    ensures
        enc_val(v) matches Err(k) ==> k == ErrorKind::UnsupportedKeyType || k
            == ErrorKind::UnsupportedShape,
    decreases v,
{
    match v {
        TypedV::SomeVal(b) => {
            lemma_enc_err_kinds(*b);
        },
        TypedV::SeqVal(l) => {
            lemma_enc_list_err_kinds(l);
        },
        TypedV::Tuple(l) => {
            lemma_enc_tuple_err_kinds(l, 0, Seq::empty());
        },
        TypedV::Struct(f) => {
            lemma_enc_fields_err_kinds(f, Seq::empty());
        },
        TypedV::MapVal(p) => {
            lemma_enc_pairs_err_kinds(p, Seq::empty());
        },
        TypedV::EnumNewtype(_, b) => {
            lemma_enc_err_kinds(*b);
        },
        TypedV::EnumTuple(_, l) => {
            lemma_enc_tuple_err_kinds(l, 0, Seq::empty());
        },
        TypedV::EnumStruct(_, f) => {
            lemma_enc_fields_err_kinds(f, Seq::empty());
        },
        _ => {},
    }
}

proof fn lemma_enc_list_err_kinds(l: Seq<TypedV>)
    ensures
        enc_list(l) matches Err(k) ==> k == ErrorKind::UnsupportedKeyType || k
            == ErrorKind::UnsupportedShape,
    decreases l,
{
    if l.len() > 0 {
        lemma_enc_err_kinds(l[0]);
        lemma_enc_list_err_kinds(l.drop_first());
    }
}

proof fn lemma_enc_tuple_err_kinds(l: Seq<TypedV>, idx: nat, acc: Seq<(Seq<char>, AttrV)>)
    ensures
        enc_tuple_entries(l, idx, acc) matches Err(k) ==> k == ErrorKind::UnsupportedKeyType || k
            == ErrorKind::UnsupportedShape,
    decreases l,
{
    if l.len() > 0 {
        lemma_enc_err_kinds(l[0]);
        if enc_val(l[0]) is Ok {
            let a = enc_val(l[0]).unwrap();
            lemma_enc_tuple_err_kinds(
                l.drop_first(),
                idx + 1,
                if skip_av(a) {
                    acc
                } else {
                    crate::attr::map_set(acc, tuple_key(idx), a)
                },
            );
        }
    }
}

proof fn lemma_enc_fields_err_kinds(fs: Seq<(Seq<char>, TypedV)>, acc: Seq<(Seq<char>, AttrV)>)
    ensures
        enc_fields(fs, acc) matches Err(k) ==> k == ErrorKind::UnsupportedKeyType || k
            == ErrorKind::UnsupportedShape,
    decreases fs,
{
    if fs.len() > 0 {
        lemma_enc_err_kinds(fs[0].1);
        if enc_val(fs[0].1) is Ok {
            let a = enc_val(fs[0].1).unwrap();
            lemma_enc_fields_err_kinds(
                fs.drop_first(),
                if skip_av(a) {
                    acc
                } else {
                    crate::attr::map_set(acc, fs[0].0, a)
                },
            );
        }
    }
}

proof fn lemma_enc_pairs_err_kinds(ps: Seq<(TypedV, TypedV)>, acc: Seq<(Seq<char>, AttrV)>)
    ensures
        enc_pairs(ps, acc) matches Err(k) ==> k == ErrorKind::UnsupportedKeyType || k
            == ErrorKind::UnsupportedShape,
    decreases ps,
{
    if ps.len() > 0 {
        lemma_enc_err_kinds(ps[0].1);
        if key_string(ps[0].0) is Ok && enc_val(ps[0].1) is Ok {
            let k = key_string(ps[0].0).unwrap();
            let a = enc_val(ps[0].1).unwrap();
            lemma_enc_pairs_err_kinds(
                ps.drop_first(),
                if skip_av(a) {
                    acc
                } else {
                    crate::attr::map_set(acc, k, a)
                },
            );
        }
    }
}

/// Root invariant: encoding returns `MissingAggregateRoot` exactly when the
/// root value is not an aggregate (struct, tuple, map, or sum type); a bare
/// scalar, string, byte string, sequence, option, or unit at the root is
/// always so rejected, and nothing else ever is.
pub proof fn theorem_root_invariant(v: TypedV)
    ensures
        enc_root(v) == Result::<Seq<(Seq<char>, AttrV)>, ErrorKind>::Err(
            ErrorKind::MissingAggregateRoot,
        ) <==> !root_aggregate(v),
{
    if root_aggregate(v) {
        match v {
            TypedV::Tuple(l) => {
                lemma_enc_tuple_err_kinds(l, 0, Seq::empty());
            },
            TypedV::Struct(f) => {
                lemma_enc_fields_err_kinds(f, Seq::empty());
            },
            TypedV::MapVal(p) => {
                lemma_enc_pairs_err_kinds(p, Seq::empty());
            },
            TypedV::EnumNewtype(_, b) => {
                lemma_enc_err_kinds(*b);
            },
            TypedV::EnumTuple(_, l) => {
                lemma_enc_tuple_err_kinds(l, 0, Seq::empty());
            },
            TypedV::EnumStruct(_, f) => {
                lemma_enc_fields_err_kinds(f, Seq::empty());
            },
            _ => {},
        }
    }
}

/// Numeric fidelity, signed: a signed integer within the target range,
/// encoded to its base-10 string, decodes back to exactly itself at that
/// width; and a stored string whose value lies outside the range fails with
/// `InvalidType` rather than wrapping or truncating.
pub proof fn theorem_numeric_fidelity_signed(i: int, lo: int, hi: int, s: Seq<char>)
    requires
        lo <= i <= hi,
    ensures
        dec_signed(Option::Some(AttrV::N(dec_str_int(i))), lo, hi) == Result::<
            TypedV,
            ErrorKind,
        >::Ok(int_value(i, lo, hi)),
        (match dec_to_int(s) {
            Option::Some(v) => v < lo || v > hi,
            Option::None => true,
        }) ==> dec_signed(Option::Some(AttrV::N(s)), lo, hi) == Result::<TypedV, ErrorKind>::Err(
            ErrorKind::InvalidType,
        ),
{
    lemma_dec_round_trip(i);
}

/// Numeric fidelity, unsigned: an unsigned integer within the target range
/// round-trips through its base-10 string at that width; a stored string
/// that is signed or out of range fails with `InvalidType`.
pub proof fn theorem_numeric_fidelity_unsigned(u: nat, hi: int, s: Seq<char>)
    requires
        u <= hi,
    ensures
        dec_unsigned(Option::Some(AttrV::N(dec_digits(u))), hi) == Result::<
            TypedV,
            ErrorKind,
        >::Ok(uint_value(u as int, hi)),
        (match dec_to_int(s) {
            Option::Some(v) => has_minus(s) || v < 0 || v > hi,
            Option::None => true,
        }) ==> dec_unsigned(Option::Some(AttrV::N(s)), hi) == Result::<TypedV, ErrorKind>::Err(
            ErrorKind::InvalidType,
        ),
{
    lemma_dec_round_trip(u as int);
}

/// Set/list equivalence on decode: a sequence target reads a number set, a
/// string set, or a binary set exactly as it reads the list of the
/// corresponding scalar attributes.
pub proof fn theorem_set_list_equivalence(
    ns: Seq<Seq<char>>,
    ss: Seq<Seq<char>>,
    bs: Seq<Seq<u8>>,
    elem: Shape,
)
    ensures
        dec_seq_items(AttrV::NS(ns), elem) == dec_seq_items(
            AttrV::L(ns.map_values(|x: Seq<char>| AttrV::N(x))),
            elem,
        ),
        dec_seq_items(AttrV::SS(ss), elem) == dec_seq_items(
            AttrV::L(ss.map_values(|x: Seq<char>| AttrV::S(x))),
            elem,
        ),
        dec_seq_items(AttrV::BS(bs), elem) == dec_seq_items(
            AttrV::L(bs.map_values(|x: Seq<u8>| AttrV::B(x))),
            elem,
        ),
{
    assert(ns.map_values(|x: Seq<char>| AttrV::N(x)) =~= ns.map_values(
        |s: Seq<char>| AttrV::N(s),
    ));
    assert(ss.map_values(|x: Seq<char>| AttrV::S(x)) =~= ss.map_values(
        |s: Seq<char>| AttrV::S(s),
    ));
    assert(bs.map_values(|x: Seq<u8>| AttrV::B(x)) =~= bs.map_values(|b: Seq<u8>| AttrV::B(b)));
}

/// Enum tagging: a no-payload variant encodes to a map holding exactly the
/// tag entry and no payload key; a payload-bearing variant places its single
/// positional payload under `"_0"` inside the payload map; and on decode a
/// bare string at a sum-type position names a no-payload variant.
pub proof fn theorem_enum_tagging(n: Seq<char>, a: AttrV, s: Shape)
    requires
        s is Enum,
    ensures
        enc_val(TypedV::EnumUnit(n)) == Result::<AttrV, ErrorKind>::Ok(
            AttrV::M(seq![(tag_key(), AttrV::S(n))]),
        ),
        !map_has(enum_entries(n, Option::None), values_key()),
        !skip_av(a) ==> map_get(newtype_values(a), tuple_key(0)) == Option::Some(a),
        (variant_get(s->Enum_0@, n) matches Option::Some(var) && var.payload is Unit) ==> dec_at(
            Option::Some(AttrV::S(n)),
            s,
        ) == Result::<TypedV, ErrorKind>::Ok(TypedV::EnumUnit(n)),
{
    lemma_reserved_keys_distinct();
    assert(enum_entries(n, Option::None).len() == 1);
}

/// The value an absent expected field falls back to: its declared default
/// if one is declared, otherwise what its shape makes of absence (`None`
/// for an optional, the empty value for a string or byte string).
pub open spec fn absent_field_value(f: Field) -> TypedV {
    match f.default {
        Option::Some(d) => d@,
        Option::None => match f.shape {
            Shape::Optional(_) => TypedV::NoneVal,
            Shape::Str => TypedV::Str(Seq::empty()),
            Shape::Bytes => TypedV::Bytes(Seq::empty()),
            _ => TypedV::Unit,
        },
    }
}

/// Default-missing fields: decoding a struct target against an empty map
/// succeeds when every expected field declares a default or is optional,
/// a string, or a byte string, and yields each field's fallback value.
pub proof fn theorem_default_missing_fields(s: Shape)
    requires
        s is Struct,
        forall|j: int| 0 <= j < s->Struct_0@.len() ==> (s->Struct_0@[j].default is Some || s->Struct_0@[j].shape
            is Optional || s->Struct_0@[j].shape is Str || s->Struct_0@[j].shape is Bytes),
    ensures
        dec_root(Seq::empty(), s) matches Ok(t) && t matches TypedV::Struct(fs) && fs.len()
            == s->Struct_0@.len() && forall|j: int| 0 <= j < s->Struct_0@.len() ==> fs[j] == (
            s->Struct_0@[j].name@,
            absent_field_value(s->Struct_0@[j]),
        ),
{
    let fields = s->Struct_0@;
    let fs = Seq::new(fields.len(), |j: int| (fields[j].name@, absent_field_value(fields[j])));
    assert forall|j: int| 0 <= j < fields.len() implies dec_field_one(Seq::empty(), fields[j])
        == Result::<TypedV, ErrorKind>::Ok(fs[j].1) && fs[j].0 == fields[j].name@ by {
        assert(map_get(Seq::empty(), fields[j].name@) is None);
    }
    crate::de::lemma_dec_struct_ok(Seq::empty(), fields, fs);
}


/// `map_get` and `map_has` over a single prepended entry.
proof fn lemma_map_get_cons(e: (Seq<char>, AttrV), r: Seq<(Seq<char>, AttrV)>, key: Seq<char>)
    ensures
        map_get(seq![e] + r, key) == if e.0 == key {
            Option::Some(e.1)
        } else {
            map_get(r, key)
        },
        map_has(seq![e] + r, key) <==> e.0 == key || map_has(r, key),
{
    let m = seq![e] + r;
    assert(m[0] == e);
    assert(m.drop_first() =~= r);
    lemma_map_get_has(m, key);
    lemma_map_get_has(r, key);
}

/// Positional keys are distinct for distinct indices.
proof fn lemma_tuple_key_injective(i: nat, j: nat)
    ensures
        tuple_key(i) == tuple_key(j) ==> i == j,
{
    if tuple_key(i) == tuple_key(j) && i != j {
        crate::num::lemma_dec_digits(i);
        crate::num::lemma_dec_digits(j);
        assert(tuple_key(i).drop_first() =~= dec_digits(i));
        assert(tuple_key(j).drop_first() =~= dec_digits(j));
        assert(dec_digits(i) == dec_digits(j));
        assert(false);
    }
}

/// The entries a sequence of named fields encodes to, in order, with
/// omitted fields skipped (meaningful when every field encodes).
pub open spec fn enc_pure_fields(fvs: Seq<(Seq<char>, TypedV)>) -> Seq<(Seq<char>, AttrV)>
    decreases fvs,
{
    if fvs.len() == 0 {
        Seq::empty()
    } else {
        match enc_val(fvs[0].1) {
            Result::Ok(a) => if skip_av(a) {
                enc_pure_fields(fvs.drop_first())
            } else {
                seq![(fvs[0].0, a)] + enc_pure_fields(fvs.drop_first())
            },
            Result::Err(_) => Seq::empty(),
        }
    }
}

/// The entries tuple elements encode to from index `idx` on, with omitted
/// elements skipped (meaningful when every element encodes).
pub open spec fn enc_pure_tuple(l: Seq<TypedV>, idx: nat) -> Seq<(Seq<char>, AttrV)>
    decreases l,
{
    if l.len() == 0 {
        Seq::empty()
    } else {
        match enc_val(l[0]) {
            Result::Ok(a) => if skip_av(a) {
                enc_pure_tuple(l.drop_first(), idx + 1)
            } else {
                seq![(tuple_key(idx), a)] + enc_pure_tuple(l.drop_first(), idx + 1)
            },
            Result::Err(_) => Seq::empty(),
        }
    }
}

/// The entries map pairs encode to, in order, with omitted values skipped
/// (meaningful when every key and value encodes).
pub open spec fn enc_pure_pairs(ps: Seq<(TypedV, TypedV)>) -> Seq<(Seq<char>, AttrV)>
    decreases ps,
{
    if ps.len() == 0 {
        Seq::empty()
    } else {
        match (key_string(ps[0].0), enc_val(ps[0].1)) {
            (Result::Ok(k), Result::Ok(a)) => if skip_av(a) {
                enc_pure_pairs(ps.drop_first())
            } else {
                seq![(k, a)] + enc_pure_pairs(ps.drop_first())
            },
            _ => Seq::empty(),
        }
    }
}

/// With unique field names that all encode, the accumulator encoding of
/// named fields appends exactly the pure entries.
proof fn lemma_enc_fields_pure(fvs: Seq<(Seq<char>, TypedV)>, acc: Seq<(Seq<char>, AttrV)>)
    requires
        forall|j: int| 0 <= j < fvs.len() ==> enc_val(#[trigger] fvs[j].1) is Ok,
        forall|i: int, j: int| 0 <= i < j < fvs.len() ==> fvs[i].0 != fvs[j].0,
        forall|j: int| 0 <= j < fvs.len() ==> !map_has(acc, #[trigger] fvs[j].0),
    ensures
        enc_fields(fvs, acc) == Result::<Seq<(Seq<char>, AttrV)>, ErrorKind>::Ok(
            acc + enc_pure_fields(fvs),
        ),
    decreases fvs,
{
    if fvs.len() == 0 {
        assert(acc + enc_pure_fields(fvs) =~= acc);
    } else {
        let rest = fvs.drop_first();
        assert(forall|j: int| 0 <= j < rest.len() ==> rest[j] == fvs[j + 1]);
        let a = enc_val(fvs[0].1).unwrap();
        if skip_av(a) {
            lemma_enc_fields_pure(rest, acc);
        } else {
            assert(forall|j: int| 0 <= j < acc.len() ==> acc[j].0 != fvs[0].0) by {
                if exists|j: int| 0 <= j < acc.len() && acc[j].0 == fvs[0].0 {
                    assert(map_has(acc, fvs[0].0));
                }
            }
            lemma_map_set_absent(acc, fvs[0].0, a);
            let acc2 = acc.push((fvs[0].0, a));
            assert(forall|j: int| 0 <= j < rest.len() ==> !map_has(acc2, #[trigger] rest[j].0))
                by {
                assert forall|j: int| 0 <= j < rest.len() implies !map_has(
                    acc2,
                    #[trigger] rest[j].0,
                ) by {
                    if map_has(acc2, rest[j].0) {
                        let i = choose|i: int| 0 <= i < acc2.len() && acc2[i].0 == rest[j].0;
                        if i < acc.len() {
                            assert(map_has(acc, rest[j].0));
                        } else {
                            assert(acc2[i].0 == fvs[0].0);
                            assert(fvs[j + 1].0 == fvs[0].0);
                        }
                    }
                }
            }
            lemma_enc_fields_pure(rest, acc2);
            assert(acc2 + enc_pure_fields(rest) =~= acc + (seq![(fvs[0].0, a)] + enc_pure_fields(
                rest,
            )));
        }
    }
}

/// The pure entries of named fields: unique keys, every key from a field
/// name, each unomitted field found under its name, each omitted field
/// absent.
proof fn lemma_enc_pure_fields_props(fvs: Seq<(Seq<char>, TypedV)>)
    requires
        forall|j: int| 0 <= j < fvs.len() ==> enc_val(#[trigger] fvs[j].1) is Ok,
        forall|i: int, j: int| 0 <= i < j < fvs.len() ==> fvs[i].0 != fvs[j].0,
    ensures
        keys_unique(enc_pure_fields(fvs)),
        forall|key: Seq<char>| map_has(enc_pure_fields(fvs), key) ==> exists|j: int|
            0 <= j < fvs.len() && fvs[j].0 == key,
        forall|j: int| 0 <= j < fvs.len() && !skip_av(enc_val(fvs[j].1).unwrap()) ==> map_get(
            enc_pure_fields(fvs),
            #[trigger] fvs[j].0,
        ) == Option::Some(enc_val(fvs[j].1).unwrap()),
        forall|j: int| 0 <= j < fvs.len() && skip_av(enc_val(fvs[j].1).unwrap()) ==> !map_has(
            enc_pure_fields(fvs),
            #[trigger] fvs[j].0,
        ),
    decreases fvs,
{
    if fvs.len() > 0 {
        let rest = fvs.drop_first();
        assert(forall|j: int| 0 <= j < rest.len() ==> rest[j] == fvs[j + 1]);
        lemma_enc_pure_fields_props(rest);
        let a = enc_val(fvs[0].1).unwrap();
        let pure = enc_pure_fields(fvs);
        let purer = enc_pure_fields(rest);
        if skip_av(a) {
            assert(pure == purer);
            assert(!map_has(pure, fvs[0].0)) by {
                if map_has(purer, fvs[0].0) {
                    let j = choose|j: int| 0 <= j < rest.len() && rest[j].0 == fvs[0].0;
                    assert(fvs[j + 1].0 == fvs[0].0);
                }
            }
            assert forall|j: int|
                0 <= j < fvs.len() && !skip_av(enc_val(fvs[j].1).unwrap()) implies map_get(
                pure,
                #[trigger] fvs[j].0,
            ) == Option::Some(enc_val(fvs[j].1).unwrap()) by {
                assert(j >= 1);
                assert(rest[j - 1] == fvs[j]);
            }
            assert forall|j: int|
                0 <= j < fvs.len() && skip_av(enc_val(fvs[j].1).unwrap()) implies !map_has(
                pure,
                #[trigger] fvs[j].0,
            ) by {
                if j >= 1 {
                    assert(rest[j - 1] == fvs[j]);
                }
            }
        } else {
            let e0 = (fvs[0].0, a);
            assert(pure == seq![e0] + purer);
            assert(!map_has(purer, fvs[0].0)) by {
                if map_has(purer, fvs[0].0) {
                    let j = choose|j: int| 0 <= j < rest.len() && rest[j].0 == fvs[0].0;
                    assert(fvs[j + 1].0 == fvs[0].0);
                }
            }
            assert(keys_unique(pure)) by {
                assert(keys_unique(seq![e0]));
                assert(forall|i: int, j: int|
                    0 <= i < 1 && 0 <= j < purer.len() ==> seq![e0][i].0 != purer[j].0) by {
                    assert forall|j: int| 0 <= j < purer.len() implies e0.0 != purer[j].0 by {
                        if e0.0 == purer[j].0 {
                            assert(map_has(purer, fvs[0].0));
                        }
                    }
                }
                lemma_keys_unique_concat(seq![e0], purer);
            }
            assert forall|key: Seq<char>| map_has(pure, key) implies exists|j: int|
                0 <= j < fvs.len() && fvs[j].0 == key by {
                lemma_map_get_cons(e0, purer, key);
                if key == e0.0 {
                    assert(fvs[0].0 == key);
                } else {
                    let j = choose|j: int| 0 <= j < rest.len() && rest[j].0 == key;
                    assert(fvs[j + 1].0 == key);
                }
            }
            assert forall|j: int|
                0 <= j < fvs.len() && !skip_av(enc_val(fvs[j].1).unwrap()) implies map_get(
                pure,
                #[trigger] fvs[j].0,
            ) == Option::Some(enc_val(fvs[j].1).unwrap()) by {
                lemma_map_get_cons(e0, purer, fvs[j].0);
                if j >= 1 {
                    assert(rest[j - 1] == fvs[j]);
                    assert(fvs[j].0 != fvs[0].0);
                }
            }
            assert forall|j: int|
                0 <= j < fvs.len() && skip_av(enc_val(fvs[j].1).unwrap()) implies !map_has(
                pure,
                #[trigger] fvs[j].0,
            ) by {
                lemma_map_get_cons(e0, purer, fvs[j].0);
                assert(j >= 1);
                assert(rest[j - 1] == fvs[j]);
                assert(fvs[j].0 != fvs[0].0);
            }
        }
    }
}


/// With elements that all encode, the accumulator encoding of tuple
/// elements appends exactly the pure entries.
proof fn lemma_enc_tuple_pure(l: Seq<TypedV>, idx: nat, acc: Seq<(Seq<char>, AttrV)>)
    requires
        forall|j: int| 0 <= j < l.len() ==> enc_val(#[trigger] l[j]) is Ok,
        forall|k: nat| k >= idx ==> !map_has(acc, #[trigger] tuple_key(k)),
    ensures
        enc_tuple_entries(l, idx, acc) == Result::<Seq<(Seq<char>, AttrV)>, ErrorKind>::Ok(
            acc + enc_pure_tuple(l, idx),
        ),
    decreases l,
{
    if l.len() == 0 {
        assert(acc + enc_pure_tuple(l, idx) =~= acc);
    } else {
        let rest = l.drop_first();
        assert(forall|j: int| 0 <= j < rest.len() ==> rest[j] == l[j + 1]);
        let a = enc_val(l[0]).unwrap();
        if skip_av(a) {
            lemma_enc_tuple_pure(rest, idx + 1, acc);
        } else {
            assert(forall|j: int| 0 <= j < acc.len() ==> acc[j].0 != tuple_key(idx)) by {
                if exists|j: int| 0 <= j < acc.len() && acc[j].0 == tuple_key(idx) {
                    assert(map_has(acc, tuple_key(idx)));
                }
            }
            lemma_map_set_absent(acc, tuple_key(idx), a);
            let acc2 = acc.push((tuple_key(idx), a));
            assert forall|k: nat| k >= idx + 1 implies !map_has(acc2, #[trigger] tuple_key(k)) by {
                if map_has(acc2, tuple_key(k)) {
                    let i = choose|i: int| 0 <= i < acc2.len() && acc2[i].0 == tuple_key(k);
                    if i < acc.len() {
                        assert(map_has(acc, tuple_key(k)));
                    } else {
                        lemma_tuple_key_injective(idx, k);
                    }
                }
            }
            lemma_enc_tuple_pure(rest, idx + 1, acc2);
            assert(acc2 + enc_pure_tuple(rest, idx + 1) =~= acc + (seq![(tuple_key(idx), a)]
                + enc_pure_tuple(rest, idx + 1)));
        }
    }
}

/// The pure entries of tuple elements none of which is omitted: exactly one
/// entry per element, in order, under its positional key.
proof fn lemma_enc_pure_tuple_props(l: Seq<TypedV>, idx: nat)
    requires
        forall|j: int| 0 <= j < l.len() ==> enc_val(#[trigger] l[j]) is Ok && !skip_av(
            enc_val(l[j]).unwrap(),
        ),
    ensures
        enc_pure_tuple(l, idx).len() == l.len(),
        forall|j: int| 0 <= j < l.len() ==> enc_pure_tuple(l, idx)[j] == (
            tuple_key((idx + j) as nat),
            enc_val(l[j]).unwrap(),
        ),
        keys_unique(enc_pure_tuple(l, idx)),
        forall|j: int| 0 <= j < l.len() ==> map_get(
            enc_pure_tuple(l, idx),
            tuple_key((idx + j) as nat),
        ) == Option::Some(enc_val(l[j]).unwrap()),
    decreases l,
{
    let pure = enc_pure_tuple(l, idx);
    if l.len() > 0 {
        let rest = l.drop_first();
        assert(forall|j: int| 0 <= j < rest.len() ==> rest[j] == l[j + 1]);
        lemma_enc_pure_tuple_props(rest, idx + 1);
        let a = enc_val(l[0]).unwrap();
        let purer = enc_pure_tuple(rest, idx + 1);
        assert(pure == seq![(tuple_key(idx), a)] + purer);
        assert forall|j: int| 0 <= j < l.len() implies pure[j] == (
            tuple_key((idx + j) as nat),
            enc_val(l[j]).unwrap(),
        ) by {
            if j >= 1 {
                assert(purer[j - 1] == (tuple_key((idx + j) as nat), enc_val(rest[j - 1]).unwrap()));
            }
        }
        assert(keys_unique(pure)) by {
            assert forall|i: int, j: int| 0 <= i < j < pure.len() implies pure[i].0 != pure[j].0
                by {
                lemma_tuple_key_injective((idx + i) as nat, (idx + j) as nat);
            }
        }
        assert forall|j: int| 0 <= j < l.len() implies map_get(
            pure,
            tuple_key((idx + j) as nat),
        ) == Option::Some(enc_val(l[j]).unwrap()) by {
            assert forall|jj: int| 0 <= jj < j implies pure[jj].0 != tuple_key((idx + j) as nat)
                by {
                lemma_tuple_key_injective((idx + jj) as nat, (idx + j) as nat);
            }
            crate::attr::lemma_map_get_index(pure, tuple_key((idx + j) as nat), j);
        }
    }
}

/// With string keys that are unique and values that all encode and are
/// never omitted, the accumulator encoding of map pairs appends exactly the
/// pure entries, one per pair in order.
proof fn lemma_enc_pairs_pure(ps: Seq<(TypedV, TypedV)>, acc: Seq<(Seq<char>, AttrV)>)
    requires
        forall|j: int| 0 <= j < ps.len() ==> key_string(#[trigger] ps[j].0) is Ok,
        forall|j: int| 0 <= j < ps.len() ==> enc_val(#[trigger] ps[j].1) is Ok && !skip_av(
            enc_val(ps[j].1).unwrap(),
        ),
        forall|i: int, j: int| 0 <= i < j < ps.len() ==> key_string(ps[i].0).unwrap()
            != key_string(ps[j].0).unwrap(),
        forall|j: int| 0 <= j < ps.len() ==> !map_has(acc, key_string(#[trigger] ps[j].0).unwrap()),
    ensures
        enc_pairs(ps, acc) == Result::<Seq<(Seq<char>, AttrV)>, ErrorKind>::Ok(
            acc + enc_pure_pairs(ps),
        ),
    decreases ps,
{
    if ps.len() == 0 {
        assert(acc + enc_pure_pairs(ps) =~= acc);
    } else {
        let rest = ps.drop_first();
        assert(forall|j: int| 0 <= j < rest.len() ==> rest[j] == ps[j + 1]);
        let k0 = key_string(ps[0].0).unwrap();
        let a = enc_val(ps[0].1).unwrap();
        assert(forall|j: int| 0 <= j < acc.len() ==> acc[j].0 != k0) by {
            if exists|j: int| 0 <= j < acc.len() && acc[j].0 == k0 {
                assert(map_has(acc, k0));
            }
        }
        lemma_map_set_absent(acc, k0, a);
        let acc2 = acc.push((k0, a));
        assert forall|j: int| 0 <= j < rest.len() implies !map_has(
            acc2,
            key_string(#[trigger] rest[j].0).unwrap(),
        ) by {
            let kj = key_string(rest[j].0).unwrap();
            if map_has(acc2, kj) {
                let i = choose|i: int| 0 <= i < acc2.len() && acc2[i].0 == kj;
                if i < acc.len() {
                    assert(map_has(acc, kj));
                } else {
                    assert(key_string(ps[0].0).unwrap() == key_string(ps[j + 1].0).unwrap());
                }
            }
        }
        lemma_enc_pairs_pure(rest, acc2);
        assert(acc2 + enc_pure_pairs(rest) =~= acc + (seq![(k0, a)] + enc_pure_pairs(rest)));
    }
}

/// The pure entries of such map pairs, pointwise: one entry per pair, in
/// order, under its serialized key.
proof fn lemma_enc_pure_pairs_props(ps: Seq<(TypedV, TypedV)>)
    requires
        forall|j: int| 0 <= j < ps.len() ==> key_string(#[trigger] ps[j].0) is Ok,
        forall|j: int| 0 <= j < ps.len() ==> enc_val(#[trigger] ps[j].1) is Ok && !skip_av(
            enc_val(ps[j].1).unwrap(),
        ),
    ensures
        enc_pure_pairs(ps).len() == ps.len(),
        forall|j: int| 0 <= j < ps.len() ==> enc_pure_pairs(ps)[j] == (
            key_string(ps[j].0).unwrap(),
            enc_val(ps[j].1).unwrap(),
        ),
    decreases ps,
{
    if ps.len() > 0 {
        let rest = ps.drop_first();
        assert(forall|j: int| 0 <= j < rest.len() ==> rest[j] == ps[j + 1]);
        lemma_enc_pure_pairs_props(rest);
        let k0 = key_string(ps[0].0).unwrap();
        let a = enc_val(ps[0].1).unwrap();
        assert(enc_pure_pairs(ps) == seq![(k0, a)] + enc_pure_pairs(rest));
    }
}


/// The two positions at which an omitted encoding still restores the value
/// from absence: an empty string against a string shape, an empty byte
/// string against a byte-string shape.
pub open spec fn skip_recoverable(v: TypedV, s: Shape) -> bool {
    ||| (v == TypedV::Str(Seq::<char>::empty()) && s is Str)
    ||| (v == TypedV::Bytes(Seq::<u8>::empty()) && s is Bytes)
}

/// Round-trip compatibility of a value with a shape at a keyed or list
/// position: the value matches the shape, and it avoids the documented
/// lossy spots (a present optional whose inner encoding is null or
/// omitted; an omitted tuple element or map value; a defaulted field or a
/// non-string shape behind an omitted field; non-string or duplicate map
/// keys; duplicate struct field names; an unknown variant name).
pub open spec fn rt_val(v: TypedV, s: Shape) -> bool
    decreases v,
{
    match v {
        TypedV::Bool(_) => s is Bool,
        TypedV::I8(_) => s is I8,
        TypedV::I16(_) => s is I16,
        TypedV::I32(_) => s is I32,
        TypedV::I64(_) => s is I64,
        TypedV::U8(_) => s is U8,
        TypedV::U16(_) => s is U16,
        TypedV::U32(_) => s is U32,
        TypedV::U64(_) => s is U64,
        TypedV::Float(_) => s is Float,
        TypedV::Char(_) => s is Char,
        TypedV::Str(_) => s is Str,
        TypedV::Bytes(_) => s is Bytes,
        TypedV::Unit => s is Unit,
        TypedV::NoneVal => s is Optional,
        TypedV::SomeVal(b) => {
            &&& s matches Shape::Optional(inner)
            &&& rt_val(*b, *inner)
            &&& (enc_val(*b) matches Result::Ok(a) ==> !(a is Null) && !skip_av(a))
        },
        TypedV::SeqVal(l) => {
            &&& s matches Shape::SeqOf(elem)
            &&& rt_list(l, *elem)
        },
        TypedV::Tuple(l) => {
            &&& s matches Shape::Tuple(shapes)
            &&& rt_tuple(l, shapes@)
        },
        TypedV::Struct(f) => {
            &&& s matches Shape::Struct(fields)
            &&& (forall|i: int, j: int| 0 <= i < j < f.len() ==> f[i].0 != f[j].0)
            &&& rt_fields(f, fields@)
        },
        TypedV::MapVal(p) => {
            &&& s matches Shape::MapOf(vshape)
            &&& (forall|i: int, j: int| 0 <= i < j < p.len() ==> p[i].0 != p[j].0)
            &&& rt_pairs(p, *vshape)
        },
        TypedV::EnumUnit(n) => {
            &&& s matches Shape::Enum(vs)
            &&& (variant_get(vs@, n) matches Option::Some(var) && var.payload is Unit)
        },
        TypedV::EnumNewtype(n, b) => {
            &&& s matches Shape::Enum(vs)
            &&& (variant_get(vs@, n) matches Option::Some(var) && (var.payload matches
            VariantShape::Newtype(inner) && rt_val(*b, *inner) && (enc_val(*b) matches
            Result::Ok(a) && skip_av(a) ==> skip_recoverable(*b, *inner))))
        },
        TypedV::EnumTuple(n, l) => {
            &&& s matches Shape::Enum(vs)
            &&& (variant_get(vs@, n) matches Option::Some(var) && (var.payload matches
            VariantShape::TupleLike(shapes) && rt_tuple(l, shapes@)))
        },
        TypedV::EnumStruct(n, f) => {
            &&& s matches Shape::Enum(vs)
            &&& (variant_get(vs@, n) matches Option::Some(var) && (var.payload matches
            VariantShape::StructLike(fields) && (forall|i: int, j: int|
                0 <= i < j < f.len() ==> f[i].0 != f[j].0) && rt_fields(f, fields@)))
        },
    }
}

/// Round-trip compatibility of list elements.
pub open spec fn rt_list(l: Seq<TypedV>, elem: Shape) -> bool
    decreases l,
{
    if l.len() == 0 {
        true
    } else {
        rt_val(l[0], elem) && rt_list(l.drop_first(), elem)
    }
}

/// Round-trip compatibility of tuple elements with their shapes: matching
/// arity, each element compatible and never omitted.
pub open spec fn rt_tuple(l: Seq<TypedV>, shapes: Seq<Shape>) -> bool
    decreases l,
{
    &&& l.len() == shapes.len()
    &&& (l.len() == 0 || {
        &&& rt_val(l[0], shapes[0])
        &&& (enc_val(l[0]) matches Result::Ok(a) ==> !skip_av(a))
        &&& rt_tuple(l.drop_first(), shapes.drop_first())
    })
}

/// Round-trip compatibility of named fields with their expected field set:
/// matching names in order, each value compatible, and an omitted value
/// only behind an undefaulted string or byte-string field.
pub open spec fn rt_fields(fvs: Seq<(Seq<char>, TypedV)>, fields: Seq<Field>) -> bool
    decreases fvs,
{
    &&& fvs.len() == fields.len()
    &&& (fvs.len() == 0 || {
        &&& fvs[0].0 == fields[0].name@
        &&& rt_val(fvs[0].1, fields[0].shape)
        &&& (enc_val(fvs[0].1) matches Result::Ok(a) && skip_av(a) ==> fields[0].default is None
            && skip_recoverable(fvs[0].1, fields[0].shape))
        &&& rt_fields(fvs.drop_first(), fields.drop_first())
    })
}

/// Round-trip compatibility of map pairs with the value shape: every key a
/// string, every value compatible and never omitted.
pub open spec fn rt_pairs(ps: Seq<(TypedV, TypedV)>, vshape: Shape) -> bool
    decreases ps,
{
    if ps.len() == 0 {
        true
    } else {
        &&& ps[0].0 is Str
        &&& rt_val(ps[0].1, vshape)
        &&& (enc_val(ps[0].1) matches Result::Ok(a) ==> !skip_av(a))
        &&& rt_pairs(ps.drop_first(), vshape)
    }
}

/// `variant_get` returns the first variant bearing the name.
proof fn lemma_variant_get_first(vs: Seq<Variant>, name: Seq<char>)
    ensures
        variant_get(vs, name) matches Option::Some(var) ==> exists|i: int|
            0 <= i <= i < vs.len() && vs[i] == var && vs[i].name@ == name && (forall|j: int|
                0 <= j < i ==> vs[j].name@ != name),
    decreases vs.len(),
{
    if vs.len() > 0 && vs[0].name@ != name {
        lemma_variant_get_first(vs.drop_first(), name);
        if variant_get(vs, name) is Some {
            let var = variant_get(vs, name).unwrap();
            let i = choose|i: int|
                0 <= i < vs.drop_first().len() && vs.drop_first()[i] == var
                    && vs.drop_first()[i].name@ == name && (forall|j: int|
                    0 <= j < i ==> vs.drop_first()[j].name@ != name);
            assert(vs[i + 1] == vs.drop_first()[i]);
            assert(forall|j: int| 1 <= j < i + 1 ==> vs[j] == vs.drop_first()[j - 1]);
            assert(forall|j: int| 0 <= j < i + 1 ==> vs[j].name@ != name);
        }
    }
}


/// Pointwise consequences of tuple compatibility.
proof fn lemma_rt_tuple_pointwise(l: Seq<TypedV>, shapes: Seq<Shape>)
    requires
        rt_tuple(l, shapes),
    ensures
        l.len() == shapes.len(),
        forall|j: int| 0 <= j < l.len() ==> enc_val(#[trigger] l[j]) is Ok && !skip_av(
            enc_val(l[j]).unwrap(),
        ) && dec_at(Option::Some(enc_val(l[j]).unwrap()), shapes[j]) == Result::<
            TypedV,
            ErrorKind,
        >::Ok(l[j]),
    decreases l, 0int,
{
    if l.len() > 0 {
        lemma_rt_val(l[0], shapes[0]);
        lemma_rt_tuple_pointwise(l.drop_first(), shapes.drop_first());
        assert forall|j: int| 0 <= j < l.len() implies enc_val(#[trigger] l[j]) is Ok && !skip_av(
            enc_val(l[j]).unwrap(),
        ) && dec_at(Option::Some(enc_val(l[j]).unwrap()), shapes[j]) == Result::<
            TypedV,
            ErrorKind,
        >::Ok(l[j]) by {
            if j >= 1 {
                assert(l.drop_first()[j - 1] == l[j]);
                assert(shapes.drop_first()[j - 1] == shapes[j]);
            }
        }
    }
}

/// Pointwise consequences of field compatibility.
proof fn lemma_rt_fields_pointwise(fvs: Seq<(Seq<char>, TypedV)>, fields: Seq<Field>)
    requires
        rt_fields(fvs, fields),
    ensures
        fvs.len() == fields.len(),
        forall|j: int| 0 <= j < fvs.len() ==> (#[trigger] fvs[j]).0 == fields[j].name@,
        forall|j: int| 0 <= j < fvs.len() ==> enc_val((#[trigger] fvs[j]).1) is Ok,
        forall|j: int|
            0 <= j < fvs.len() && !skip_av(enc_val((#[trigger] fvs[j]).1).unwrap()) ==> dec_at(
                Option::Some(enc_val(fvs[j].1).unwrap()),
                fields[j].shape,
            ) == Result::<TypedV, ErrorKind>::Ok(fvs[j].1),
        forall|j: int|
            0 <= j < fvs.len() && skip_av(enc_val((#[trigger] fvs[j]).1).unwrap()) ==> fields[j].default
                is None && dec_at(Option::None, fields[j].shape) == Result::<
                TypedV,
                ErrorKind,
            >::Ok(fvs[j].1),
    decreases fvs, 0int,
{
    if fvs.len() > 0 {
        lemma_rt_val(fvs[0].1, fields[0].shape);
        lemma_rt_fields_pointwise(fvs.drop_first(), fields.drop_first());
        assert forall|j: int| 0 <= j < fvs.len() implies {
            &&& (#[trigger] fvs[j]).0 == fields[j].name@
            &&& enc_val(fvs[j].1) is Ok
            &&& (!skip_av(enc_val(fvs[j].1).unwrap()) ==> dec_at(
                Option::Some(enc_val(fvs[j].1).unwrap()),
                fields[j].shape,
            ) == Result::<TypedV, ErrorKind>::Ok(fvs[j].1))
            &&& (skip_av(enc_val(fvs[j].1).unwrap()) ==> fields[j].default is None && dec_at(
                Option::None,
                fields[j].shape,
            ) == Result::<TypedV, ErrorKind>::Ok(fvs[j].1))
        } by {
            if j >= 1 {
                assert(fvs.drop_first()[j - 1] == fvs[j]);
                assert(fields.drop_first()[j - 1] == fields[j]);
            }
        }
    }
}

/// Pointwise consequences of pair compatibility.
proof fn lemma_rt_pairs_pointwise(ps: Seq<(TypedV, TypedV)>, vshape: Shape)
    requires
        rt_pairs(ps, vshape),
    ensures
        forall|j: int| 0 <= j < ps.len() ==> (#[trigger] ps[j]).0 is Str && key_string(ps[j].0)
            == Result::<Seq<char>, ErrorKind>::Ok(ps[j].0->Str_0),
        forall|j: int| 0 <= j < ps.len() ==> enc_val((#[trigger] ps[j]).1) is Ok && !skip_av(
            enc_val(ps[j].1).unwrap(),
        ) && dec_at(Option::Some(enc_val(ps[j].1).unwrap()), vshape) == Result::<
            TypedV,
            ErrorKind,
        >::Ok(ps[j].1),
    decreases ps, 0int,
{
    if ps.len() > 0 {
        lemma_rt_val(ps[0].1, vshape);
        lemma_rt_pairs_pointwise(ps.drop_first(), vshape);
        assert forall|j: int| 0 <= j < ps.len() implies {
            &&& (#[trigger] ps[j]).0 is Str
            &&& key_string(ps[j].0) == Result::<Seq<char>, ErrorKind>::Ok(ps[j].0->Str_0)
            &&& enc_val(ps[j].1) is Ok
            &&& !skip_av(enc_val(ps[j].1).unwrap())
            &&& dec_at(Option::Some(enc_val(ps[j].1).unwrap()), vshape) == Result::<
                TypedV,
                ErrorKind,
            >::Ok(ps[j].1)
        } by {
            if j >= 1 {
                assert(ps.drop_first()[j - 1] == ps[j]);
            }
        }
    }
}

/// A compatible list encodes elementwise and decodes back to itself.
proof fn lemma_rt_list_full(l: Seq<TypedV>, elem: Shape)
    requires
        rt_list(l, elem),
    ensures
        enc_list(l) matches Result::Ok(items) && items.len() == l.len() && (forall|j: int|
            0 <= j < l.len() ==> #[trigger] items[j] == enc_val(l[j]).unwrap()) && (forall|j: int|
            0 <= j < l.len() ==> dec_at(Option::Some(#[trigger] items[j]), elem) == Result::<
                TypedV,
                ErrorKind,
            >::Ok(l[j])) && dec_list_elems(items, elem) == Result::<Seq<TypedV>, ErrorKind>::Ok(
            l,
        ),
    decreases l, 0int,
{
    if l.len() == 0 {
        assert(enc_list(l) == Result::<Seq<AttrV>, ErrorKind>::Ok(Seq::<AttrV>::empty()));
        assert(l =~= Seq::<TypedV>::empty());
        assert(dec_list_elems(Seq::<AttrV>::empty(), elem) == Result::<
            Seq<TypedV>,
            ErrorKind,
        >::Ok(Seq::<TypedV>::empty()));
    } else {
        lemma_rt_val(l[0], elem);
        lemma_rt_list_full(l.drop_first(), elem);
        let a0 = enc_val(l[0]).unwrap();
        let restitems = enc_list(l.drop_first()).unwrap();
        let items = seq![a0] + restitems;
        assert(enc_list(l) == Result::<Seq<AttrV>, ErrorKind>::Ok(items));
        assert(items[0] == a0);
        assert forall|j: int| 0 <= j < l.len() implies #[trigger] items[j] == enc_val(
            l[j],
        ).unwrap() && dec_at(Option::Some(items[j]), elem) == Result::<TypedV, ErrorKind>::Ok(
            l[j],
        ) by {
            if j >= 1 {
                assert(l.drop_first()[j - 1] == l[j]);
                assert(items[j] == restitems[j - 1]);
            }
        }
        crate::de::lemma_dec_list_ok(items, elem, l);
    }
}

/// A compatible tuple encodes to its positional entries and decodes back to
/// itself.
proof fn lemma_rt_tuple_entries(l: Seq<TypedV>, shapes: Seq<Shape>)
    requires
        rt_tuple(l, shapes),
    ensures
        enc_tuple_entries(l, 0, Seq::empty()) == Result::<Seq<(Seq<char>, AttrV)>, ErrorKind>::Ok(
            enc_pure_tuple(l, 0),
        ),
        keys_unique(enc_pure_tuple(l, 0)),
        dec_tuple_elems(enc_pure_tuple(l, 0), shapes, 0) == Result::<Seq<TypedV>, ErrorKind>::Ok(
            l,
        ),
    decreases l, 1int,
{
    lemma_rt_tuple_pointwise(l, shapes);
    assert(forall|k: nat| !map_has(Seq::<(Seq<char>, AttrV)>::empty(), #[trigger] tuple_key(k)));
    lemma_enc_tuple_pure(l, 0, Seq::empty());
    assert(Seq::<(Seq<char>, AttrV)>::empty() + enc_pure_tuple(l, 0) =~= enc_pure_tuple(l, 0));
    lemma_enc_pure_tuple_props(l, 0);
    let pure = enc_pure_tuple(l, 0);
    assert forall|j: int| 0 <= j < shapes.len() implies dec_tuple_one(
        pure,
        shapes[j],
        (0 + j) as nat,
    ) == Result::<TypedV, ErrorKind>::Ok(l[j]) by {
        assert(map_get(pure, tuple_key((0 + j) as nat)) == Option::Some(enc_val(l[j]).unwrap()));
    }
    crate::de::lemma_dec_tuple_ok(pure, shapes, 0, l);
}

/// A compatible struct encodes to its named entries and decodes back to
/// itself.
proof fn lemma_rt_struct_entries(fvs: Seq<(Seq<char>, TypedV)>, fields: Seq<Field>)
    requires
        forall|i: int, j: int| 0 <= i < j < fvs.len() ==> fvs[i].0 != fvs[j].0,
        rt_fields(fvs, fields),
    ensures
        enc_fields(fvs, Seq::empty()) == Result::<Seq<(Seq<char>, AttrV)>, ErrorKind>::Ok(
            enc_pure_fields(fvs),
        ),
        keys_unique(enc_pure_fields(fvs)),
        dec_struct_fields(enc_pure_fields(fvs), fields) == Result::<
            Seq<(Seq<char>, TypedV)>,
            ErrorKind,
        >::Ok(fvs),
    decreases fvs, 1int,
{
    lemma_rt_fields_pointwise(fvs, fields);
    lemma_enc_fields_pure(fvs, Seq::empty());
    assert(Seq::<(Seq<char>, AttrV)>::empty() + enc_pure_fields(fvs) =~= enc_pure_fields(fvs));
    lemma_enc_pure_fields_props(fvs);
    let pure = enc_pure_fields(fvs);
    assert forall|j: int| 0 <= j < fields.len() implies dec_field_one(pure, fields[j])
        == Result::<TypedV, ErrorKind>::Ok(fvs[j].1) && fvs[j].0 == fields[j].name@ by {
        let a = enc_val(fvs[j].1).unwrap();
        if skip_av(a) {
            assert(!map_has(pure, fvs[j].0));
            lemma_map_get_has(pure, fvs[j].0);
            assert(map_get(pure, fields[j].name@) is None);
        } else {
            assert(map_get(pure, fields[j].name@) == Option::Some(a));
        }
    }
    crate::de::lemma_dec_struct_ok(pure, fields, fvs);
}

/// A compatible mapping encodes to one entry per pair and decodes back to
/// itself.
proof fn lemma_rt_map_entries(ps: Seq<(TypedV, TypedV)>, vshape: Shape)
    requires
        forall|i: int, j: int| 0 <= i < j < ps.len() ==> ps[i].0 != ps[j].0,
        rt_pairs(ps, vshape),
    ensures
        enc_pairs(ps, Seq::empty()) == Result::<Seq<(Seq<char>, AttrV)>, ErrorKind>::Ok(
            enc_pure_pairs(ps),
        ),
        dec_map_entries(enc_pure_pairs(ps), vshape) == Result::<
            Seq<(TypedV, TypedV)>,
            ErrorKind,
        >::Ok(ps),
    decreases ps, 1int,
{
    lemma_rt_pairs_pointwise(ps, vshape);
    assert forall|i: int, j: int| 0 <= i < j < ps.len() implies key_string(ps[i].0).unwrap()
        != key_string(ps[j].0).unwrap() by {
        assert(ps[i].0 is Str && ps[j].0 is Str);
        assert(ps[i].0 != ps[j].0);
    }
    lemma_enc_pairs_pure(ps, Seq::empty());
    assert(Seq::<(Seq<char>, AttrV)>::empty() + enc_pure_pairs(ps) =~= enc_pure_pairs(ps));
    lemma_enc_pure_pairs_props(ps);
    let pure = enc_pure_pairs(ps);
    assert forall|j: int| 0 <= j < pure.len() implies dec_at(
        Option::Some(pure[j].1),
        vshape,
    ) == Result::<TypedV, ErrorKind>::Ok(ps[j].1) && ps[j].0 == TypedV::Str(pure[j].0) by {
        assert(pure[j] == (key_string(ps[j].0).unwrap(), enc_val(ps[j].1).unwrap()));
        assert(key_string(ps[j].0) == Result::<Seq<char>, ErrorKind>::Ok(ps[j].0->Str_0));
        assert(ps[j].0 == TypedV::Str(ps[j].0->Str_0));
    }
    crate::de::lemma_dec_map_ok(pure, vshape, ps);
}

/// A compatible sum-type value encodes to its reserved entries and decodes
/// back to itself from them.
proof fn lemma_rt_enum(v: TypedV, s: Shape)
    requires
        v is EnumUnit || v is EnumNewtype || v is EnumTuple || v is EnumStruct,
        rt_val(v, s),
    ensures
        s is Enum,
        enc_root(v) matches Result::Ok(es) && dec_enum_in(es, s->Enum_0@) == Result::<
            TypedV,
            ErrorKind,
        >::Ok(v),
    decreases v, 1int,
{
    let vs = s->Enum_0@;
    assert(s == Shape::Enum(s->Enum_0));
    lemma_reserved_keys_distinct();
    lemma_variant_get_first(vs, name_of_enum(v));
    let var = variant_get(vs, name_of_enum(v)).unwrap();
    let i = choose|i: int|
        0 <= i < vs.len() && vs[i] == var && vs[i].name@ == name_of_enum(v) && (forall|j: int|
            0 <= j < i ==> vs[j].name@ != name_of_enum(v));
    match v {
        TypedV::EnumUnit(n) => {
            let es = enum_entries(n, Option::None);
            assert(enc_root(v) == Result::<Seq<(Seq<char>, AttrV)>, ErrorKind>::Ok(es));
            assert(es =~= seq![(tag_key(), AttrV::S(n))] + Seq::<(Seq<char>, AttrV)>::empty());
            lemma_map_get_cons(
                (tag_key(), AttrV::S(n)),
                Seq::empty(),
                tag_key(),
            );
            lemma_map_get_cons(
                (tag_key(), AttrV::S(n)),
                Seq::empty(),
                values_key(),
            );
            assert(map_get(es, tag_key()) == Option::Some(AttrV::S(n)));
            assert(map_get(es, values_key()) is None);
            crate::de::lemma_dec_enum_pick_skip(Seq::empty(), n, vs, i);
            assert(vs.skip(i)[0] == vs[i]);
        },
        TypedV::EnumNewtype(n, b) => {
            let inner = var.payload->Newtype_0;
            assert(var.payload == VariantShape::Newtype(inner));
            lemma_rt_val(*b, *inner);
            let a = enc_val(*b).unwrap();
            let nv = newtype_values(a);
            let es = enum_entries(n, Option::Some(nv));
            assert(enc_root(v) == Result::<Seq<(Seq<char>, AttrV)>, ErrorKind>::Ok(es));
            assert(es =~= seq![(tag_key(), AttrV::S(n))] + (seq![(values_key(), AttrV::M(nv))]
                + Seq::<(Seq<char>, AttrV)>::empty()));
            lemma_map_get_cons(
                (tag_key(), AttrV::S(n)),
                seq![(values_key(), AttrV::M(nv))] + Seq::empty(),
                tag_key(),
            );
            lemma_map_get_cons(
                (tag_key(), AttrV::S(n)),
                seq![(values_key(), AttrV::M(nv))] + Seq::empty(),
                values_key(),
            );
            lemma_map_get_cons((values_key(), AttrV::M(nv)), Seq::empty(), values_key());
            assert(map_get(es, tag_key()) == Option::Some(AttrV::S(n)));
            assert(map_get(es, values_key()) == Option::Some(AttrV::M(nv)));
            crate::de::lemma_dec_enum_pick_skip(nv, n, vs, i);
            assert(vs.skip(i)[0] == vs[i]);
            if skip_av(a) {
                assert(nv =~= Seq::<(Seq<char>, AttrV)>::empty());
                assert(map_get(nv, tuple_key(0)) is None);
                assert(dec_at(Option::None, *inner) == Result::<TypedV, ErrorKind>::Ok(*b));
            } else {
                assert(nv =~= seq![(tuple_key(0), a)] + Seq::<(Seq<char>, AttrV)>::empty());
                lemma_map_get_cons((tuple_key(0), a), Seq::empty(), tuple_key(0));
                assert(map_get(nv, tuple_key(0)) == Option::Some(a));
            }
            assert(TypedV::EnumNewtype(n, Box::new(*b)) == v);
        },
        TypedV::EnumTuple(n, l) => {
            let shapes = var.payload->TupleLike_0;
            assert(var.payload == VariantShape::TupleLike(shapes));
            lemma_rt_tuple_entries(l, shapes@);
            let pure = enc_pure_tuple(l, 0);
            let es = enum_entries(n, Option::Some(pure));
            assert(enc_root(v) == Result::<Seq<(Seq<char>, AttrV)>, ErrorKind>::Ok(es));
            assert(es =~= seq![(tag_key(), AttrV::S(n))] + (seq![(values_key(), AttrV::M(pure))]
                + Seq::<(Seq<char>, AttrV)>::empty()));
            lemma_map_get_cons(
                (tag_key(), AttrV::S(n)),
                seq![(values_key(), AttrV::M(pure))] + Seq::empty(),
                tag_key(),
            );
            lemma_map_get_cons(
                (tag_key(), AttrV::S(n)),
                seq![(values_key(), AttrV::M(pure))] + Seq::empty(),
                values_key(),
            );
            lemma_map_get_cons((values_key(), AttrV::M(pure)), Seq::empty(), values_key());
            assert(map_get(es, tag_key()) == Option::Some(AttrV::S(n)));
            assert(map_get(es, values_key()) == Option::Some(AttrV::M(pure)));
            crate::de::lemma_dec_enum_pick_skip(pure, n, vs, i);
            assert(vs.skip(i)[0] == vs[i]);
        },
        TypedV::EnumStruct(n, f) => {
            let fields = var.payload->StructLike_0;
            assert(var.payload == VariantShape::StructLike(fields));
            lemma_rt_struct_entries(f, fields@);
            let pure = enc_pure_fields(f);
            let es = enum_entries(n, Option::Some(pure));
            assert(enc_root(v) == Result::<Seq<(Seq<char>, AttrV)>, ErrorKind>::Ok(es));
            assert(es =~= seq![(tag_key(), AttrV::S(n))] + (seq![(values_key(), AttrV::M(pure))]
                + Seq::<(Seq<char>, AttrV)>::empty()));
            lemma_map_get_cons(
                (tag_key(), AttrV::S(n)),
                seq![(values_key(), AttrV::M(pure))] + Seq::empty(),
                tag_key(),
            );
            lemma_map_get_cons(
                (tag_key(), AttrV::S(n)),
                seq![(values_key(), AttrV::M(pure))] + Seq::empty(),
                values_key(),
            );
            lemma_map_get_cons((values_key(), AttrV::M(pure)), Seq::empty(), values_key());
            assert(map_get(es, tag_key()) == Option::Some(AttrV::S(n)));
            assert(map_get(es, values_key()) == Option::Some(AttrV::M(pure)));
            crate::de::lemma_dec_enum_pick_skip(pure, n, vs, i);
            assert(vs.skip(i)[0] == vs[i]);
        },
        _ => {},
    }
}

/// The variant name a sum-type value carries.
pub open spec fn name_of_enum(v: TypedV) -> Seq<char> {
    match v {
        TypedV::EnumUnit(n) => n,
        TypedV::EnumNewtype(n, _) => n,
        TypedV::EnumTuple(n, _) => n,
        TypedV::EnumStruct(n, _) => n,
        _ => Seq::empty(),
    }
}

/// A compatible value encodes, and decoding the encoding at the same
/// position restores exactly the value: through its stored attribute when
/// one is written, and through absence when the encoding is omitted.
pub proof fn lemma_rt_val(v: TypedV, s: Shape)
    requires
        rt_val(v, s),
    ensures
        enc_val(v) is Ok,
        !skip_av(enc_val(v).unwrap()) ==> dec_at(Option::Some(enc_val(v).unwrap()), s)
            == Result::<TypedV, ErrorKind>::Ok(v),
        skip_av(enc_val(v).unwrap()) ==> dec_at(Option::None, s) == Result::<
            TypedV,
            ErrorKind,
        >::Ok(v) && dec_at(Option::Some(enc_val(v).unwrap()), s) == Result::<
            TypedV,
            ErrorKind,
        >::Ok(v),
    decreases v, 2int,
{
    match v {
        TypedV::Bool(_) => {
            assert(s == Shape::Bool);
        },
        TypedV::Float(_) => {
            assert(s == Shape::Float);
        },
        TypedV::Unit => {
            assert(s == Shape::Unit);
        },
        TypedV::NoneVal => {
            assert(s == Shape::Optional(s->Optional_0));
        },
        TypedV::I8(i) => {
            assert(s == Shape::I8);
            lemma_dec_round_trip(i as int);
            assert(int_value(i as int, i8::MIN as int, i8::MAX as int) == TypedV::I8(i));
        },
        TypedV::I16(i) => {
            assert(s == Shape::I16);
            lemma_dec_round_trip(i as int);
            assert(int_value(i as int, i16::MIN as int, i16::MAX as int) == TypedV::I16(i));
        },
        TypedV::I32(i) => {
            assert(s == Shape::I32);
            lemma_dec_round_trip(i as int);
            assert(int_value(i as int, i32::MIN as int, i32::MAX as int) == TypedV::I32(i));
        },
        TypedV::I64(i) => {
            assert(s == Shape::I64);
            lemma_dec_round_trip(i as int);
            assert(int_value(i as int, i64::MIN as int, i64::MAX as int) == TypedV::I64(i));
        },
        TypedV::U8(u) => {
            assert(s == Shape::U8);
            lemma_dec_round_trip(u as int);
            assert(uint_value(u as int, u8::MAX as int) == TypedV::U8(u));
        },
        TypedV::U16(u) => {
            assert(s == Shape::U16);
            lemma_dec_round_trip(u as int);
            assert(uint_value(u as int, u16::MAX as int) == TypedV::U16(u));
        },
        TypedV::U32(u) => {
            assert(s == Shape::U32);
            lemma_dec_round_trip(u as int);
            assert(uint_value(u as int, u32::MAX as int) == TypedV::U32(u));
        },
        TypedV::U64(u) => {
            assert(s == Shape::U64);
            lemma_dec_round_trip(u as int);
            assert(uint_value(u as int, u64::MAX as int) == TypedV::U64(u));
        },
        TypedV::Char(c) => {
            assert(s == Shape::Char);
            let a = enc_val(v).unwrap();
            assert(a == AttrV::S(seq![c]));
            assert(seq![c].len() == 1);
            assert(seq![c][0] == c);
        },
        TypedV::Str(str) => {
            assert(s == Shape::Str);
            if str.len() == 0 {
                assert(str =~= Seq::<char>::empty());
            }
        },
        TypedV::Bytes(bts) => {
            assert(s == Shape::Bytes);
            if bts.len() == 0 {
                assert(bts =~= Seq::<u8>::empty());
            }
        },
        TypedV::SomeVal(b) => {
            let inner = s->Optional_0;
            assert(s == Shape::Optional(inner));
            lemma_rt_val(*b, *inner);
            let a = enc_val(*b).unwrap();
            assert(enc_val(v) == Result::<AttrV, ErrorKind>::Ok(a));
            assert(!(a is Null) && !skip_av(a));
            assert(dec_at(Option::Some(a), *inner) == Result::<TypedV, ErrorKind>::Ok(*b));
            assert(TypedV::SomeVal(Box::new(*b)) == v);
            assert(dec_at(Option::Some(a), s) == Result::<TypedV, ErrorKind>::Ok(v));
        },
        TypedV::SeqVal(l) => {
            let elem = s->SeqOf_0;
            assert(s == Shape::SeqOf(elem));
            lemma_rt_list_full(l, *elem);
            let items = enc_list(l).unwrap();
            assert(enc_val(v) == Result::<AttrV, ErrorKind>::Ok(AttrV::L(items)));
            assert(dec_seq_items(AttrV::L(items), *elem) == Result::<
                Seq<TypedV>,
                ErrorKind,
            >::Ok(l));
            assert(dec_at(Option::Some(AttrV::L(items)), s) == Result::<TypedV, ErrorKind>::Ok(
                v,
            ));
        },
        TypedV::Tuple(l) => {
            let shapes = s->Tuple_0;
            assert(s == Shape::Tuple(shapes));
            lemma_rt_tuple_entries(l, shapes@);
            let pure = enc_pure_tuple(l, 0);
            assert(enc_val(v) == Result::<AttrV, ErrorKind>::Ok(AttrV::M(pure)));
            assert(dec_at(Option::Some(AttrV::M(pure)), s) == Result::<TypedV, ErrorKind>::Ok(
                v,
            ));
        },
        TypedV::Struct(f) => {
            let fields = s->Struct_0;
            assert(s == Shape::Struct(fields));
            lemma_rt_struct_entries(f, fields@);
            let pure = enc_pure_fields(f);
            assert(enc_val(v) == Result::<AttrV, ErrorKind>::Ok(AttrV::M(pure)));
            assert(dec_at(Option::Some(AttrV::M(pure)), s) == Result::<TypedV, ErrorKind>::Ok(
                v,
            ));
        },
        TypedV::MapVal(p) => {
            let vshape = s->MapOf_0;
            assert(s == Shape::MapOf(vshape));
            lemma_rt_map_entries(p, *vshape);
            let pure = enc_pure_pairs(p);
            assert(enc_val(v) == Result::<AttrV, ErrorKind>::Ok(AttrV::M(pure)));
            assert(dec_at(Option::Some(AttrV::M(pure)), s) == Result::<TypedV, ErrorKind>::Ok(
                v,
            ));
        },
        TypedV::EnumUnit(_) => {
            lemma_rt_enum(v, s);
            assert(s == Shape::Enum(s->Enum_0));
            let es = enc_root(v).unwrap();
            assert(enc_val(v) == Result::<AttrV, ErrorKind>::Ok(AttrV::M(es)));
            assert(!skip_av(AttrV::M(es)));
            assert(dec_at(Option::Some(AttrV::M(es)), s) == Result::<TypedV, ErrorKind>::Ok(v));
        },
        TypedV::EnumNewtype(_, _) => {
            lemma_rt_enum(v, s);
            assert(s == Shape::Enum(s->Enum_0));
            let es = enc_root(v).unwrap();
            assert(enc_val(v) == Result::<AttrV, ErrorKind>::Ok(AttrV::M(es)));
            assert(dec_at(Option::Some(AttrV::M(es)), s) == Result::<TypedV, ErrorKind>::Ok(v));
        },
        TypedV::EnumTuple(_, _) => {
            lemma_rt_enum(v, s);
            assert(s == Shape::Enum(s->Enum_0));
            let es = enc_root(v).unwrap();
            assert(enc_val(v) == Result::<AttrV, ErrorKind>::Ok(AttrV::M(es)));
            assert(dec_at(Option::Some(AttrV::M(es)), s) == Result::<TypedV, ErrorKind>::Ok(v));
        },
        TypedV::EnumStruct(_, _) => {
            lemma_rt_enum(v, s);
            assert(s == Shape::Enum(s->Enum_0));
            let es = enc_root(v).unwrap();
            assert(enc_val(v) == Result::<AttrV, ErrorKind>::Ok(AttrV::M(es)));
            assert(dec_at(Option::Some(AttrV::M(es)), s) == Result::<TypedV, ErrorKind>::Ok(v));
        },
    }
}

/// Round trip: for every aggregate value compatible with the requested
/// shape, encoding it as a whole item and decoding the result against that
/// shape returns exactly the value.
pub proof fn theorem_round_trip(v: TypedV, s: Shape)
    requires
        root_aggregate(v),
        rt_val(v, s),
    ensures
        enc_root(v) matches Result::Ok(entries) && dec_root(entries, s) == Result::<
            TypedV,
            ErrorKind,
        >::Ok(v),
{
    match v {
        TypedV::Tuple(l) => {
            let shapes = s->Tuple_0;
            assert(s == Shape::Tuple(shapes));
            lemma_rt_tuple_entries(l, shapes@);
        },
        TypedV::Struct(f) => {
            let fields = s->Struct_0;
            assert(s == Shape::Struct(fields));
            lemma_rt_struct_entries(f, fields@);
        },
        TypedV::MapVal(p) => {
            let vshape = s->MapOf_0;
            assert(s == Shape::MapOf(vshape));
            lemma_rt_map_entries(p, *vshape);
        },
        _ => {
            lemma_rt_enum(v, s);
            assert(s == Shape::Enum(s->Enum_0));
        },
    }
}

} // verus!
