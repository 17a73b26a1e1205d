//! The encoder: walks a typed value and produces the attribute-value map
//! representing it.
//!
//! Contract by shape: booleans become `Bool`, integers and floats become
//! `N` in base-10 string form, characters and strings become `S`, byte
//! strings become `B`, unit and absent options become `Null`, present
//! options encode their inner value in place, sequences become `L`, tuples
//! spread over synthetic positional keys `"_0"`, `"_1"`, …, structs and
//! mappings spread over their own keys, and sum types follow the shared
//! tag protocol (`"___enum_tag"` / `"___enum_values"`).  A non-aggregate at
//! the document root is rejected: the store's item model requires a keyed
//! aggregate at the top.
//!
//! One deliberate asymmetry: an empty string or empty byte string at a keyed
//! position is omitted entirely (the wire format forbids empty string
//! values); inside a sequence, elements are kept as they are.

use vstd::prelude::*;
use crate::attr::{av_view, avs_view, map_set, AttrMap, AttrV, AttributeValue};
use crate::error::{Error, ErrorKind};
use crate::keyser::{encode_key, char_to_string, key_string};
use crate::num::{dec_digits, dec_str_int, format_i64, format_u64};
use crate::typed::{
    lemma_tv_fields_view, lemma_tv_pairs_view, lemma_tvs_view, tv_fields_view, tv_pairs_view,
    tv_view, tvs_view, TypedV, TypedValue,
};

verus! {

/// The reserved key holding a sum-type variant name.
pub open spec fn tag_key() -> Seq<char> {
    "___enum_tag"@
}

/// The reserved key holding a sum-type payload map.
pub open spec fn values_key() -> Seq<char> {
    "___enum_values"@
}

/// The synthetic positional key for index `i`.
pub open spec fn tuple_key(i: nat) -> Seq<char> {
    seq!['_'] + dec_digits(i)
}

/// Whether an encoded value is omitted at keyed positions: empty strings
/// and empty byte strings are not written.
pub open spec fn skip_av(a: AttrV) -> bool {
    ||| (a matches AttrV::S(s) && s.len() == 0)
    ||| (a matches AttrV::B(b) && b.len() == 0)
}

/// The two reserved entries of an encoded sum type: the tag, then the
/// payload map when the variant carries one.
pub open spec fn enum_entries(name: Seq<char>, values: Option<Seq<(Seq<char>, AttrV)>>) -> Seq<
    (Seq<char>, AttrV),
> {
    match values {
        Option::None => seq![(tag_key(), AttrV::S(name))],
        Option::Some(vs) => seq![(tag_key(), AttrV::S(name)), (values_key(), AttrV::M(vs))],
    }
}

/// The payload map of a single positional payload: `"_0"` bound to the
/// encoded value, or empty when that value is omitted.
pub open spec fn newtype_values(a: AttrV) -> Seq<(Seq<char>, AttrV)> {
    if skip_av(a) {
        Seq::empty()
    } else {
        seq![(tuple_key(0), a)]
    }
}

/// The encoding of one typed value at a non-root position, or the kind of
/// error it is rejected with.
pub open spec fn enc_val(v: TypedV) -> Result<AttrV, ErrorKind>
    decreases v,
{
    match v {
        TypedV::Bool(b) => Result::Ok(AttrV::Bool(b)),
        TypedV::I8(i) => Result::Ok(AttrV::N(dec_str_int(i as int))),
        TypedV::I16(i) => Result::Ok(AttrV::N(dec_str_int(i as int))),
        TypedV::I32(i) => Result::Ok(AttrV::N(dec_str_int(i as int))),
        TypedV::I64(i) => Result::Ok(AttrV::N(dec_str_int(i as int))),
        TypedV::U8(u) => Result::Ok(AttrV::N(dec_digits(u as nat))),
        TypedV::U16(u) => Result::Ok(AttrV::N(dec_digits(u as nat))),
        TypedV::U32(u) => Result::Ok(AttrV::N(dec_digits(u as nat))),
        TypedV::U64(u) => Result::Ok(AttrV::N(dec_digits(u as nat))),
        TypedV::Float(s) => Result::Ok(AttrV::N(s)),
        TypedV::Char(c) => Result::Ok(AttrV::S(seq![c])),
        TypedV::Str(s) => Result::Ok(AttrV::S(s)),
        TypedV::Bytes(b) => Result::Ok(AttrV::B(b)),
        TypedV::Unit => Result::Ok(AttrV::Null),
        TypedV::NoneVal => Result::Ok(AttrV::Null),
        TypedV::SomeVal(b) => enc_val(*b),
        TypedV::SeqVal(l) => match enc_list(l) {
            Result::Ok(items) => Result::Ok(AttrV::L(items)),
            Result::Err(k) => Result::Err(k),
        },
        TypedV::Tuple(l) => match enc_tuple_entries(l, 0, Seq::empty()) {
            Result::Ok(es) => Result::Ok(AttrV::M(es)),
            Result::Err(k) => Result::Err(k),
        },
        TypedV::Struct(f) => match enc_fields(f, Seq::empty()) {
            Result::Ok(es) => Result::Ok(AttrV::M(es)),
            Result::Err(k) => Result::Err(k),
        },
        TypedV::MapVal(p) => match enc_pairs(p, Seq::empty()) {
            Result::Ok(es) => Result::Ok(AttrV::M(es)),
            Result::Err(k) => Result::Err(k),
        },
        TypedV::EnumUnit(n) => Result::Ok(AttrV::M(enum_entries(n, Option::None))),
        TypedV::EnumNewtype(n, b) => match enc_val(*b) {
            Result::Ok(a) => Result::Ok(
                AttrV::M(enum_entries(n, Option::Some(newtype_values(a)))),
            ),
            Result::Err(k) => Result::Err(k),
        },
        TypedV::EnumTuple(n, l) => match enc_tuple_entries(l, 0, Seq::empty()) {
            Result::Ok(es) => Result::Ok(AttrV::M(enum_entries(n, Option::Some(es)))),
            Result::Err(k) => Result::Err(k),
        },
        TypedV::EnumStruct(n, f) => match enc_fields(f, Seq::empty()) {
            Result::Ok(es) => Result::Ok(AttrV::M(enum_entries(n, Option::Some(es)))),
            Result::Err(k) => Result::Err(k),
        },
    }
}

/// The encoding of sequence elements, all kept in order.
pub open spec fn enc_list(l: Seq<TypedV>) -> Result<Seq<AttrV>, ErrorKind>
    decreases l,
{
    if l.len() == 0 {
        Result::Ok(Seq::empty())
    } else {
        match enc_val(l[0]) {
            Result::Ok(a) => match enc_list(l.drop_first()) {
                Result::Ok(rest) => Result::Ok(seq![a] + rest),
                Result::Err(k) => Result::Err(k),
            },
            Result::Err(k) => Result::Err(k),
        }
    }
}

/// The entries that tuple elements starting at index `idx` add to `acc`:
/// each under its positional key, omitted ones skipped.
pub open spec fn enc_tuple_entries(
    l: Seq<TypedV>,
    idx: nat,
    acc: Seq<(Seq<char>, AttrV)>,
) -> Result<Seq<(Seq<char>, AttrV)>, ErrorKind>
    decreases l,
{
    if l.len() == 0 {
        Result::Ok(acc)
    } else {
        match enc_val(l[0]) {
            Result::Ok(a) => enc_tuple_entries(
                l.drop_first(),
                idx + 1,
                if skip_av(a) {
                    acc
                } else {
                    map_set(acc, tuple_key(idx), a)
                },
            ),
            Result::Err(k) => Result::Err(k),
        }
    }
}

/// The entries that named fields add to `acc`: each under its name, omitted
/// ones skipped, a repeated name replacing the earlier entry.
pub open spec fn enc_fields(
    fs: Seq<(Seq<char>, TypedV)>,
    acc: Seq<(Seq<char>, AttrV)>,
) -> Result<Seq<(Seq<char>, AttrV)>, ErrorKind>
    decreases fs,
{
    if fs.len() == 0 {
        Result::Ok(acc)
    } else {
        match enc_val(fs[0].1) {
            Result::Ok(a) => enc_fields(
                fs.drop_first(),
                if skip_av(a) {
                    acc
                } else {
                    map_set(acc, fs[0].0, a)
                },
            ),
            Result::Err(k) => Result::Err(k),
        }
    }
}

/// The entries that map pairs add to `acc`: each under its serialized key,
/// omitted values skipped, a repeated key replacing the earlier entry.
pub open spec fn enc_pairs(
    ps: Seq<(TypedV, TypedV)>,
    acc: Seq<(Seq<char>, AttrV)>,
) -> Result<Seq<(Seq<char>, AttrV)>, ErrorKind>
    decreases ps,
{
    if ps.len() == 0 {
        Result::Ok(acc)
    } else {
        match key_string(ps[0].0) {
            Result::Ok(k) => match enc_val(ps[0].1) {
                Result::Ok(a) => enc_pairs(
                    ps.drop_first(),
                    if skip_av(a) {
                        acc
                    } else {
                        map_set(acc, k, a)
                    },
                ),
                Result::Err(e) => Result::Err(e),
            },
            Result::Err(e) => Result::Err(e),
        }
    }
}

/// The encoding of a typed value as a whole item: its top-level entries.
/// Only aggregates (structs, tuples, maps, and sum types) are accepted at
/// the root; anything else is rejected with `MissingAggregateRoot`.
pub open spec fn enc_root(v: TypedV) -> Result<Seq<(Seq<char>, AttrV)>, ErrorKind> {
    match v {
        TypedV::Tuple(l) => enc_tuple_entries(l, 0, Seq::empty()),
        TypedV::Struct(f) => enc_fields(f, Seq::empty()),
        TypedV::MapVal(p) => enc_pairs(p, Seq::empty()),
        TypedV::EnumUnit(n) => Result::Ok(enum_entries(n, Option::None)),
        TypedV::EnumNewtype(n, b) => match enc_val(*b) {
            Result::Ok(a) => Result::Ok(enum_entries(n, Option::Some(newtype_values(a)))),
            Result::Err(k) => Result::Err(k),
        },
        TypedV::EnumTuple(n, l) => match enc_tuple_entries(l, 0, Seq::empty()) {
            Result::Ok(es) => Result::Ok(enum_entries(n, Option::Some(es))),
            Result::Err(k) => Result::Err(k),
        },
        TypedV::EnumStruct(n, f) => match enc_fields(f, Seq::empty()) {
            Result::Ok(es) => Result::Ok(enum_entries(n, Option::Some(es))),
            Result::Err(k) => Result::Err(k),
        },
        _ => Result::Err(ErrorKind::MissingAggregateRoot),
    }
}

/// Whether this encoded value is omitted at keyed positions.
fn is_skip(a: &AttributeValue) -> (r: bool)
    ensures
        r == skip_av(a@),
{
    match a {
        AttributeValue::S(s) => s.as_str().is_empty(),
        AttributeValue::B(b) => b.len() == 0,
        _ => false,
    }
}

/// The positional key `"_i"`.
pub(crate) fn make_tuple_key(i: usize) -> (r: String)
    ensures
        r@ == tuple_key(i as nat),
{
    let mut k = String::from_str("_");
    proof {
        reveal_strlit("_");
    }
    let d = format_u64(i as u64);
    k.append(d.as_str());
    k
}

/// Encodes one value for a non-root position.
pub fn enc_value(v: &TypedValue) -> (r: Result<AttributeValue, Error>)
    ensures
        match r {
            Result::Ok(a) => enc_val(v@) == Result::<AttrV, ErrorKind>::Ok(a@),
            Result::Err(e) => enc_val(v@) == Result::<AttrV, ErrorKind>::Err(e.kind),
        },
    decreases *v,
{
    match v {
        TypedValue::Bool(b) => Result::Ok(AttributeValue::Bool(*b)),
        TypedValue::I8(i) => Result::Ok(AttributeValue::N(format_i64(*i as i64))),
        TypedValue::I16(i) => Result::Ok(AttributeValue::N(format_i64(*i as i64))),
        TypedValue::I32(i) => Result::Ok(AttributeValue::N(format_i64(*i as i64))),
        TypedValue::I64(i) => Result::Ok(AttributeValue::N(format_i64(*i))),
        TypedValue::U8(u) => Result::Ok(AttributeValue::N(format_u64(*u as u64))),
        TypedValue::U16(u) => Result::Ok(AttributeValue::N(format_u64(*u as u64))),
        TypedValue::U32(u) => Result::Ok(AttributeValue::N(format_u64(*u as u64))),
        TypedValue::U64(u) => Result::Ok(AttributeValue::N(format_u64(*u))),
        TypedValue::Float(s) => Result::Ok(AttributeValue::N(s.clone())),
        TypedValue::Char(c) => Result::Ok(AttributeValue::S(char_to_string(*c))),
        TypedValue::Str(s) => Result::Ok(AttributeValue::S(s.clone())),
        TypedValue::Bytes(b) => Result::Ok(AttributeValue::B(b.clone())),
        TypedValue::Unit => Result::Ok(AttributeValue::Null),
        TypedValue::NoneVal => Result::Ok(AttributeValue::Null),
        TypedValue::SomeVal(b) => enc_value(&**b),
        TypedValue::SeqVal(l) => {
            match enc_list_exec(l) {
                Result::Ok(items) => Result::Ok(AttributeValue::L(items)),
                Result::Err(e) => Result::Err(e),
            }
        },
        TypedValue::Tuple(l) => {
            let mut out = AttrMap::new();
            match enc_tuple_into(l, &mut out) {
                Result::Ok(_) => Result::Ok(AttributeValue::M(out)),
                Result::Err(e) => Result::Err(e),
            }
        },
        TypedValue::Struct(f) => {
            let mut out = AttrMap::new();
            match enc_fields_into(f, &mut out) {
                Result::Ok(_) => Result::Ok(AttributeValue::M(out)),
                Result::Err(e) => Result::Err(e),
            }
        },
        TypedValue::MapVal(p) => {
            let mut out = AttrMap::new();
            match enc_pairs_into(p, &mut out) {
                Result::Ok(_) => Result::Ok(AttributeValue::M(out)),
                Result::Err(e) => Result::Err(e),
            }
        },
        TypedValue::EnumUnit(n) => {
            Result::Ok(AttributeValue::M(enum_map(n, Option::None)))
        },
        TypedValue::EnumNewtype(n, b) => {
            match enc_value(&**b) {
                Result::Ok(a) => {
                    let values = newtype_map(a);
                    Result::Ok(AttributeValue::M(enum_map(n, Option::Some(values))))
                },
                Result::Err(e) => Result::Err(e),
            }
        },
        TypedValue::EnumTuple(n, l) => {
            let mut values = AttrMap::new();
            match enc_tuple_into(l, &mut values) {
                Result::Ok(_) => {
                    Result::Ok(AttributeValue::M(enum_map(n, Option::Some(values))))
                },
                Result::Err(e) => Result::Err(e),
            }
        },
        TypedValue::EnumStruct(n, f) => {
            let mut values = AttrMap::new();
            match enc_fields_into(f, &mut values) {
                Result::Ok(_) => {
                    Result::Ok(AttributeValue::M(enum_map(n, Option::Some(values))))
                },
                Result::Err(e) => Result::Err(e),
            }
        },
    }
}


/// Builds the payload map of a single positional payload.
fn newtype_map(a: AttributeValue) -> (r: AttrMap)
    ensures
        r@ == newtype_values(a@),
        r.wf(),
{
    let mut m = AttrMap::new();
    if !is_skip(&a) {
        let key = make_tuple_key(0);
        proof {
            lemma_empty_then_insert(m@, key@, a@);
        }
        m.insert(key, a);
        assert(m@ =~= seq![(tuple_key(0), a@)]);
    }
    m
}

/// Builds the map holding the two reserved entries of an encoded sum type.
fn enum_map(name: &String, values: Option<AttrMap>) -> (r: AttrMap)
    ensures
        match values {
            Option::Some(m) => r@ == enum_entries(name@, Option::Some(m@)),
            Option::None => r@ == enum_entries(name@, Option::None),
        },
        r.wf(),
{
    proof {
        lemma_reserved_keys_distinct();
    }
    let mut out = AttrMap::new();
    let tag = String::from_str("___enum_tag");
    proof {
        lemma_empty_then_insert(out@, tag@, AttrV::S(name@));
    }
    out.insert(tag, AttributeValue::S(name.clone()));
    assert(out@ =~= seq![(tag_key(), AttrV::S(name@))]);
    match values {
        Option::Some(m) => {
            let vals = String::from_str("___enum_values");
            proof {
                crate::attr::lemma_map_set_absent(out@, vals@, AttrV::M(m@));
            }
            out.insert(vals, AttributeValue::M(m));
            assert(out@ =~= seq![
                (tag_key(), AttrV::S(name@)),
                (values_key(), AttrV::M(m@)),
            ]);
        },
        Option::None => {},
    }
    out
}

/// `map_set` on an empty map is the single new entry.
proof fn lemma_empty_then_insert(m: Seq<(Seq<char>, AttrV)>, key: Seq<char>, value: AttrV)
    requires
        m.len() == 0,
    ensures
        map_set(m, key, value) =~= seq![(key, value)],
{
    crate::attr::lemma_map_set_absent(m, key, value);
    assert(m.push((key, value)) =~= seq![(key, value)]);
}

/// The two reserved keys differ.
pub proof fn lemma_reserved_keys_distinct()
    ensures
        tag_key() != values_key(),
        tag_key().len() > 0,
{
    reveal_strlit("___enum_tag");
    reveal_strlit("___enum_values");
}

/// Encodes the elements of a sequence.
fn enc_list_exec(l: &Vec<TypedValue>) -> (r: Result<Vec<AttributeValue>, Error>)
    ensures
        match r {
            Result::Ok(items) => enc_list(tvs_view(l@)) == Result::<Seq<AttrV>, ErrorKind>::Ok(
                avs_view(items@),
            ),
            Result::Err(e) => enc_list(tvs_view(l@)) == Result::<Seq<AttrV>, ErrorKind>::Err(
                e.kind,
            ),
        },
    decreases *l,
{
    let mut items: Vec<AttributeValue> = Vec::new();
    let n = l.len();
    proof {
        lemma_tvs_view(l@);
    }
    for i in 0..n
        invariant
            n == l@.len(),
            tvs_view(l@).len() == n,
            forall|k: int| 0 <= k < n ==> tvs_view(l@)[k] == tv_view(l@[k]),
            items@.len() == i,
            forall|k: int| 0 <= k < i ==> enc_val(tv_view(l@[k])) == Result::<
                AttrV,
                ErrorKind,
            >::Ok(av_view(items@[k])),
    {
        match enc_value(&l[i]) {
            Result::Ok(a) => {
                items.push(a);
            },
            Result::Err(e) => {
                proof {
                    lemma_enc_list_err(tvs_view(l@), i as int, e.kind);
                }
                return Result::Err(e);
            },
        }
    }
    proof {
        crate::attr::lemma_avs_view(items@);
        lemma_enc_list_ok(tvs_view(l@), avs_view(items@));
    }
    Result::Ok(items)
}

/// When every element up to `i` encodes and element `i` fails with `k`, the
/// whole list fails with `k`.
pub proof fn lemma_enc_list_err(l: Seq<TypedV>, i: int, k: ErrorKind)
    requires
        0 <= i < l.len(),
        forall|j: int| 0 <= j < i ==> enc_val(l[j]) is Ok,
        enc_val(l[i]) == Result::<AttrV, ErrorKind>::Err(k),
    ensures
        enc_list(l) == Result::<Seq<AttrV>, ErrorKind>::Err(k),
    decreases i,
{
    if i == 0 {
    } else {
        assert(forall|j: int| 0 <= j < i - 1 ==> l.drop_first()[j] == l[j + 1]);
        assert(l.drop_first()[i - 1] == l[i]);
        lemma_enc_list_err(l.drop_first(), i - 1, k);
    }
}

/// When the elements encode pointwise to `items`, the whole list encodes to
/// `items`.
pub proof fn lemma_enc_list_ok(l: Seq<TypedV>, items: Seq<AttrV>)
    requires
        items.len() == l.len(),
        forall|j: int| 0 <= j < l.len() ==> enc_val(l[j]) == Result::<AttrV, ErrorKind>::Ok(
            items[j],
        ),
    ensures
        enc_list(l) == Result::<Seq<AttrV>, ErrorKind>::Ok(items),
    decreases l.len(),
{
    if l.len() == 0 {
        assert(items =~= Seq::empty());
    } else {
        assert(forall|j: int| 0 <= j < l.len() - 1 ==> l.drop_first()[j] == l[j + 1]);
        assert(forall|j: int|
            0 <= j < items.len() - 1 ==> items.drop_first()[j] == items[j + 1]);
        lemma_enc_list_ok(l.drop_first(), items.drop_first());
        assert(seq![items[0]] + items.drop_first() =~= items);
    }
}

/// Encodes tuple elements into `out` under their positional keys.
#[verifier::loop_isolation(false)]
fn enc_tuple_into(l: &Vec<TypedValue>, out: &mut AttrMap) -> (r: Result<(), Error>)
    ensures
        match r {
            Result::Ok(_) => enc_tuple_entries(tvs_view(l@), 0, old(out)@) == Result::<
                Seq<(Seq<char>, AttrV)>,
                ErrorKind,
            >::Ok(final(out)@),
            Result::Err(e) => enc_tuple_entries(tvs_view(l@), 0, old(out)@) == Result::<
                Seq<(Seq<char>, AttrV)>,
                ErrorKind,
            >::Err(e.kind),
        },
        old(out).wf() ==> final(out).wf(),
    decreases *l,
{
    let n = l.len();
    proof {
        lemma_tvs_view(l@);
        assert(tvs_view(l@).skip(0) =~= tvs_view(l@));
    }
    for i in 0..n
        invariant
            enc_tuple_entries(tvs_view(l@).skip(i as int), i as nat, out@) == enc_tuple_entries(
                tvs_view(l@),
                0,
                old(out)@,
            ),
            old(out).wf() ==> out.wf(),
    {
        proof {
            let full = tvs_view(l@);
            assert(full.skip(i as int)[0] == full[i as int]);
            assert(full.skip(i as int).drop_first() =~= full.skip(i + 1));
        }
        match enc_value(&l[i]) {
            Result::Ok(a) => {
                if !is_skip(&a) {
                    let key = make_tuple_key(i);
                    out.insert(key, a);
                }
            },
            Result::Err(e) => {
                return Result::Err(e);
            },
        }
    }
    proof {
        assert(tvs_view(l@).skip(n as int) =~= Seq::empty());
    }
    Result::Ok(())
}

/// Encodes named fields into `out` under their names.
#[verifier::loop_isolation(false)]
fn enc_fields_into(fs: &Vec<(String, TypedValue)>, out: &mut AttrMap) -> (r: Result<(), Error>)
    ensures
        match r {
            Result::Ok(_) => enc_fields(tv_fields_view(fs@), old(out)@) == Result::<
                Seq<(Seq<char>, AttrV)>,
                ErrorKind,
            >::Ok(final(out)@),
            Result::Err(e) => enc_fields(tv_fields_view(fs@), old(out)@) == Result::<
                Seq<(Seq<char>, AttrV)>,
                ErrorKind,
            >::Err(e.kind),
        },
        old(out).wf() ==> final(out).wf(),
    decreases *fs,
{
    let n = fs.len();
    proof {
        lemma_tv_fields_view(fs@);
        assert(tv_fields_view(fs@).skip(0) =~= tv_fields_view(fs@));
    }
    for i in 0..n
        invariant
            enc_fields(tv_fields_view(fs@).skip(i as int), out@) == enc_fields(
                tv_fields_view(fs@),
                old(out)@,
            ),
            old(out).wf() ==> out.wf(),
    {
        proof {
            let full = tv_fields_view(fs@);
            assert(full.skip(i as int)[0] == full[i as int]);
            assert(full.skip(i as int).drop_first() =~= full.skip(i + 1));
        }
        match enc_value(&fs[i].1) {
            Result::Ok(a) => {
                if !is_skip(&a) {
                    let key = fs[i].0.clone();
                    out.insert(key, a);
                }
            },
            Result::Err(e) => {
                return Result::Err(e);
            },
        }
    }
    proof {
        assert(tv_fields_view(fs@).skip(n as int) =~= Seq::empty());
    }
    Result::Ok(())
}

/// Encodes map pairs into `out` under their serialized keys.
#[verifier::loop_isolation(false)]
fn enc_pairs_into(ps: &Vec<(TypedValue, TypedValue)>, out: &mut AttrMap) -> (r: Result<(), Error>)
    ensures
        match r {
            Result::Ok(_) => enc_pairs(tv_pairs_view(ps@), old(out)@) == Result::<
                Seq<(Seq<char>, AttrV)>,
                ErrorKind,
            >::Ok(final(out)@),
            Result::Err(e) => enc_pairs(tv_pairs_view(ps@), old(out)@) == Result::<
                Seq<(Seq<char>, AttrV)>,
                ErrorKind,
            >::Err(e.kind),
        },
        old(out).wf() ==> final(out).wf(),
    decreases *ps,
{
    let n = ps.len();
    proof {
        lemma_tv_pairs_view(ps@);
        assert(tv_pairs_view(ps@).skip(0) =~= tv_pairs_view(ps@));
    }
    for i in 0..n
        invariant
            enc_pairs(tv_pairs_view(ps@).skip(i as int), out@) == enc_pairs(
                tv_pairs_view(ps@),
                old(out)@,
            ),
            old(out).wf() ==> out.wf(),
    {
        proof {
            let full = tv_pairs_view(ps@);
            assert(full.skip(i as int)[0] == full[i as int]);
            assert(full.skip(i as int).drop_first() =~= full.skip(i + 1));
        }
        match encode_key(&ps[i].0) {
            Result::Ok(key) => {
                match enc_value(&ps[i].1) {
                    Result::Ok(a) => {
                        if !is_skip(&a) {
                            out.insert(key, a);
                        }
                    },
                    Result::Err(e) => {
                        return Result::Err(e);
                    },
                }
            },
            Result::Err(e) => {
                return Result::Err(e);
            },
        }
    }
    proof {
        assert(tv_pairs_view(ps@).skip(n as int) =~= Seq::empty());
    }
    Result::Ok(())
}

/// The encoder: owns the root map an item is assembled into.
pub struct Serializer {
    /// The top-level map assembled so far.
    pub root: AttrMap,
}

impl Serializer {
    /// An encoder with an empty root map.
    pub fn new() -> (r: Serializer)
        ensures
            r.root@ =~= Seq::<(Seq<char>, AttrV)>::empty(),
            r.root.wf(),
    {
        Serializer { root: AttrMap::new() }
    }

    /// Encodes `v` as a whole item into the root map, which must still be
    /// empty.  Only aggregates are accepted; anything else is rejected with
    /// `MissingAggregateRoot` and leaves the root map empty.
    pub fn serialize_item(&mut self, v: &TypedValue) -> (r: Result<(), Error>)
        requires
            old(self).root@ == Seq::<(Seq<char>, AttrV)>::empty(),
            old(self).root.wf(),
        ensures
            match r {
                Result::Ok(_) => enc_root(v@) == Result::<
                    Seq<(Seq<char>, AttrV)>,
                    ErrorKind,
                >::Ok(final(self).root@),
                Result::Err(e) => enc_root(v@) == Result::<
                    Seq<(Seq<char>, AttrV)>,
                    ErrorKind,
                >::Err(e.kind),
            },
            final(self).root.wf(),
    {
        match v {
            TypedValue::Tuple(l) => {
                match enc_tuple_into(l, &mut self.root) {
                    Result::Ok(_) => Result::Ok(()),
                    Result::Err(e) => Result::Err(e),
                }
            },
            TypedValue::Struct(f) => {
                match enc_fields_into(f, &mut self.root) {
                    Result::Ok(_) => Result::Ok(()),
                    Result::Err(e) => Result::Err(e),
                }
            },
            TypedValue::MapVal(p) => {
                match enc_pairs_into(p, &mut self.root) {
                    Result::Ok(_) => Result::Ok(()),
                    Result::Err(e) => Result::Err(e),
                }
            },
            TypedValue::EnumUnit(n) => {
                self.root = enum_map(n, Option::None);
                Result::Ok(())
            },
            TypedValue::EnumNewtype(n, b) => {
                match enc_value(&**b) {
                    Result::Ok(a) => {
                        let values = newtype_map(a);
                        self.root = enum_map(n, Option::Some(values));
                        Result::Ok(())
                    },
                    Result::Err(e) => Result::Err(e),
                }
            },
            TypedValue::EnumTuple(n, l) => {
                let mut values = AttrMap::new();
                match enc_tuple_into(l, &mut values) {
                    Result::Ok(_) => {
                        self.root = enum_map(n, Option::Some(values));
                        Result::Ok(())
                    },
                    Result::Err(e) => Result::Err(e),
                }
            },
            TypedValue::EnumStruct(n, f) => {
                let mut values = AttrMap::new();
                match enc_fields_into(f, &mut values) {
                    Result::Ok(_) => {
                        self.root = enum_map(n, Option::Some(values));
                        Result::Ok(())
                    },
                    Result::Err(e) => Result::Err(e),
                }
            },
            _ => Result::Err(Error::at_root(ErrorKind::MissingAggregateRoot)),
        }
    }
}

/// Encodes `value` as a whole item: a map from top-level keys to attribute
/// values.  Succeeds exactly when the root is an aggregate and every piece
/// of it encodes; the produced map's keys are unique.
pub fn to_hashmap(value: &TypedValue) -> (r: Result<AttrMap, Error>)
    ensures
        match r {
            Result::Ok(m) => enc_root(value@) == Result::<
                Seq<(Seq<char>, AttrV)>,
                ErrorKind,
            >::Ok(m@) && m.wf(),
            Result::Err(e) => enc_root(value@) == Result::<
                Seq<(Seq<char>, AttrV)>,
                ErrorKind,
            >::Err(e.kind),
        },
{
    let mut ser = Serializer::new();
    match ser.serialize_item(value) {
        Result::Ok(_) => Result::Ok(ser.root),
        Result::Err(e) => Result::Err(e),
    }
}

} // verus!
