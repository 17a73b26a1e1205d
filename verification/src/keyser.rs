//! The restricted scalar-to-string encoder used for producing map keys.
//! Scalars (booleans, integers, floats, characters, strings) become their
//! plain string form; every other shape is rejected, since the wire format
//! only admits string keys.

use vstd::prelude::*;
use crate::error::{Error, ErrorKind};
use crate::num::{dec_digits, dec_str_int, format_i64, format_u64};
use crate::typed::{tv_view, TypedV, TypedValue};

verus! {

/// The string form of a boolean.
pub open spec fn bool_str(b: bool) -> Seq<char> {
    if b {
        "true"@
    } else {
        "false"@
    }
}

/// The key string for a typed value, or the kind of error with which it is
/// rejected: byte strings are not representable as keys, and neither is any
/// composite (aggregate, optional, or unit) value.
pub open spec fn key_string(v: TypedV) -> Result<Seq<char>, ErrorKind> {
    match v {
        TypedV::Bool(b) => Result::Ok(bool_str(b)),
        TypedV::I8(i) => Result::Ok(dec_str_int(i as int)),
        TypedV::I16(i) => Result::Ok(dec_str_int(i as int)),
        TypedV::I32(i) => Result::Ok(dec_str_int(i as int)),
        TypedV::I64(i) => Result::Ok(dec_str_int(i as int)),
        TypedV::U8(u) => Result::Ok(dec_digits(u as nat)),
        TypedV::U16(u) => Result::Ok(dec_digits(u as nat)),
        TypedV::U32(u) => Result::Ok(dec_digits(u as nat)),
        TypedV::U64(u) => Result::Ok(dec_digits(u as nat)),
        TypedV::Float(s) => Result::Ok(s),
        TypedV::Char(c) => Result::Ok(seq![c]),
        TypedV::Str(s) => Result::Ok(s),
        TypedV::Bytes(_) => Result::Err(ErrorKind::UnsupportedShape),
        _ => Result::Err(ErrorKind::UnsupportedKeyType),
    }
}

/// Relies on `char::to_string` of std: the returned string holds exactly the
/// one character it was called on.
#[verifier::external_body]
pub(crate) fn char_to_string(c: char) -> (r: String)
    ensures
        r@ =~= seq![c],
{
    c.to_string()
}

/// The restricted serializer that turns one scalar into a map key.
pub struct SimpleKeySerializer {
    /// The key produced so far, if a scalar has been serialized.
    pub result: Option<String>,
}

impl SimpleKeySerializer {
    /// A serializer with no result yet.
    pub fn new() -> (r: SimpleKeySerializer)
        ensures
            r.result is None,
    {
        SimpleKeySerializer { result: Option::None }
    }

    /// The serialized key.  May only be taken once a scalar has been
    /// accepted.
    pub fn get_result(self) -> (r: String)
        requires
            self.result is Some,
        ensures
            r@ == self.result.unwrap()@,
    {
        match self.result {
            Option::Some(s) => s,
            Option::None => String::new(),
        }
    }

    /// Accepts a boolean key.
    pub fn serialize_bool(&mut self, value: bool)
        ensures
            final(self).result matches Some(s) && s@ == bool_str(value),
    {
        let s = if value {
            String::from_str("true")
        } else {
            String::from_str("false")
        };
        self.result = Option::Some(s);
    }

    /// Accepts a signed integer key of any width.
    pub fn serialize_i64(&mut self, value: i64)
        ensures
            final(self).result matches Some(s) && s@ == dec_str_int(value as int),
    {
        self.result = Option::Some(format_i64(value));
    }

    /// Accepts an unsigned integer key of any width.
    pub fn serialize_u64(&mut self, value: u64)
        ensures
            final(self).result matches Some(s) && s@ == dec_digits(value as nat),
    {
        self.result = Option::Some(format_u64(value));
    }

    /// Accepts a floating-point key, already in its base-10 string form.
    pub fn serialize_float(&mut self, value: &String)
        ensures
            final(self).result matches Some(s) && s@ == value@,
    {
        self.result = Option::Some(value.clone());
    }

    /// Accepts a character key.
    pub fn serialize_char(&mut self, value: char)
        ensures
            final(self).result matches Some(s) && s@ == seq![value],
    {
        self.result = Option::Some(char_to_string(value));
    }

    /// Accepts a string key.
    pub fn serialize_str(&mut self, value: &String)
        ensures
            final(self).result matches Some(s) && s@ == value@,
    {
        self.result = Option::Some(value.clone());
    }

    /// Rejects a byte-string key: not representable in the wire format.
    pub fn serialize_bytes(&mut self) -> (r: Result<(), Error>)
        ensures
            r matches Err(e) && e.kind == ErrorKind::UnsupportedShape,
            *final(self) == *old(self),
    {
        Result::Err(Error::at_root(ErrorKind::UnsupportedShape))
    }

    /// Rejects a composite (aggregate, optional, or unit) key.
    pub fn serialize_composite(&mut self) -> (r: Result<(), Error>)
        ensures
            r matches Err(e) && e.kind == ErrorKind::UnsupportedKeyType,
            *final(self) == *old(self),
    {
        Result::Err(Error::at_root(ErrorKind::UnsupportedKeyType))
    }
}

/// The key string for `v`: scalars serialize to their string form, anything
/// else is rejected with the kind `key_string` gives.
pub fn encode_key(v: &TypedValue) -> (r: Result<String, Error>)
    ensures
        match r {
            Result::Ok(s) => key_string(v@) == Result::<Seq<char>, ErrorKind>::Ok(s@),
            Result::Err(e) => key_string(v@) == Result::<Seq<char>, ErrorKind>::Err(e.kind),
        },
{
    let mut ks = SimpleKeySerializer::new();
    match v {
        TypedValue::Bool(b) => {
            ks.serialize_bool(*b);
            Result::Ok(ks.get_result())
        },
        TypedValue::I8(i) => {
            ks.serialize_i64(*i as i64);
            Result::Ok(ks.get_result())
        },
        TypedValue::I16(i) => {
            ks.serialize_i64(*i as i64);
            Result::Ok(ks.get_result())
        },
        TypedValue::I32(i) => {
            ks.serialize_i64(*i as i64);
            Result::Ok(ks.get_result())
        },
        TypedValue::I64(i) => {
            ks.serialize_i64(*i);
            Result::Ok(ks.get_result())
        },
        TypedValue::U8(u) => {
            ks.serialize_u64(*u as u64);
            Result::Ok(ks.get_result())
        },
        TypedValue::U16(u) => {
            ks.serialize_u64(*u as u64);
            Result::Ok(ks.get_result())
        },
        TypedValue::U32(u) => {
            ks.serialize_u64(*u as u64);
            Result::Ok(ks.get_result())
        },
        TypedValue::U64(u) => {
            ks.serialize_u64(*u);
            Result::Ok(ks.get_result())
        },
        TypedValue::Float(s) => {
            ks.serialize_float(s);
            Result::Ok(ks.get_result())
        },
        TypedValue::Char(c) => {
            ks.serialize_char(*c);
            Result::Ok(ks.get_result())
        },
        TypedValue::Str(s) => {
            ks.serialize_str(s);
            Result::Ok(ks.get_result())
        },
        TypedValue::Bytes(_) => {
            match ks.serialize_bytes() {
                Result::Ok(_) => Result::Ok(ks.get_result()),
                Result::Err(e) => Result::Err(e),
            }
        },
        _ => {
            match ks.serialize_composite() {
                Result::Ok(_) => Result::Ok(ks.get_result()),
                Result::Err(e) => Result::Err(e),
            }
        },
    }
}

} // verus!
