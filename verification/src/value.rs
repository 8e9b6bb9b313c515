//! The tagged value protocol: the engine's tagged-union value representation,
//! total allocation of host scalars into it, and partial, tag-checked
//! extraction back out of it.

use crate::Environment;
use vstd::prelude::*;

verus! {

/// Native engine data types: the tags of the tagged value union.
#[derive(Clone, Copy, Debug, PartialEq, Eq, Structural)]
pub enum Type {
    Float,
    Integer,
    Symbol,
    String,
    Multifield,
    ExternalAddress,
    FactAddress,
    InstanceAddress,
    InstanceName,
    Void,
    Bitmap,
}

/// Mathematical model of a tagged engine value. Exactly one variant is active
/// at a time; the variant is the single authoritative tag.
///
/// The engine's float is a 64-bit IEEE 754 value; this layer carries it as
/// its raw bit pattern and never computes with it.
#[verifier::ext_equal]
pub enum ValueModel {
    Float(u64),
    Integer(i64),
    Symbol(Seq<char>),
    Str(Seq<char>),
    Multifield,
    ExternalAddress,
    FactRef(u64),
    InstanceAddress,
    InstanceName,
    Void,
    Bitmap,
}

/// The tag of a value model.
pub open spec fn tag_of(m: ValueModel) -> Type {
    match m {
        ValueModel::Float(_) => Type::Float,
        ValueModel::Integer(_) => Type::Integer,
        ValueModel::Symbol(_) => Type::Symbol,
        ValueModel::Str(_) => Type::String,
        ValueModel::Multifield => Type::Multifield,
        ValueModel::ExternalAddress => Type::ExternalAddress,
        ValueModel::FactRef(_) => Type::FactAddress,
        ValueModel::InstanceAddress => Type::InstanceAddress,
        ValueModel::InstanceName => Type::InstanceName,
        ValueModel::Void => Type::Void,
        ValueModel::Bitmap => Type::Bitmap,
    }
}

#[derive(Debug, PartialEq, Eq)]
enum ValueRepr {
    Float(u64),
    Integer(i64),
    Symbol(String),
    Str(String),
    Multifield,
    ExternalAddress,
    FactRef(u64),
    InstanceAddress,
    InstanceName,
    Void,
    Bitmap,
}

/// An engine value: a closed tagged union.
#[derive(Debug, PartialEq, Eq)]
pub struct Value {
    repr: ValueRepr,
}

impl View for Value {
    type V = ValueModel;

    closed spec fn view(&self) -> ValueModel {
        match self.repr {
            ValueRepr::Float(b) => ValueModel::Float(b),
            ValueRepr::Integer(i) => ValueModel::Integer(i),
            ValueRepr::Symbol(s) => ValueModel::Symbol(s@),
            ValueRepr::Str(s) => ValueModel::Str(s@),
            ValueRepr::Multifield => ValueModel::Multifield,
            ValueRepr::ExternalAddress => ValueModel::ExternalAddress,
            ValueRepr::FactRef(i) => ValueModel::FactRef(i),
            ValueRepr::InstanceAddress => ValueModel::InstanceAddress,
            ValueRepr::InstanceName => ValueModel::InstanceName,
            ValueRepr::Void => ValueModel::Void,
            ValueRepr::Bitmap => ValueModel::Bitmap,
        }
    }
}

impl Value {
    /// The value's type, read from the authoritative tag.
    pub fn type_of(&self) -> (t: Type)
        ensures
            t == tag_of(self@),
    {
        match &self.repr {
            ValueRepr::Float(_) => Type::Float,
            ValueRepr::Integer(_) => Type::Integer,
            ValueRepr::Symbol(_) => Type::Symbol,
            ValueRepr::Str(_) => Type::String,
            ValueRepr::Multifield => Type::Multifield,
            ValueRepr::ExternalAddress => Type::ExternalAddress,
            ValueRepr::FactRef(_) => Type::FactAddress,
            ValueRepr::InstanceAddress => Type::InstanceAddress,
            ValueRepr::InstanceName => Type::InstanceName,
            ValueRepr::Void => Type::Void,
            ValueRepr::Bitmap => Type::Bitmap,
        }
    }

    pub(crate) fn of_integer(i: i64) -> (r: Value)
        ensures
            r@ == ValueModel::Integer(i),
    {
        Value { repr: ValueRepr::Integer(i) }
    }

    pub(crate) fn of_float_bits(bits: u64) -> (r: Value)
        ensures
            r@ == ValueModel::Float(bits),
    {
        Value { repr: ValueRepr::Float(bits) }
    }

    pub(crate) fn of_symbol(s: String) -> (r: Value)
        ensures
            r@ == ValueModel::Symbol(s@),
    {
        Value { repr: ValueRepr::Symbol(s) }
    }

    pub(crate) fn of_string(s: String) -> (r: Value)
        ensures
            r@ == ValueModel::Str(s@),
    {
        Value { repr: ValueRepr::Str(s) }
    }

    pub(crate) fn of_fact_index(index: u64) -> (r: Value)
        ensures
            r@ == ValueModel::FactRef(index),
    {
        Value { repr: ValueRepr::FactRef(index) }
    }
}

impl Clone for Value {
    fn clone(&self) -> (r: Self)
        ensures
            r@ == self@,
    {
        match &self.repr {
            ValueRepr::Float(b) => Value { repr: ValueRepr::Float(*b) },
            ValueRepr::Integer(i) => Value { repr: ValueRepr::Integer(*i) },
            ValueRepr::Symbol(s) => Value { repr: ValueRepr::Symbol(s.clone()) },
            ValueRepr::Str(s) => Value { repr: ValueRepr::Str(s.clone()) },
            ValueRepr::Multifield => Value { repr: ValueRepr::Multifield },
            ValueRepr::ExternalAddress => Value { repr: ValueRepr::ExternalAddress },
            ValueRepr::FactRef(i) => Value { repr: ValueRepr::FactRef(*i) },
            ValueRepr::InstanceAddress => Value { repr: ValueRepr::InstanceAddress },
            ValueRepr::InstanceName => Value { repr: ValueRepr::InstanceName },
            ValueRepr::Void => Value { repr: ValueRepr::Void },
            ValueRepr::Bitmap => Value { repr: ValueRepr::Bitmap },
        }
    }
}

/// Compares two string slices by their character sequences.
pub(crate) fn str_eq(a: &str, b: &str) -> (r: bool)
    ensures
        r == (a@ == b@),
{
    let sa = a.to_owned();
    let sb = b.to_owned();
    sa == sb
}

/// An explicit symbol: text carried under the engine's symbol tag rather than
/// its string tag.
#[derive(Debug, PartialEq, Eq)]
pub struct Symbol(pub String);

/// The engine's 64-bit float, carried as its raw IEEE 754 bit pattern. This
/// layer moves floats across the boundary unchanged and never computes with
/// them; hosts convert between a native float and its bits at the edge.
#[derive(Clone, Copy, Debug, PartialEq, Eq, Structural)]
pub struct FloatBits {
    pub bits: u64,
}

impl FloatBits {
    pub fn new(bits: u64) -> (r: FloatBits)
        ensures
            r.bits == bits,
    {
        FloatBits { bits }
    }
}

/// Typed extraction out of a [`Value`], parametrized over the resulting host
/// type. Extraction is partial: it yields a value exactly when the active tag
/// is compatible with `Self`; a mismatch is an expected, recoverable absence.
pub trait ValueAccess: Sized {
    /// Whether the tagged value carries a payload this host type accepts.
    spec fn accepts(m: ValueModel) -> bool;

    /// Returns `Some(payload)` if the active tag is compatible, otherwise
    /// `None`.
    fn value(val: &Value) -> (r: Option<Self>)
        ensures
            r is Some <==> Self::accepts(val@),
    ;
}

/// Total allocation of a host value into the engine's tagged representation.
///
/// Allocation never fails: construction is well-typed by construction, while
/// inspection ([`ValueAccess`]) is the defensive, partial side.
pub trait EnvAllocatable {
    /// The tagged value this host value allocates to.
    spec fn foreign_model(&self) -> ValueModel;

    fn allocate(&self, env: &Environment) -> (r: Value)
        ensures
            r@ == self.foreign_model(),
    ;
}

impl ValueAccess for i64 {
    open spec fn accepts(m: ValueModel) -> bool {
        m is Integer
    }

    fn value(val: &Value) -> (r: Option<i64>)
        ensures
            val@ matches ValueModel::Integer(i) ==> r == Some(i),
    {
        match &val.repr {
            ValueRepr::Integer(i) => Some(*i),
            _ => None,
        }
    }
}

impl ValueAccess for i32 {
    open spec fn accepts(m: ValueModel) -> bool {
        m is Integer
    }

    fn value(val: &Value) -> (r: Option<i32>)
        ensures
            val@ matches ValueModel::Integer(i) ==> r == Some(i as i32),
    {
        match &val.repr {
            ValueRepr::Integer(i) => Some(#[verifier::truncate] (*i as i32)),
            _ => None,
        }
    }
}

impl ValueAccess for i16 {
    open spec fn accepts(m: ValueModel) -> bool {
        m is Integer
    }

    fn value(val: &Value) -> (r: Option<i16>)
        ensures
            val@ matches ValueModel::Integer(i) ==> r == Some(i as i16),
    {
        match &val.repr {
            ValueRepr::Integer(i) => Some(#[verifier::truncate] (*i as i16)),
            _ => None,
        }
    }
}

impl ValueAccess for i8 {
    open spec fn accepts(m: ValueModel) -> bool {
        m is Integer
    }

    fn value(val: &Value) -> (r: Option<i8>)
        ensures
            val@ matches ValueModel::Integer(i) ==> r == Some(i as i8),
    {
        match &val.repr {
            ValueRepr::Integer(i) => Some(#[verifier::truncate] (*i as i8)),
            _ => None,
        }
    }
}

impl ValueAccess for u64 {
    open spec fn accepts(m: ValueModel) -> bool {
        m is Integer
    }

    fn value(val: &Value) -> (r: Option<u64>)
        ensures
            val@ matches ValueModel::Integer(i) ==> r == Some(i as u64),
    {
        match &val.repr {
            ValueRepr::Integer(i) => Some(#[verifier::truncate] (*i as u64)),
            _ => None,
        }
    }
}

impl ValueAccess for u32 {
    open spec fn accepts(m: ValueModel) -> bool {
        m is Integer
    }

    fn value(val: &Value) -> (r: Option<u32>)
        ensures
            val@ matches ValueModel::Integer(i) ==> r == Some(i as u32),
    {
        match &val.repr {
            ValueRepr::Integer(i) => Some(#[verifier::truncate] (*i as u32)),
            _ => None,
        }
    }
}

impl ValueAccess for u16 {
    open spec fn accepts(m: ValueModel) -> bool {
        m is Integer
    }

    fn value(val: &Value) -> (r: Option<u16>)
        ensures
            val@ matches ValueModel::Integer(i) ==> r == Some(i as u16),
    {
        match &val.repr {
            ValueRepr::Integer(i) => Some(#[verifier::truncate] (*i as u16)),
            _ => None,
        }
    }
}

impl ValueAccess for u8 {
    open spec fn accepts(m: ValueModel) -> bool {
        m is Integer
    }

    fn value(val: &Value) -> (r: Option<u8>)
        ensures
            val@ matches ValueModel::Integer(i) ==> r == Some(i as u8),
    {
        match &val.repr {
            ValueRepr::Integer(i) => Some(#[verifier::truncate] (*i as u8)),
            _ => None,
        }
    }
}

impl ValueAccess for FloatBits {
    open spec fn accepts(m: ValueModel) -> bool {
        m is Float
    }

    fn value(val: &Value) -> (r: Option<FloatBits>)
        ensures
            val@ matches ValueModel::Float(b) ==> r == (Some(FloatBits { bits: b })),
    {
        match &val.repr {
            ValueRepr::Float(b) => Some(FloatBits { bits: *b }),
            _ => None,
        }
    }
}

impl ValueAccess for String {
    open spec fn accepts(m: ValueModel) -> bool {
        m is Str
    }

    fn value(val: &Value) -> (r: Option<String>)
        ensures
            r matches Some(s) ==> val@ == ValueModel::Str(s@),
    {
        match &val.repr {
            ValueRepr::Str(s) => Some(s.clone()),
            _ => None,
        }
    }
}

impl ValueAccess for Symbol {
    open spec fn accepts(m: ValueModel) -> bool {
        m is Symbol
    }

    fn value(val: &Value) -> (r: Option<Symbol>)
        ensures
            r matches Some(s) ==> val@ == ValueModel::Symbol(s.0@),
    {
        match &val.repr {
            ValueRepr::Symbol(s) => Some(Symbol(s.clone())),
            _ => None,
        }
    }
}

impl ValueAccess for bool {
    open spec fn accepts(m: ValueModel) -> bool {
        m matches ValueModel::Symbol(s) && (s == "TRUE"@ || s == "FALSE"@)
    }

    fn value(val: &Value) -> (r: Option<bool>)
        ensures
            val@ matches ValueModel::Symbol(s) && s == "TRUE"@ ==> r == Some(true),
            val@ matches ValueModel::Symbol(s) && s == "FALSE"@ ==> r == Some(false),
    {
        proof {
            reveal_strlit("TRUE");
            reveal_strlit("FALSE");
            assert("TRUE"@.len() != "FALSE"@.len());
        }
        match &val.repr {
            ValueRepr::Symbol(s) => {
                if str_eq(s.as_str(), "TRUE") {
                    Some(true)
                } else if str_eq(s.as_str(), "FALSE") {
                    Some(false)
                } else {
                    None
                }
            },
            _ => None,
        }
    }
}

impl EnvAllocatable for Value {
    open spec fn foreign_model(&self) -> ValueModel {
        self@
    }

    fn allocate(&self, _env: &Environment) -> (r: Value)
    {
        self.clone()
    }
}

impl EnvAllocatable for i64 {
    open spec fn foreign_model(&self) -> ValueModel {
        ValueModel::Integer(*self)
    }

    fn allocate(&self, _env: &Environment) -> (r: Value)
    {
        Value::of_integer(*self)
    }
}

impl EnvAllocatable for i32 {
    open spec fn foreign_model(&self) -> ValueModel {
        ValueModel::Integer(*self as i64)
    }

    fn allocate(&self, _env: &Environment) -> (r: Value)
    {
        Value::of_integer(*self as i64)
    }
}

impl EnvAllocatable for i16 {
    open spec fn foreign_model(&self) -> ValueModel {
        ValueModel::Integer(*self as i64)
    }

    fn allocate(&self, _env: &Environment) -> (r: Value)
    {
        Value::of_integer(*self as i64)
    }
}

impl EnvAllocatable for i8 {
    open spec fn foreign_model(&self) -> ValueModel {
        ValueModel::Integer(*self as i64)
    }

    fn allocate(&self, _env: &Environment) -> (r: Value)
    {
        Value::of_integer(*self as i64)
    }
}

impl EnvAllocatable for u64 {
    open spec fn foreign_model(&self) -> ValueModel {
        ValueModel::Integer(*self as i64)
    }

    fn allocate(&self, _env: &Environment) -> (r: Value)
    {
        Value::of_integer(#[verifier::truncate] (*self as i64))
    }
}

impl EnvAllocatable for u32 {
    open spec fn foreign_model(&self) -> ValueModel {
        ValueModel::Integer(*self as i64)
    }

    fn allocate(&self, _env: &Environment) -> (r: Value)
    {
        Value::of_integer(*self as i64)
    }
}

impl EnvAllocatable for u16 {
    open spec fn foreign_model(&self) -> ValueModel {
        ValueModel::Integer(*self as i64)
    }

    fn allocate(&self, _env: &Environment) -> (r: Value)
    {
        Value::of_integer(*self as i64)
    }
}

impl EnvAllocatable for u8 {
    open spec fn foreign_model(&self) -> ValueModel {
        ValueModel::Integer(*self as i64)
    }

    fn allocate(&self, _env: &Environment) -> (r: Value)
    {
        Value::of_integer(*self as i64)
    }
}

impl EnvAllocatable for FloatBits {
    open spec fn foreign_model(&self) -> ValueModel {
        ValueModel::Float(self.bits)
    }

    fn allocate(&self, _env: &Environment) -> (r: Value)
    {
        Value::of_float_bits(self.bits)
    }
}

impl EnvAllocatable for String {
    open spec fn foreign_model(&self) -> ValueModel {
        ValueModel::Str(self@)
    }

    fn allocate(&self, _env: &Environment) -> (r: Value)
    {
        Value::of_string(self.clone())
    }
}

impl EnvAllocatable for &str {
    open spec fn foreign_model(&self) -> ValueModel {
        ValueModel::Str((*self)@)
    }

    fn allocate(&self, _env: &Environment) -> (r: Value)
    {
        Value::of_string((*self).to_owned())
    }
}

impl EnvAllocatable for Symbol {
    open spec fn foreign_model(&self) -> ValueModel {
        ValueModel::Symbol(self.0@)
    }

    fn allocate(&self, _env: &Environment) -> (r: Value)
    {
        Value::of_symbol(self.0.clone())
    }
}

impl EnvAllocatable for bool {
    open spec fn foreign_model(&self) -> ValueModel {
        if *self {
            ValueModel::Symbol("TRUE"@)
        } else {
            ValueModel::Symbol("FALSE"@)
        }
    }

    fn allocate(&self, _env: &Environment) -> (r: Value)
    {
        if *self {
            Value::of_symbol("TRUE".to_owned())
        } else {
            Value::of_symbol("FALSE".to_owned())
        }
    }
}

/// Round trip through the tagged value protocol, signed integers: allocation
/// carries the exact payload under the integer tag, extraction accepts that
/// tag, and extraction at the allocated width returns the value itself.
pub proof fn lemma_roundtrip_signed(a: i8, b: i16, c: i32, d: i64)
    ensures
        a.foreign_model() == ValueModel::Integer(a as i64) && (a as i64) as i8 == a
            && <i8 as ValueAccess>::accepts(a.foreign_model()),
        b.foreign_model() == ValueModel::Integer(b as i64) && (b as i64) as i16 == b
            && <i16 as ValueAccess>::accepts(b.foreign_model()),
        c.foreign_model() == ValueModel::Integer(c as i64) && (c as i64) as i32 == c
            && <i32 as ValueAccess>::accepts(c.foreign_model()),
        d.foreign_model() == ValueModel::Integer(d) && <i64 as ValueAccess>::accepts(
            d.foreign_model(),
        ),
{
}

/// Round trip through the tagged value protocol, unsigned integers: the
/// payload is carried as the engine's signed 64-bit integer, and extraction
/// at the allocated width returns the value itself, also where the 64-bit
/// payload wrapped around.
pub proof fn lemma_roundtrip_unsigned(a: u8, b: u16, c: u32, d: u64)
    ensures
        a.foreign_model() == ValueModel::Integer(a as i64) && (a as i64) as u8 == a
            && <u8 as ValueAccess>::accepts(a.foreign_model()),
        b.foreign_model() == ValueModel::Integer(b as i64) && (b as i64) as u16 == b
            && <u16 as ValueAccess>::accepts(b.foreign_model()),
        c.foreign_model() == ValueModel::Integer(c as i64) && (c as i64) as u32 == c
            && <u32 as ValueAccess>::accepts(c.foreign_model()),
        d.foreign_model() == ValueModel::Integer(d as i64) && (d as i64) as u64 == d
            && <u64 as ValueAccess>::accepts(d.foreign_model()),
{
    assert((d as i64) as u64 == d) by (bit_vector);
}

/// Round trip through the tagged value protocol, floats, text, symbols and
/// booleans: allocation carries the exact payload under the family's tag,
/// and extraction at the same host type accepts it and returns it.
pub proof fn lemma_roundtrip_rest(f: FloatBits, s: String, y: Symbol, b: bool)
    ensures
        f.foreign_model() == ValueModel::Float(f.bits) && <FloatBits as ValueAccess>::accepts(
            f.foreign_model(),
        ),
        s.foreign_model() == ValueModel::Str(s@) && <String as ValueAccess>::accepts(
            s.foreign_model(),
        ),
        y.foreign_model() == ValueModel::Symbol(y.0@) && <Symbol as ValueAccess>::accepts(
            y.foreign_model(),
        ),
        b.foreign_model() == ValueModel::Symbol(
            if b {
                "TRUE"@
            } else {
                "FALSE"@
            },
        ) && <bool as ValueAccess>::accepts(b.foreign_model()),
{
}

/// Tag discrimination: extraction accepts a value only under its own tag, so
/// extracting at a host type of any other tag family yields nothing. Within
/// one tag family discrimination does not apply: every integer width shares
/// the integer tag, and a boolean is carried as a symbol, where exactly the
/// two canonical lexemes read back as a boolean.
pub proof fn lemma_tag_discrimination(m: ValueModel)
    ensures
        <i8 as ValueAccess>::accepts(m) <==> tag_of(m) == Type::Integer,
        <i16 as ValueAccess>::accepts(m) <==> tag_of(m) == Type::Integer,
        <i32 as ValueAccess>::accepts(m) <==> tag_of(m) == Type::Integer,
        <i64 as ValueAccess>::accepts(m) <==> tag_of(m) == Type::Integer,
        <u8 as ValueAccess>::accepts(m) <==> tag_of(m) == Type::Integer,
        <u16 as ValueAccess>::accepts(m) <==> tag_of(m) == Type::Integer,
        <u32 as ValueAccess>::accepts(m) <==> tag_of(m) == Type::Integer,
        <u64 as ValueAccess>::accepts(m) <==> tag_of(m) == Type::Integer,
        <FloatBits as ValueAccess>::accepts(m) <==> tag_of(m) == Type::Float,
        <String as ValueAccess>::accepts(m) <==> tag_of(m) == Type::String,
        <Symbol as ValueAccess>::accepts(m) <==> tag_of(m) == Type::Symbol,
        <bool as ValueAccess>::accepts(m) ==> tag_of(m) == Type::Symbol,
        <bool as ValueAccess>::accepts(m) <==> (m == ValueModel::Symbol("TRUE"@) || m
            == ValueModel::Symbol("FALSE"@)),
{
}

} // verus!
