//! The `Value` enum, a loosely typed way of representing any valid HCL value.
use vstd::prelude::*;
use crate::number::{Number, NumberV};

verus! {

/// Represents any valid HCL value.
///
/// An object is held as its key-value pairs in insertion order; a well-formed object has no key
/// twice (see [`ValueV::wf`]).
#[derive(Debug, PartialEq)]
pub enum Value {
    /// Represents a HCL null value.
    Null,
    /// Represents a HCL boolean.
    Bool(bool),
    /// Represents a HCL number, either integer or float.
    Number(Number),
    /// Represents a HCL string.
    String(String),
    /// Represents a HCL array.
    Array(Vec<Value>),
    /// Represents a HCL object.
    Object(Vec<(String, Value)>),
}

/// The mathematical content of a [`Value`].
pub enum ValueV {
    Null,
    Bool(bool),
    Number(NumberV),
    String(Seq<char>),
    Array(Seq<ValueV>),
    Object(Seq<(Seq<char>, ValueV)>),
}

/// The content of a value.
pub open spec fn value_view(v: Value) -> ValueV
    decreases v,
{
    match v {
        Value::Null => ValueV::Null,
        Value::Bool(b) => ValueV::Bool(b),
        Value::Number(n) => ValueV::Number(n@),
        Value::String(s) => ValueV::String(s@),
        Value::Array(a) => ValueV::Array(values_view(a@)),
        Value::Object(o) => ValueV::Object(entries_view(o@)),
    }
}

/// The contents of a sequence of values.
pub open spec fn values_view(s: Seq<Value>) -> Seq<ValueV>
    decreases s,
{
    Seq::new(
        s.len(),
        |i: int|
            if 0 <= i < s.len() {
                value_view(s[i])
            } else {
                ValueV::Null
            },
    )
}

/// The contents of a sequence of object entries.
pub open spec fn entries_view(s: Seq<(String, Value)>) -> Seq<(Seq<char>, ValueV)>
    decreases s,
{
    Seq::new(
        s.len(),
        |i: int|
            if 0 <= i < s.len() {
                (s[i].0@, value_view(s[i].1))
            } else {
                (Seq::empty(), ValueV::Null)
            },
    )
}

impl View for Value {
    type V = ValueV;

    open spec fn view(&self) -> ValueV {
        value_view(*self)
    }
}

/// Whether no key occurs twice among the entries.
pub open spec fn keys_unique(s: Seq<(Seq<char>, ValueV)>) -> bool {
    forall|i: int, j: int| 0 <= i < j < s.len() ==> s[i].0 != s[j].0
}

impl ValueV {
    /// A value is well formed when its numbers are well formed and no object holds a key twice,
    /// at every depth.
    pub open spec fn wf(self) -> bool
        decreases self,
    {
        match self {
            ValueV::Number(n) => n.wf(),
            ValueV::Array(a) => forall|i: int| 0 <= i < a.len() ==> (#[trigger] a[i]).wf(),
            ValueV::Object(o) => keys_unique(o) && forall|i: int|
                0 <= i < o.len() ==> (#[trigger] o[i]).1.wf(),
            _ => true,
        }
    }
}

impl Default for Value {
    /// The default value is `Null`.
    fn default() -> (r: Value)
        ensures
            r == Value::Null,
    {
        Value::Null
    }
}

impl Value {
    /// If the `Value` is an Array, returns the associated vector. Returns None otherwise.
    pub fn as_array(&self) -> (r: Option<&Vec<Value>>)
        ensures
            match self {
                Value::Array(a) => r == Some(a),
                _ => r is None,
            },
    {
        match self {
            Value::Array(array) => Some(array),
            _ => None,
        }
    }

    /// If the `Value` is an Array, returns the associated mutable vector. Returns None
    /// otherwise.
    pub fn as_array_mut(&mut self) -> (r: Option<&mut Vec<Value>>)
        ensures
            match *old(self) {
                Value::Array(a) => r matches Some(v) && *v == a && *final(self) == Value::Array(
                    *final(v),
                ),
                _ => r is None && *final(self) == *old(self),
            },
    {
        match self {
            Value::Array(array) => Some(array),
            _ => None,
        }
    }

    /// If the `Value` is a Boolean, returns it. Returns None otherwise.
    pub fn as_bool(&self) -> (r: Option<bool>)
        ensures
            r == (match self@ {
                ValueV::Bool(b) => Some(b),
                _ => None,
            }),
    {
        match self {
            Value::Bool(b) => Some(*b),
            _ => None,
        }
    }

    /// If the `Value` is a Number, represent it as i64 if possible. Returns None otherwise.
    pub fn as_i64(&self) -> (r: Option<i64>)
        ensures
            r == (match self@ {
                ValueV::Number(n) => match n.int_value() {
                    Some(v) => if i64::MIN <= v <= i64::MAX {
                        Some(v as i64)
                    } else {
                        None
                    },
                    None => None,
                },
                _ => None,
            }),
    {
        match self {
            Value::Number(n) => n.as_i64(),
            _ => None,
        }
    }

    /// If the `Value` is a Null, returns (). Returns None otherwise.
    pub fn as_null(&self) -> (r: Option<()>)
        ensures
            r is Some <==> self@ is Null,
    {
        match self {
            Value::Null => Some(()),
            _ => None,
        }
    }

    /// If the `Value` is a Number, returns the associated Number. Returns None otherwise.
    pub fn as_number(&self) -> (r: Option<&Number>)
        ensures
            match self {
                Value::Number(n) => r == Some(n),
                _ => r is None,
            },
    {
        match self {
            Value::Number(n) => Some(n),
            _ => None,
        }
    }

    /// If the `Value` is an Object, returns the associated entries. Returns None otherwise.
    pub fn as_object(&self) -> (r: Option<&Vec<(String, Value)>>)
        ensures
            match self {
                Value::Object(o) => r == Some(o),
                _ => r is None,
            },
    {
        match self {
            Value::Object(object) => Some(object),
            _ => None,
        }
    }

    /// If the `Value` is an Object, returns the associated mutable entries. Returns None
    /// otherwise.
    pub fn as_object_mut(&mut self) -> (r: Option<&mut Vec<(String, Value)>>)
        ensures
            match *old(self) {
                Value::Object(o) => r matches Some(v) && *v == o && *final(self)
                    == Value::Object(*final(v)),
                _ => r is None && *final(self) == *old(self),
            },
    {
        match self {
            Value::Object(object) => Some(object),
            _ => None,
        }
    }

    /// If the `Value` is a String, returns the associated str. Returns None otherwise.
    pub fn as_str(&self) -> (r: Option<&str>)
        ensures
            match self@ {
                ValueV::String(s) => r matches Some(t) && t@ == s,
                _ => r is None,
            },
    {
        match self {
            Value::String(s) => Some(s.as_str()),
            _ => None,
        }
    }

    /// If the `Value` is a Number, represent it as u64 if possible. Returns None otherwise.
    pub fn as_u64(&self) -> (r: Option<u64>)
        ensures
            r == (match self@ {
                ValueV::Number(NumberV::PosInt(n)) => Some(n),
                _ => None,
            }),
            self@.wf() ==> r == (match self@ {
                ValueV::Number(n) => match n.int_value() {
                    Some(v) => if 0 <= v <= u64::MAX {
                        Some(v as u64)
                    } else {
                        None
                    },
                    None => None,
                },
                _ => None,
            }),
    {
        match self {
            Value::Number(n) => n.as_u64(),
            _ => None,
        }
    }

    /// Returns true if the `Value` is an Array. Returns false otherwise.
    pub fn is_array(&self) -> (r: bool)
        ensures
            r == (self@ is Array),
    {
        matches!(self, Value::Array(_))
    }

    /// Returns true if the `Value` is a Boolean. Returns false otherwise.
    pub fn is_boolean(&self) -> (r: bool)
        ensures
            r == (self@ is Bool),
    {
        matches!(self, Value::Bool(_))
    }

    /// Returns true if the `Value` is a number that is held as a floating point number.
    pub fn is_f64(&self) -> (r: bool)
        ensures
            r == (self@ matches ValueV::Number(n) && n is Float),
    {
        match self {
            Value::Number(n) => n.is_f64(),
            _ => false,
        }
    }

    /// Returns true if the `Value` is an integer between `i64::MIN` and `i64::MAX`.
    pub fn is_i64(&self) -> (r: bool)
        ensures
            r == (self@ matches ValueV::Number(n) && n.int_value() matches Some(v) && i64::MIN
                <= v <= i64::MAX),
    {
        match self {
            Value::Number(n) => n.is_i64(),
            _ => false,
        }
    }

    /// Returns true if the `Value` is a Number. Returns false otherwise.
    pub fn is_number(&self) -> (r: bool)
        ensures
            r == (self@ is Number),
    {
        matches!(self, Value::Number(_))
    }

    /// Returns true if the `Value` is a Null. Returns false otherwise.
    pub fn is_null(&self) -> (r: bool)
        ensures
            r == (self@ is Null),
    {
        matches!(self, Value::Null)
    }

    /// Returns true if the `Value` is an Object. Returns false otherwise.
    pub fn is_object(&self) -> (r: bool)
        ensures
            r == (self@ is Object),
    {
        matches!(self, Value::Object(_))
    }

    /// Returns true if the `Value` is a String. Returns false otherwise.
    pub fn is_string(&self) -> (r: bool)
        ensures
            r == (self@ is String),
    {
        matches!(self, Value::String(_))
    }

    /// Returns true if the `Value` is an integer between zero and `u64::MAX`.
    pub fn is_u64(&self) -> (r: bool)
        ensures
            r == (self@ matches ValueV::Number(NumberV::PosInt(_))),
            self@.wf() ==> r == (self@ matches ValueV::Number(n) && n.int_value() matches Some(v) && 0 <= v
                <= u64::MAX),
    {
        match self {
            Value::Number(n) => n.is_u64(),
            _ => false,
        }
    }

    /// Takes the value out of the `Value`, leaving a `Null` in its place.
    pub fn take(&mut self) -> (r: Value)
        ensures
            r == *old(self),
            *final(self) == Value::Null,
    {
        let mut v = Value::Null;
        core::mem::swap(self, &mut v);
        v
    }
}

} // verus!
