//! Values stored at the corners of quads.
use vstd::prelude::*;
use crate::strutil::{push_char, string_from_chars, chars_of, string_of, concat, str_eq, decimal, signed_decimal, u64_to_string, i64_to_string};

verus! {

/// A JSON-style number. Floats enter the library only through the
/// application, which hands over their IEEE-754 bit pattern together with
/// their printed form; the library never computes with them.
#[derive(Debug, Clone, PartialEq)]
pub enum Number {
    PosInt(u64),
    NegInt(i64),
    Float { bits: u64, text: String },
}

/// What a number is, for contracts. Two floats are the same number when
/// their bit patterns agree.
pub enum NumberV {
    PosInt(u64),
    NegInt(i64),
    Float(u64),
}

impl View for Number {
    type V = NumberV;

    open spec fn view(&self) -> NumberV {
        match self {
            Number::PosInt(n) => NumberV::PosInt(*n),
            Number::NegInt(n) => NumberV::NegInt(*n),
            Number::Float { bits, .. } => NumberV::Float(*bits),
        }
    }
}

/// The number that an `i64` denotes: non-negative integers are `PosInt`.
pub open spec fn number_of_i64(n: i64) -> NumberV {
    if n < 0 {
        NumberV::NegInt(n)
    } else {
        NumberV::PosInt(n as u64)
    }
}

/// The `i64` a number denotes, when it is an integer that fits.
pub open spec fn number_as_i64(n: NumberV) -> Option<i64> {
    match n {
        NumberV::PosInt(v) => if v <= i64::MAX as u64 { Some(v as i64) } else { None },
        NumberV::NegInt(v) => Some(v),
        NumberV::Float(_) => None,
    }
}

impl Number {
    /// The printed form of a number.
    pub open spec fn spec_text(&self) -> Seq<char> {
        match self {
            Number::PosInt(n) => decimal(*n as nat),
            Number::NegInt(n) => signed_decimal(*n as int),
            Number::Float { text, .. } => text@,
        }
    }

    pub fn from_i64(n: i64) -> (r: Number)
        ensures
            r@ == number_of_i64(n),
    {
        if n < 0 {
            Number::NegInt(n)
        } else {
            Number::PosInt(n as u64)
        }
    }

    pub fn from_u64(n: u64) -> (r: Number)
        ensures
            r@ == NumberV::PosInt(n),
    {
        Number::PosInt(n)
    }

    pub fn as_i64(&self) -> (r: Option<i64>)
        ensures
            r == number_as_i64(self@),
    {
        match self {
            Number::PosInt(v) => if *v <= i64::MAX as u64 { Some(*v as i64) } else { None },
            Number::NegInt(v) => Some(*v),
            Number::Float { .. } => None,
        }
    }

    pub fn as_u64(&self) -> (r: Option<u64>)
        ensures
            r == (match self@ { NumberV::PosInt(v) => Some(v), _ => None::<u64> }),
    {
        match self {
            Number::PosInt(v) => Some(*v),
            _ => None,
        }
    }

    pub fn is_i64(&self) -> (r: bool)
        ensures
            r == (number_as_i64(self@) is Some),
    {
        self.as_i64().is_some()
    }

    pub fn is_u64(&self) -> (r: bool)
        ensures
            r == (self@ is PosInt),
    {
        match self {
            Number::PosInt(_) => true,
            _ => false,
        }
    }

    pub fn is_f64(&self) -> (r: bool)
        ensures
            r == (self@ is Float),
    {
        match self {
            Number::Float { .. } => true,
            _ => false,
        }
    }

    pub fn equals(&self, other: &Number) -> (r: bool)
        ensures
            r == (self@ == other@),
    {
        match (self, other) {
            (Number::PosInt(a), Number::PosInt(b)) => *a == *b,
            (Number::NegInt(a), Number::NegInt(b)) => *a == *b,
            (Number::Float { bits: a, .. }, Number::Float { bits: b, .. }) => *a == *b,
            _ => false,
        }
    }

    pub fn copy(&self) -> (r: Number)
        ensures
            r@ == self@,
            r.spec_text() == self.spec_text(),
    {
        match self {
            Number::PosInt(v) => Number::PosInt(*v),
            Number::NegInt(v) => Number::NegInt(*v),
            Number::Float { bits, text } => Number::Float { bits: *bits, text: text.clone() },
        }
    }

    /// The printed form of the number.
    pub fn to_string(&self) -> (r: String)
        ensures
            r@ == self.spec_text(),
    {
        match self {
            Number::PosInt(v) => u64_to_string(*v),
            Number::NegInt(v) => i64_to_string(*v),
            Number::Float { text, .. } => text.clone(),
        }
    }
}

/// A value: `Undefined` (no value), null, a boolean, a number, an IRI (written
/// `<...>`) or a plain string.
#[derive(Debug, Clone, PartialEq)]
pub enum Value {
    Undefined,
    Null,
    Bool(bool),
    Number(Number),
    IRI(String),
    String(String),
}

pub enum ValueV {
    Undefined,
    Null,
    Bool(bool),
    Number(NumberV),
    IRI(Seq<char>),
    String(Seq<char>),
}

impl View for Value {
    type V = ValueV;

    open spec fn view(&self) -> ValueV {
        match self {
            Value::Undefined => ValueV::Undefined,
            Value::Null => ValueV::Null,
            Value::Bool(b) => ValueV::Bool(*b),
            Value::Number(n) => ValueV::Number(n@),
            Value::IRI(s) => ValueV::IRI(s@),
            Value::String(s) => ValueV::String(s@),
        }
    }
}

/// The value that a piece of text denotes: text of the form `<...>` is an
/// IRI (without the angle brackets), anything else a plain string.
pub open spec fn value_of_text(s: Seq<char>) -> ValueV {
    if s.len() >= 2 && s[0] == '<' && s[s.len() - 1] == '>' {
        ValueV::IRI(s.subrange(1, s.len() - 1))
    } else {
        ValueV::String(s)
    }
}

/// The value of an `i64`.
pub open spec fn value_of_i64(n: i64) -> ValueV {
    ValueV::Number(number_of_i64(n))
}

/// The printed form of a boolean.
pub open spec fn bool_text(b: bool) -> Seq<char> {
    if b { seq!['t', 'r', 'u', 'e'] } else { seq!['f', 'a', 'l', 's', 'e'] }
}

impl Value {
    /// The printed form of a value: `undefined`, `null`, `true`/`false`, the
    /// number, `<iri>`, or the string itself.
    pub open spec fn spec_text(&self) -> Seq<char> {
        match self {
            Value::Undefined => seq!['u', 'n', 'd', 'e', 'f', 'i', 'n', 'e', 'd'],
            Value::Null => seq!['n', 'u', 'l', 'l'],
            Value::Bool(b) => bool_text(*b),
            Value::Number(n) => n.spec_text(),
            Value::IRI(s) => seq!['<'] + s@ + seq!['>'],
            Value::String(s) => s@,
        }
    }

    pub fn as_i64(&self) -> (r: Option<i64>)
        ensures
            r == (match self@ { ValueV::Number(n) => number_as_i64(n), _ => None::<i64> }),
    {
        match self {
            Value::Number(n) => n.as_i64(),
            _ => None,
        }
    }

    /// Reads a value from text: `<...>` is an IRI, anything else a string.
    pub fn from_string(s: String) -> (r: Value)
        ensures
            r@ == value_of_text(s@),
    {
        let v = chars_of(s.as_str());
        let n = v.len();
        if n >= 2 && v[0] == '<' && v[n - 1] == '>' {
            let mut inner: Vec<char> = Vec::new();
            let mut i: usize = 1;
            while i < n - 1
                invariant
                    1 <= i <= n - 1,
                    n == v.len(),
                    n >= 2,
                    inner@ == v@.subrange(1, i as int),
                decreases n - 1 - i,
            {
                inner.push(v[i]);
                proof {
                    assert(v@.subrange(1, i as int).push(v@[i as int]) =~= v@.subrange(1, i + 1));
                }
                i = i + 1;
            }
            Value::IRI(string_from_chars(&inner))
        } else {
            Value::String(s)
        }
    }

    pub fn from_str(s: &str) -> (r: Value)
        ensures
            r@ == value_of_text(s@),
    {
        Value::from_string(string_of(s))
    }

    pub fn from_i64(n: i64) -> (r: Value)
        ensures
            r@ == value_of_i64(n),
    {
        Value::Number(Number::from_i64(n))
    }

    pub fn from_u64(n: u64) -> (r: Value)
        ensures
            r@ == ValueV::Number(NumberV::PosInt(n)),
    {
        Value::Number(Number::from_u64(n))
    }

    pub fn from_bool(b: bool) -> (r: Value)
        ensures
            r@ == ValueV::Bool(b),
    {
        Value::Bool(b)
    }

    pub fn is_undefined(&self) -> (r: bool)
        ensures
            r == (self@ is Undefined),
    {
        match self {
            Value::Undefined => true,
            _ => false,
        }
    }

    pub fn equals(&self, other: &Value) -> (r: bool)
        ensures
            r == (self@ == other@),
    {
        match (self, other) {
            (Value::Undefined, Value::Undefined) => true,
            (Value::Null, Value::Null) => true,
            (Value::Bool(a), Value::Bool(b)) => *a == *b,
            (Value::Number(a), Value::Number(b)) => a.equals(b),
            (Value::IRI(a), Value::IRI(b)) => str_eq(a, b),
            (Value::String(a), Value::String(b)) => str_eq(a, b),
            _ => false,
        }
    }

    pub fn copy(&self) -> (r: Value)
        ensures
            r@ == self@,
            r.spec_text() == self.spec_text(),
    {
        match self {
            Value::Undefined => Value::Undefined,
            Value::Null => Value::Null,
            Value::Bool(b) => Value::Bool(*b),
            Value::Number(n) => Value::Number(n.copy()),
            Value::IRI(s) => Value::IRI(s.clone()),
            Value::String(s) => Value::String(s.clone()),
        }
    }

    /// The printed form of the value.
    pub fn to_string(&self) -> (r: String)
        ensures
            r@ == self.spec_text(),
    {
        match self {
            Value::Undefined => {
                proof {
                    reveal_strlit("undefined");
                }
                string_of("undefined")
            },
            Value::Null => {
                proof {
                    reveal_strlit("null");
                }
                string_of("null")
            },
            Value::Bool(b) => {
                proof {
                    reveal_strlit("true");
                    reveal_strlit("false");
                }
                if *b { string_of("true") } else { string_of("false") }
            },
            Value::Number(n) => n.to_string(),
            Value::IRI(s) => {
                proof {
                    reveal_strlit("<");
                    reveal_strlit(">");
                }
                let r = string_of("<");
                let r2 = concat(&r, s);
                let close = string_of(">");
                concat(&r2, &close)
            },
            Value::String(s) => s.clone(),
        }
    }
}

} // verus!
