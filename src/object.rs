//! Runtime values and the operations on them that need no arithmetic.
use vstd::prelude::*;

use crate::text::{chars_of, joined};
use std::cmp::Ordering;

verus! {

/// A runtime value. A number is held as the IEEE-754 single-precision
/// encoding of its value. `==` is the language's equality (see
/// [`values_equal`]): numbers compare as IEEE-754 values.
#[derive(Debug, Clone)]
pub enum Object {
    Number(u32),
    String(String),
    True,
    False,
    Nil,
}

/// The mathematical content of an [`Object`].
pub enum Value {
    Number(u32),
    Str(Seq<char>),
    True,
    False,
    Nil,
}

impl View for Object {
    type V = Value;

    open spec fn view(&self) -> Value {
        match self {
            Object::Number(bits) => Value::Number(*bits),
            Object::String(s) => Value::Str(s@),
            Object::True => Value::True,
            Object::False => Value::False,
            Object::Nil => Value::Nil,
        }
    }
}

/// Only `nil` and `false` are falsy.
pub open spec fn truthy(v: Value) -> bool {
    !(v is Nil || v is False)
}

pub open spec fn bool_value(b: bool) -> Value {
    if b {
        Value::True
    } else {
        Value::False
    }
}

pub open spec fn is_nan(bits: u32) -> bool {
    (bits & 0x7f80_0000u32) == 0x7f80_0000u32 && (bits & 0x007f_ffffu32) != 0
}

/// The position of a non-NaN encoding on the number line: its magnitude,
/// negated when the sign bit is set (so both zeros sit at 0).
pub open spec fn number_key(bits: u32) -> int {
    let magnitude = (bits & 0x7fff_ffffu32) as int;
    if bits & 0x8000_0000u32 != 0 {
        -magnitude
    } else {
        magnitude
    }
}

/// The IEEE-754 order of two encoded numbers: none when either is NaN.
pub open spec fn number_order(a: u32, b: u32) -> Option<Ordering> {
    if is_nan(a) || is_nan(b) {
        None
    } else if number_key(a) < number_key(b) {
        Some(Ordering::Less)
    } else if number_key(a) == number_key(b) {
        Some(Ordering::Equal)
    } else {
        Some(Ordering::Greater)
    }
}

/// IEEE-754 negation: the sign bit flips.
pub open spec fn negated(bits: u32) -> u32 {
    bits ^ 0x8000_0000u32
}

/// Lexicographic order of character sequences.
pub open spec fn text_order(a: Seq<char>, b: Seq<char>) -> Ordering
    decreases a.len(),
{
    if a.len() == 0 && b.len() == 0 {
        Ordering::Equal
    } else if a.len() == 0 {
        Ordering::Less
    } else if b.len() == 0 {
        Ordering::Greater
    } else if a[0] < b[0] {
        Ordering::Less
    } else if a[0] > b[0] {
        Ordering::Greater
    } else {
        text_order(a.drop_first(), b.drop_first())
    }
}

/// Equality of runtime values: defined on every pair, false across shapes;
/// numbers compare as IEEE-754 values.
pub open spec fn values_equal(a: Value, b: Value) -> bool {
    match (a, b) {
        (Value::Number(x), Value::Number(y)) => number_order(x, y) == Some(Ordering::Equal),
        (Value::Str(x), Value::Str(y)) => x == y,
        (Value::True, Value::True) => true,
        (Value::False, Value::False) => true,
        (Value::Nil, Value::Nil) => true,
        _ => false,
    }
}

/// The name of a value's shape, as diagnostics print it.
pub open spec fn shape_name(v: Value) -> Seq<char> {
    match v {
        Value::Number(_) => "Number"@,
        Value::Str(_) => "String"@,
        Value::True => "True"@,
        Value::False => "False"@,
        Value::Nil => "Nil"@,
    }
}

impl Object {
    /// Whether the value counts as true.
    pub fn is_truthy(&self) -> (r: bool)
        ensures
            r == truthy(self@),
    {
        !matches!(self, Object::Nil | Object::False)
    }

    /// `True` or `False`.
    pub fn from_bool(b: bool) -> (r: Object)
        ensures
            r@ == bool_value(b),
    {
        if b {
            Object::True
        } else {
            Object::False
        }
    }

    /// A copy of this value.
    pub fn duplicate(&self) -> (r: Object)
        ensures
            r == *self,
    {
        match self {
            Object::Number(bits) => Object::Number(*bits),
            Object::String(s) => Object::String(s.clone()),
            Object::True => Object::True,
            Object::False => Object::False,
            Object::Nil => Object::Nil,
        }
    }

    /// The name of the value's shape.
    pub fn shape(&self) -> (r: &'static str)
        ensures
            r@ == shape_name(self@),
    {
        match self {
            Object::Number(_) => "Number",
            Object::String(_) => "String",
            Object::True => "True",
            Object::False => "False",
            Object::Nil => "Nil",
        }
    }

    /// Equality as the language defines it.
    pub fn equals(&self, other: &Object) -> (r: bool)
        ensures
            r == values_equal(self@, other@),
    {
        match (self, other) {
            (Object::Number(x), Object::Number(y)) => match compare_numbers(*x, *y) {
                Some(Ordering::Equal) => true,
                _ => false,
            },
            (Object::String(x), Object::String(y)) => *x == *y,
            (Object::True, Object::True) => true,
            (Object::False, Object::False) => true,
            (Object::Nil, Object::Nil) => true,
            _ => false,
        }
    }
}

impl PartialEq for Object {
    fn eq(&self, other: &Object) -> (r: bool)
        ensures
            r == values_equal(self@, other@),
    {
        self.equals(other)
    }
}

impl vstd::std_specs::cmp::PartialEqSpecImpl for Object {
    open spec fn obeys_eq_spec() -> bool {
        true
    }

    open spec fn eq_spec(&self, other: &Object) -> bool {
        values_equal(self@, other@)
    }
}

/// The IEEE-754 order of two encoded numbers.
pub fn compare_numbers(a: u32, b: u32) -> (r: Option<Ordering>)
    ensures
        r == number_order(a, b),
{
    let a_nan = (a & 0x7f80_0000u32) == 0x7f80_0000u32 && (a & 0x007f_ffffu32) != 0;
    let b_nan = (b & 0x7f80_0000u32) == 0x7f80_0000u32 && (b & 0x007f_ffffu32) != 0;
    if a_nan || b_nan {
        return None;
    }
    let a_mag = (a & 0x7fff_ffffu32) as i64;
    let b_mag = (b & 0x7fff_ffffu32) as i64;
    let a_key: i64 = if a & 0x8000_0000u32 != 0 {
        -a_mag
    } else {
        a_mag
    };
    let b_key: i64 = if b & 0x8000_0000u32 != 0 {
        -b_mag
    } else {
        b_mag
    };
    if a_key < b_key {
        Some(Ordering::Less)
    } else if a_key == b_key {
        Some(Ordering::Equal)
    } else {
        Some(Ordering::Greater)
    }
}

/// IEEE-754 negation of an encoded number.
pub fn negate_number(bits: u32) -> (r: u32)
    ensures
        r == negated(bits),
{
    bits ^ 0x8000_0000u32
}

/// The lexicographic order of two strings, character by character.
pub fn compare_text(a: &str, b: &str) -> (r: Ordering)
    ensures
        r == text_order(a@, b@),
{
    let x = chars_of(a);
    let y = chars_of(b);
    let mut i: usize = 0;
    assert(x@.skip(0) =~= x@);
    assert(y@.skip(0) =~= y@);
    while i < x.len() && i < y.len()
        invariant
            i <= x@.len(),
            i <= y@.len(),
            text_order(a@, b@) == text_order(x@.skip(i as int), y@.skip(i as int)),
            x@ == a@,
            y@ == b@,
        decreases x@.len() - i,
    {
        if x[i] < y[i] {
            return Ordering::Less;
        }
        if x[i] > y[i] {
            return Ordering::Greater;
        }
        proof {
            assert(x@.skip(i as int).drop_first() =~= x@.skip(i as int + 1));
            assert(y@.skip(i as int).drop_first() =~= y@.skip(i as int + 1));
        }
        i = i + 1;
    }
    if x.len() == y.len() {
        Ordering::Equal
    } else if i == x.len() {
        Ordering::Less
    } else {
        Ordering::Greater
    }
}

/// `a` followed by `b`.
pub fn concat_text(a: &String, b: &String) -> (r: String)
    ensures
        r@ == a@ + b@,
{
    joined(a.as_str(), b.as_str())
}

} // verus!
