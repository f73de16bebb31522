//! Runtime values.
//!
//! `Value` is compact and copyable. Heap-backed data such as strings, arrays and
//! maps is represented through `ObjRef`.

use vstd::prelude::*;
use vstd::string::StringExecFns;

use crate::object::ObjRef;
use crate::text::{decimal, push_decimal, push_signed_decimal, signed_decimal};

verus! {

/// A value that can live in registers, constants, arrays and maps. Two values are equal if they
/// have the same content: floating-point numbers the same bits, objects the same reference.
#[derive(Clone, Copy, Debug, PartialEq, Eq, Structural)]
pub enum Value {
    /// Absence of a value; used for uninitialized registers and `nil` source literals.
    Nil,
    /// Boolean value used by comparisons and control-flow conditions.
    Bool(bool),
    /// Signed integer value used by the arithmetic instruction set.
    Int(i64),
    /// Floating-point value, held as the bits of an IEEE 754 double.
    Float(u64),
    /// Reference to a heap object.
    Obj(ObjRef),
}

impl Default for Value {
    fn default() -> (value: Self)
        ensures
            value == Value::Nil,
    {
        Value::Nil
    }
}

/// The two texts of a floating-point number: the plain one and the developer-oriented one.
#[derive(Clone, Debug, PartialEq, Eq)]
pub struct FloatText {
    /// Bits of the number.
    pub bits: u64,
    /// Plain text, such as `1`.
    pub display: String,
    /// Developer-oriented text, such as `1.0`.
    pub debug: String,
}

/// Texts of floating-point numbers. The host renders the numbers and hands the texts over.
#[derive(Clone, Debug, PartialEq, Eq)]
pub struct FloatTexts {
    entries: Vec<FloatText>,
}

/// The texts in some entries; later entries replace earlier ones.
pub open spec fn float_entries(entries: Seq<FloatText>) -> Map<u64, (Seq<char>, Seq<char>)>
    decreases entries.len(),
{
    if entries.len() == 0 {
        Map::empty()
    } else {
        let last = entries.last();
        float_entries(entries.drop_last()).insert(last.bits, (last.display@, last.debug@))
    }
}

impl View for FloatTexts {
    type V = Map<u64, (Seq<char>, Seq<char>)>;

    closed spec fn view(&self) -> Map<u64, (Seq<char>, Seq<char>)> {
        float_entries(self.entries@)
    }
}

/// The plain text of a number; one without a text is shown by its bits.
pub open spec fn float_display(texts: Map<u64, (Seq<char>, Seq<char>)>, bits: u64) -> Seq<char> {
    if texts.contains_key(bits) {
        texts[bits].0
    } else {
        "bits "@ + decimal(bits as nat)
    }
}

/// The developer-oriented text of a number; one without a text is shown by its bits.
pub open spec fn float_debug(texts: Map<u64, (Seq<char>, Seq<char>)>, bits: u64) -> Seq<char> {
    if texts.contains_key(bits) {
        texts[bits].1
    } else {
        "bits "@ + decimal(bits as nat)
    }
}

impl FloatTexts {
    /// No texts.
    pub fn new() -> (texts: Self)
        ensures
            texts@ == Map::<u64, (Seq<char>, Seq<char>)>::empty(),
    {
        FloatTexts { entries: Vec::new() }
    }

    /// Adds the texts of a number.
    pub fn with_text(self, bits: u64, display: &str, debug: &str) -> (texts: Self)
        ensures
            texts@ == self@.insert(bits, (display@, debug@)),
    {
        let mut texts = self;
        let ghost before = texts.entries@;
        let entry = FloatText { bits, display: display.to_owned(), debug: debug.to_owned() };
        texts.entries.push(entry);
        assert(texts.entries@.drop_last() =~= before);
        texts
    }

    /// The position of the entry for a number.
    fn find(&self, bits: u64) -> (found: Option<usize>)
        ensures
            match found {
                Some(i) => {
                    &&& i < self.entries@.len()
                    &&& self@.contains_key(bits)
                    &&& self@[bits] == (self.entries@[i as int].display@, self.entries@[i as int].debug@)
                },
                None => !self@.contains_key(bits),
            },
    {
        let mut i: usize = self.entries.len();
        assert(self.entries@.take(i as int) =~= self.entries@);
        while i > 0
            invariant
                i <= self.entries@.len(),
                self@.contains_key(bits) == float_entries(self.entries@.take(i as int)).contains_key(
                    bits,
                ),
                self@.contains_key(bits) ==> self@[bits] == float_entries(
                    self.entries@.take(i as int),
                )[bits],
            decreases i,
        {
            assert(self.entries@.take(i as int).drop_last() =~= self.entries@.take(i - 1));
            assert(self.entries@.take(i as int).last() == self.entries@[i - 1]);
            i = i - 1;
            if self.entries[i].bits == bits {
                return Some(i);
            }
        }
        None
    }

    /// The plain text of a number.
    pub fn display(&self, bits: u64) -> (s: String)
        ensures
            s@ == float_display(self@, bits),
    {
        match self.find(bits) {
            Some(i) => self.entries[i].display.clone(),
            None => {
                let mut s = String::from_str("bits ");
                push_decimal(&mut s, bits);
                s
            },
        }
    }

    /// The developer-oriented text of a number.
    pub fn debug(&self, bits: u64) -> (s: String)
        ensures
            s@ == float_debug(self@, bits),
    {
        match self.find(bits) {
            Some(i) => self.entries[i].debug.clone(),
            None => {
                let mut s = String::from_str("bits ");
                push_decimal(&mut s, bits);
                s
            },
        }
    }
}

/// The text of a boolean.
pub open spec fn bool_text(b: bool) -> Seq<char> {
    if b {
        "true"@
    } else {
        "false"@
    }
}

/// The plain text of a value.
pub open spec fn value_text(value: Value, floats: Map<u64, (Seq<char>, Seq<char>)>) -> Seq<char> {
    match value {
        Value::Nil => "nil"@,
        Value::Bool(b) => bool_text(b),
        Value::Int(n) => signed_decimal(n as int),
        Value::Float(bits) => float_display(floats, bits),
        Value::Obj(reference) => "<object "@ + reference.text() + ">"@,
    }
}

/// The developer-oriented text of a value.
pub open spec fn value_debug_text(
    value: Value,
    floats: Map<u64, (Seq<char>, Seq<char>)>,
) -> Seq<char> {
    match value {
        Value::Nil => "Nil"@,
        Value::Bool(b) => "Bool("@ + bool_text(b) + ")"@,
        Value::Int(n) => "Int("@ + signed_decimal(n as int) + ")"@,
        Value::Float(bits) => "Float("@ + float_debug(floats, bits) + ")"@,
        Value::Obj(reference) => "Obj("@ + reference.text() + ")"@,
    }
}

/// Helper that renders developer-oriented value output.
#[derive(Clone, Copy, Debug, PartialEq, Eq)]
pub struct ValueDebugDisplay<'a>(&'a Value);

impl<'a> ValueDebugDisplay<'a> {
    /// The value that is rendered.
    pub closed spec fn value(self) -> Value {
        *self.0
    }

    /// Renders the value.
    pub fn to_string(&self, floats: &FloatTexts) -> (s: String)
        ensures
            s@ == value_debug_text(self.value(), floats@),
    {
        debug_value(self.0, floats)
    }
}

/// Renders the developer-oriented text of a value.
pub fn debug_value(value: &Value, floats: &FloatTexts) -> (s: String)
    ensures
        s@ == value_debug_text(*value, floats@),
{
    match value {
        Value::Nil => String::from_str("Nil"),
        Value::Bool(b) => {
            let mut s = String::from_str("Bool(");
            s.append(
                if *b {
                    "true"
                } else {
                    "false"
                },
            );
            s.append(")");
            s
        },
        Value::Int(n) => {
            let mut s = String::from_str("Int(");
            push_signed_decimal(&mut s, *n);
            s.append(")");
            s
        },
        Value::Float(bits) => {
            let mut s = String::from_str("Float(");
            s.append(floats.debug(*bits).as_str());
            s.append(")");
            s
        },
        Value::Obj(reference) => {
            let mut s = String::from_str("Obj(");
            s.append(reference.to_string().as_str());
            s.append(")");
            s
        },
    }
}

impl Value {
    /// Returns a debug-display helper for explicit developer-facing formatting.
    pub fn debug_display(&self) -> (display: ValueDebugDisplay<'_>)
        ensures
            display.value() == *self,
    {
        ValueDebugDisplay(self)
    }

    /// Renders the plain text of the value.
    pub fn to_string(&self, floats: &FloatTexts) -> (s: String)
        ensures
            s@ == value_text(*self, floats@),
    {
        match self {
            Value::Nil => String::from_str("nil"),
            Value::Bool(b) => String::from_str(
                if *b {
                    "true"
                } else {
                    "false"
                },
            ),
            Value::Int(n) => {
                let mut s = String::new();
                push_signed_decimal(&mut s, *n);
                assert(s@ =~= signed_decimal(*n as int));
                s
            },
            Value::Float(bits) => floats.display(*bits),
            Value::Obj(reference) => {
                let mut s = String::from_str("<object ");
                s.append(reference.to_string().as_str());
                s.append(">");
                s
            },
        }
    }

    /// Extracts a heap object reference if this value is `Value::Obj`.
    pub fn as_obj_ref(&self) -> (reference: Option<ObjRef>)
        ensures
            reference == match *self {
                Value::Obj(reference) => Some(reference),
                _ => None,
            },
    {
        match self {
            Value::Obj(reference) => Some(*reference),
            _ => None,
        }
    }
}

} // verus!
