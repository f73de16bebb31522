//! Heap object types and generational object references.

use vstd::prelude::*;
use vstd::string::StringExecFns;

use crate::bytecode::instruction::FunctionId;
use crate::text::{decimal, push_decimal};
use crate::value::Value;

verus! {

/// Stable handle to a heap object.
///
/// `index` identifies a heap slot and `generation` invalidates stale handles
/// after a slot is reused.
#[derive(Clone, Copy, Debug, PartialEq, Eq, Hash, PartialOrd, Ord, Structural)]
pub struct ObjRef {
    /// Heap slot index.
    pub index: u32,
    /// Generation counter for stale-reference detection.
    pub generation: u32,
}

/// Heap-allocated object variants.
#[derive(Clone, Debug, PartialEq, Eq)]
pub enum Obj {
    /// UTF-8 string object.
    String(String),
    /// Mutable array of values.
    Array(Vec<Value>),
    /// Mutable map represented as insertion-ordered key/value pairs.
    MapEntries(Vec<(Value, Value)>),
    /// Function object.
    Function(FunctionId),
    /// First-class function closure with captured values.
    Closure {
        /// Function table entry executed when the closure is called.
        function: FunctionId,
        /// Values captured from the surrounding lexical environment.
        captures: Vec<Value>,
    },
    /// Native function metadata object.
    NativeFunction(String),
    /// Module object.
    Module(String),
}

impl ObjRef {
    /// Creates an object reference from a heap slot index and generation.
    pub fn new(index: u32, generation: u32) -> (reference: Self)
        ensures
            reference == (ObjRef { index, generation }),
    {
        ObjRef { index, generation }
    }

    /// The text `#index:generation`.
    pub open spec fn text(self) -> Seq<char> {
        "#"@ + decimal(self.index as nat) + ":"@ + decimal(self.generation as nat)
    }

    /// Renders the reference as `#index:generation`.
    pub fn to_string(&self) -> (s: String)
        ensures
            s@ == self.text(),
    {
        let mut s = String::from_str("#");
        push_decimal(&mut s, self.index as u64);
        s.append(":");
        push_decimal(&mut s, self.generation as u64);
        s
    }
}

} // verus!
