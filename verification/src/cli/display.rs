//! Display of values that refer to the heap.

use vstd::prelude::*;
use vstd::string::StringExecFns;

use crate::object::{Obj, ObjRef};
use crate::value::{value_text, FloatTexts, Value};

verus! {

/// An object of a heap with the reference to it.
#[derive(Clone, Debug, PartialEq, Eq)]
pub struct HeapObject {
    pub reference: ObjRef,
    pub object: Obj,
}

/// The live objects of a heap.
#[derive(Clone, Debug, PartialEq, Eq)]
pub struct HeapSnapshot {
    pub objects: Vec<HeapObject>,
}

/// The number of levels that are shown of nested objects.
pub const MAX_DEPTH: usize = 8;

/// The object behind a reference, among those from `i` on.
pub open spec fn object_from(objects: Seq<HeapObject>, reference: ObjRef, i: int) -> Option<Obj>
    decreases objects.len() - i,
{
    if 0 <= i < objects.len() {
        if objects[i].reference == reference {
            Some(objects[i].object)
        } else {
            object_from(objects, reference, i + 1)
        }
    } else {
        None
    }
}

/// The texts of floats by their bits.
pub type Floats = Map<u64, (Seq<char>, Seq<char>)>;

/// The text of a value, with the objects that it refers to.
pub open spec fn heap_text(
    objects: Seq<HeapObject>,
    value: Value,
    depth: nat,
    floats: Floats,
) -> Seq<char>
    decreases (if depth < MAX_DEPTH { MAX_DEPTH - depth } else { 0 }), 0int,
{
    if depth >= MAX_DEPTH {
        "..."@
    } else {
        match value {
            Value::Obj(reference) => match object_from(objects, reference, 0) {
                Some(Obj::String(text)) => text@,
                Some(Obj::Array(values)) => "["@ + values_text(
                    objects,
                    values@,
                    values@.len(),
                    depth + 1,
                    floats,
                ) + "]"@,
                Some(Obj::MapEntries(entries)) => "{"@ + entries_text(
                    objects,
                    entries@,
                    entries@.len(),
                    depth + 1,
                    floats,
                ) + "}"@,
                _ => value_text(value, floats),
            },
            _ => value_text(value, floats),
        }
    }
}

/// The texts of the first `n` values, separated by commas.
pub open spec fn values_text(
    objects: Seq<HeapObject>,
    values: Seq<Value>,
    n: nat,
    depth: nat,
    floats: Floats,
) -> Seq<char>
    decreases (if depth < MAX_DEPTH { MAX_DEPTH - depth } else { 0 }), n + 1,
{
    if n == 0 {
        Seq::empty()
    } else {
        let front = values_text(objects, values, (n - 1) as nat, depth, floats);
        let separator = if n == 1 {
            Seq::empty()
        } else {
            ", "@
        };
        front + separator + heap_text(objects, values[n - 1], depth, floats)
    }
}

/// The texts of the first `n` key/value pairs, separated by commas.
pub open spec fn entries_text(
    objects: Seq<HeapObject>,
    entries: Seq<(Value, Value)>,
    n: nat,
    depth: nat,
    floats: Floats,
) -> Seq<char>
    decreases (if depth < MAX_DEPTH { MAX_DEPTH - depth } else { 0 }), n + 1,
{
    if n == 0 {
        Seq::empty()
    } else {
        let front = entries_text(objects, entries, (n - 1) as nat, depth, floats);
        let separator = if n == 1 {
            Seq::empty()
        } else {
            ", "@
        };
        front + separator + heap_text(objects, entries[n - 1].0, depth, floats) + ": "@ + heap_text(
            objects,
            entries[n - 1].1,
            depth,
            floats,
        )
    }
}

impl HeapSnapshot {
    /// The object behind a reference.
    pub fn get(&self, reference: ObjRef) -> (object: Option<&Obj>)
        ensures
            match object {
                Some(object) => object_from(self.objects@, reference, 0) == Some(*object),
                None => object_from(self.objects@, reference, 0) is None,
            },
    {
        let mut i: usize = 0;
        while i < self.objects.len()
            invariant
                i <= self.objects@.len(),
                object_from(self.objects@, reference, 0) == object_from(
                    self.objects@,
                    reference,
                    i as int,
                ),
            decreases self.objects.len() - i,
        {
            if self.objects[i].reference == reference {
                return Some(&self.objects[i].object);
            }
            i = i + 1;
        }
        None
    }

    /// The text of a value, with the objects that it refers to.
    pub fn display(&self, value: Value, floats: &FloatTexts) -> (text: String)
        ensures
            text@ == heap_text(self.objects@, value, 0, floats@),
    {
        self.display_inner(value, 0, floats)
    }

    fn display_inner(&self, value: Value, depth: usize, floats: &FloatTexts) -> (text: String)
        requires
            depth <= MAX_DEPTH,
        ensures
            text@ == heap_text(self.objects@, value, depth as nat, floats@),
        decreases MAX_DEPTH - depth,
    {
        if depth >= MAX_DEPTH {
            return String::from_str("...");
        }
        if let Value::Obj(reference) = value {
            match self.get(reference) {
                Some(Obj::String(text)) => {
                    return text.clone();
                },
                Some(Obj::Array(values)) => {
                    let mut text = String::from_str("[");
                    let mut i: usize = 0;
                    assert(text@ =~= "["@ + values_text(
                        self.objects@,
                        values@,
                        0,
                        (depth + 1) as nat,
                        floats@,
                    ));
                    while i < values.len()
                        invariant
                            i <= values@.len(),
                            depth < MAX_DEPTH,
                            text@ == "["@ + values_text(
                                self.objects@,
                                values@,
                                i as nat,
                                (depth + 1) as nat,
                                floats@,
                            ),
                        decreases values.len() - i,
                    {
                        if i > 0 {
                            text.append(", ");
                        }
                        let item = self.display_inner(values[i], depth + 1, floats);
                        text.append(item.as_str());
                        i = i + 1;
                        assert(text@ =~= "["@ + values_text(
                            self.objects@,
                            values@,
                            i as nat,
                            (depth + 1) as nat,
                            floats@,
                        ));
                    }
                    text.append("]");
                    return text;
                },
                Some(Obj::MapEntries(entries)) => {
                    let mut text = String::from_str("{");
                    let mut i: usize = 0;
                    assert(text@ =~= "{"@ + entries_text(
                        self.objects@,
                        entries@,
                        0,
                        (depth + 1) as nat,
                        floats@,
                    ));
                    while i < entries.len()
                        invariant
                            i <= entries@.len(),
                            depth < MAX_DEPTH,
                            text@ == "{"@ + entries_text(
                                self.objects@,
                                entries@,
                                i as nat,
                                (depth + 1) as nat,
                                floats@,
                            ),
                        decreases entries.len() - i,
                    {
                        if i > 0 {
                            text.append(", ");
                        }
                        let key = self.display_inner(entries[i].0, depth + 1, floats);
                        let item = self.display_inner(entries[i].1, depth + 1, floats);
                        text.append(key.as_str());
                        text.append(": ");
                        text.append(item.as_str());
                        i = i + 1;
                        assert(text@ =~= "{"@ + entries_text(
                            self.objects@,
                            entries@,
                            i as nat,
                            (depth + 1) as nat,
                            floats@,
                        ));
                    }
                    text.append("}");
                    return text;
                },
                _ => {},
            }
        }
        value.to_string(floats)
    }
}

/// What is printed of the result of a program, given its text: nothing where it is `nil`.
pub fn shown_result(value: Value, text: &str) -> (line: Option<String>)
    ensures
        line is None <==> value == Value::Nil,
        line matches Some(line) ==> line@ == text@,
{
    if value == Value::Nil {
        None
    } else {
        Some(text.to_owned())
    }
}

} // verus!
