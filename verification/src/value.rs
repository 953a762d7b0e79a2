//! The tagged values that cross the host/script boundary, and the shapes
//! that host operations declare for their parameters and results.
//!
//! Script-side values are dynamically typed, so the boundary is modeled as
//! an explicit sum type: every value handed to or returned by a host
//! operation is one of these variants, and conversion to a declared shape
//! either succeeds exactly or fails with a typed error. Floating-point
//! values are carried opaquely as their IEEE-754 bit pattern; the library
//! never does arithmetic on them.

use vstd::prelude::*;

verus! {

/// The declared shape of one structured-data value.
#[derive(Debug)]
pub enum Shape {
    /// A signed integer.
    Integer,
    /// A floating-point number, carried as its bit pattern.
    Float,
    /// A text string.
    Text,
    /// A boolean.
    Boolean,
    /// An ordered sequence whose elements all share one shape.
    Sequence(Box<Shape>),
    /// A record with a fixed list of named, shaped fields.
    Record(Vec<(String, Shape)>),
    /// The absence of a value; used as the result shape of an operation
    /// that returns nothing.
    Unit,
}

/// One dynamically-typed value crossing the boundary.
#[derive(Debug)]
pub enum Value {
    /// A signed integer.
    Integer(i64),
    /// A floating-point number as its raw IEEE-754 bit pattern.
    Float(u64),
    /// A text string.
    Text(String),
    /// A boolean.
    Boolean(bool),
    /// An ordered sequence of values.
    Sequence(Vec<Value>),
    /// A record of named field values, in declaration order.
    Record(Vec<(String, Value)>),
    /// The absence of a value.
    Unit,
}

/// Whether value `v` fits shape `s`: the tag matches, every sequence
/// element fits the element shape, and a record carries exactly the
/// declared fields, in order, each fitting its declared shape.
pub open spec fn conforms(v: Value, s: Shape) -> bool
    decreases s,
{
    match s {
        Shape::Integer => v is Integer,
        Shape::Float => v is Float,
        Shape::Text => v is Text,
        Shape::Boolean => v is Boolean,
        Shape::Unit => v is Unit,
        Shape::Sequence(inner) => match v {
            Value::Sequence(elems) => forall|i: int|
                0 <= i < elems@.len() ==> conforms(#[trigger] elems@[i], *inner),
            _ => false,
        },
        Shape::Record(fields) => match v {
            Value::Record(entries) => {
                &&& entries@.len() == fields@.len()
                &&& forall|i: int|
                    0 <= i < fields@.len() ==> {
                        &&& (#[trigger] entries@[i]).0@ == fields@[i].0@
                        &&& conforms(entries@[i].1, fields@[i].1)
                    }
            },
            _ => false,
        },
    }
}

impl Value {
    /// Runtime check that this value fits the given shape.
    #[verifier::loop_isolation(false)]
    pub fn fits(&self, s: &Shape) -> (r: bool)
        ensures
            r == conforms(*self, *s),
        decreases *s,
    {
        match s {
            Shape::Integer => matches!(self, Value::Integer(_)),
            Shape::Float => matches!(self, Value::Float(_)),
            Shape::Text => matches!(self, Value::Text(_)),
            Shape::Boolean => matches!(self, Value::Boolean(_)),
            Shape::Unit => matches!(self, Value::Unit),
            Shape::Sequence(inner) => match self {
                Value::Sequence(elems) => {
                    let inner_shape: &Shape = &**inner;
                    let mut k: usize = 0;
                    while k < elems.len()
                        invariant
                            0 <= k <= elems@.len(),
                            forall|i: int| 0 <= i < k ==> conforms(#[trigger] elems@[i], *inner_shape),
                        decreases elems@.len() - k,
                    {
                        if !elems[k].fits(inner_shape) {
                            return false;
                        }
                        k = k + 1;
                    }
                    true
                },
                _ => false,
            },
            Shape::Record(fields) => match self {
                Value::Record(entries) => {
                    if entries.len() != fields.len() {
                        return false;
                    }
                    let mut k: usize = 0;
                    while k < fields.len()
                        invariant
                            0 <= k <= fields@.len(),
                            entries@.len() == fields@.len(),
                            forall|i: int|
                                0 <= i < k ==> {
                                    &&& (#[trigger] entries@[i]).0@ == fields@[i].0@
                                    &&& conforms(entries@[i].1, fields@[i].1)
                                },
                        decreases fields@.len() - k,
                    {
                        if !(entries[k].0 == fields[k].0) {
                            return false;
                        }
                        if !entries[k].1.fits(&fields[k].1) {
                            return false;
                        }
                        k = k + 1;
                    }
                    true
                },
                _ => false,
            },
        }
    }
}

/// Whether every element of `elems` is an integer value.
pub open spec fn all_integers(elems: Seq<Value>) -> bool {
    forall|i: int| 0 <= i < elems.len() ==> (#[trigger] elems[i]) is Integer
}

/// The integers carried by a sequence of integer values, in order.
pub open spec fn integer_values(elems: Seq<Value>) -> Seq<i64> {
    elems.map_values(|v: Value| v->Integer_0)
}

impl Value {
    /// Converts this value to a host integer; fails on any other variant.
    pub fn as_integer(&self) -> (r: Option<i64>)
        ensures
            match *self {
                Value::Integer(n) => r == Some(n),
                _ => r is None,
            },
    {
        match self {
            Value::Integer(n) => Some(*n),
            _ => None,
        }
    }

    /// Converts this value to a host boolean; fails on any other variant.
    pub fn as_boolean(&self) -> (r: Option<bool>)
        ensures
            match *self {
                Value::Boolean(b) => r == Some(b),
                _ => r is None,
            },
    {
        match self {
            Value::Boolean(b) => Some(*b),
            _ => None,
        }
    }

    /// Converts this value to a host string; fails on any other variant.
    pub fn as_text(&self) -> (r: Option<String>)
        ensures
            match *self {
                Value::Text(t) => r is Some && r->0@ == t@,
                _ => r is None,
            },
    {
        match self {
            Value::Text(t) => Some(t.clone()),
            _ => None,
        }
    }

    /// Converts this value to a host vector of integers. Succeeds exactly
    /// when the value is a sequence whose elements are all integers.
    #[verifier::loop_isolation(false)]
    pub fn as_integer_sequence(&self) -> (r: Option<Vec<i64>>)
        ensures
            r is Some <==> (*self) is Sequence && all_integers(self->Sequence_0@),
            r is Some ==> r->0@ == integer_values(self->Sequence_0@),
    {
        match self {
            Value::Sequence(elems) => {
                let mut out: Vec<i64> = Vec::new();
                let mut k: usize = 0;
                while k < elems.len()
                    invariant
                        0 <= k <= elems@.len(),
                        out@.len() == k,
                        forall|i: int| 0 <= i < k ==> (#[trigger] elems@[i]) is Integer,
                        forall|i: int| 0 <= i < k ==> out@[i] == elems@[i]->Integer_0,
                    decreases elems@.len() - k,
                {
                    match &elems[k] {
                        Value::Integer(n) => {
                            out.push(*n);
                        },
                        _ => {
                            return None;
                        },
                    }
                    k = k + 1;
                }
                proof {
                    assert(out@ =~= integer_values(elems@));
                }
                Some(out)
            },
            _ => None,
        }
    }
}

} // verus!
