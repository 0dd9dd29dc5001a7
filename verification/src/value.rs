use vstd::prelude::*;

use crate::code_span::CodeSpan;
use crate::token::{Literal, SpecLiteral};

verus! {

/// Represents a kind of JSON value.
#[derive(Debug, PartialEq)]
pub enum ValueKind {
    /// An array: its items in order.
    Array(Vec<Box<Value>>),
    /// An object: its members in order, each a name with the span of the
    /// name's token, and a value.
    Object(Vec<((String, CodeSpan), Box<Value>)>),
    /// A literal.
    Literal(Literal),
}

/// Represents a JSON value.
#[derive(Debug, PartialEq)]
pub struct Value {
    /// What the value is.
    pub kind: ValueKind,
    /// Where the value stands in the JSON source text.
    pub span: CodeSpan,
}

/// The mathematical model of a [`ValueKind`].
pub enum SpecValueKind {
    Array(Seq<SpecValue>),
    Object(Seq<((Seq<char>, CodeSpan), SpecValue)>),
    Literal(SpecLiteral),
}

/// The mathematical model of a [`Value`].
pub struct SpecValue {
    pub kind: SpecValueKind,
    pub span: CodeSpan,
}

/// The model of a value.
pub open spec fn value_view(v: Value) -> SpecValue
    decreases v,
{
    SpecValue { kind: kind_view(v.kind), span: v.span }
}

/// The model of a value kind.
pub open spec fn kind_view(k: ValueKind) -> SpecValueKind
    decreases k,
{
    match k {
        ValueKind::Array(items) => SpecValueKind::Array(
            Seq::new(
                items@.len(),
                |i: int|
                    if 0 <= i < items@.len() {
                        value_view(*items@[i])
                    } else {
                        SpecValue { kind: SpecValueKind::Literal(SpecLiteral::Null), span: arbitrary() }
                    },
            ),
        ),
        ValueKind::Object(members) => SpecValueKind::Object(
            Seq::new(
                members@.len(),
                |i: int|
                    if 0 <= i < members@.len() {
                        (
                            (members@[i].0.0@, members@[i].0.1),
                            value_view(*members@[i].1),
                        )
                    } else {
                        (
                            (Seq::empty(), arbitrary()),
                            SpecValue { kind: SpecValueKind::Literal(SpecLiteral::Null), span: arbitrary() },
                        )
                    },
            ),
        ),
        ValueKind::Literal(lit) => SpecValueKind::Literal(lit@),
    }
}

impl View for Value {
    type V = SpecValue;

    open spec fn view(&self) -> SpecValue {
        value_view(*self)
    }
}

impl View for ValueKind {
    type V = SpecValueKind;

    open spec fn view(&self) -> SpecValueKind {
        kind_view(*self)
    }
}

/// A deep copy of a value.
fn copy_value(v: &Value) -> (c: Value)
    ensures
        c@ == v@,
    decreases v,
{
    Value { kind: copy_kind(&v.kind), span: v.span }
}

/// A deep copy of a value kind.
fn copy_kind(k: &ValueKind) -> (c: ValueKind)
    ensures
        c@ == k@,
    decreases k,
{
    match k {
        ValueKind::Array(items) => {
            let mut out: Vec<Box<Value>> = Vec::new();
            let mut i: usize = 0;
            while i < items.len()
                invariant
                    i <= items@.len(),
                    out@.len() == i,
                    forall|j: int| 0 <= j < i ==> (*out@[j])@ == (*items@[j])@,
                    *k == ValueKind::Array(*items),
                decreases items@.len() - i,
            {
                proof {
                    assert(decreases_to!(*k => (*k)->Array_0));
                    assert(decreases_to!((*k)->Array_0 => (*k)->Array_0@));
                    assert(decreases_to!(items@ => items@[i as int]));
                    assert(decreases_to!(*k => *items@[i as int]));
                }
                let item = copy_value(&items[i]);
                out.push(Box::new(item));
                i = i + 1;
            }
            let c = ValueKind::Array(out);
            assert(kind_view(c)->Array_0 =~= kind_view(*k)->Array_0);
            assert(kind_view(c) == kind_view(*k));
            c
        },
        ValueKind::Object(members) => {
            let mut out: Vec<((String, CodeSpan), Box<Value>)> = Vec::new();
            let mut i: usize = 0;
            while i < members.len()
                invariant
                    i <= members@.len(),
                    out@.len() == i,
                    forall|j: int|
                        0 <= j < i ==> out@[j].0.0@ == members@[j].0.0@ && out@[j].0.1
                            == members@[j].0.1 && (*out@[j].1)@ == (*members@[j].1)@,
                    *k == ValueKind::Object(*members),
                decreases members@.len() - i,
            {
                proof {
                    assert(decreases_to!(*k => (*k)->Object_0));
                    assert(decreases_to!((*k)->Object_0 => (*k)->Object_0@));
                    assert(decreases_to!(members@ => members@[i as int]));
                    assert(decreases_to!(members@[i as int] => members@[i as int].1));
                    assert(decreases_to!(*k => *members@[i as int].1));
                }
                let name = members[i].0.0.clone();
                let item = copy_value(&members[i].1);
                out.push(((name, members[i].0.1), Box::new(item)));
                i = i + 1;
            }
            let c = ValueKind::Object(out);
            assert(kind_view(c)->Object_0 =~= kind_view(*k)->Object_0);
            c
        },
        ValueKind::Literal(lit) => ValueKind::Literal(lit.clone()),
    }
}

impl Clone for Value {
    fn clone(&self) -> (c: Self)
        ensures
            c@ == self@,
    {
        copy_value(self)
    }
}

impl Clone for ValueKind {
    fn clone(&self) -> (c: Self)
        ensures
            c@ == self@,
    {
        copy_kind(self)
    }
}

impl Value {
    /// Creates a new [`Value`].
    pub fn new(kind: ValueKind, span: CodeSpan) -> (v: Self)
        ensures
            v.kind == kind,
            v.span == span,
    {
        Value { kind, span }
    }
}

} // verus!
