//! The typed values and rows this layer encrypts.
//!
//! [`Value`] mirrors the column values of the host store as plain data: the
//! variants the codec understands directly, plus [`Value::Opaque`] for any
//! host value already rendered to bytes by the caller.  [`Value::Bytea`] is
//! the byte-array variant; an encrypted value always sits in it.

use vstd::prelude::*;

verus! {

/// A column value.
#[derive(Debug, PartialEq)]
pub enum Value {
    /// The absent value.
    Null,
    /// A boolean.
    Bool(bool),
    /// A 64-bit signed integer.
    I64(i64),
    /// A text value.
    Str(String),
    /// A byte array; encrypted blobs are stored in this variant.
    Bytea(Vec<u8>),
    /// A host value the caller has already rendered to bytes.
    Opaque(Vec<u8>),
}

/// The mathematical shape of a [`Value`].
pub enum ValueView {
    /// The absent value.
    Null,
    /// A boolean.
    Bool(bool),
    /// A 64-bit signed integer.
    I64(i64),
    /// A text value.
    Str(Seq<char>),
    /// A byte array.
    Bytea(Seq<u8>),
    /// A host value rendered to bytes.
    Opaque(Seq<u8>),
}

impl View for Value {
    type V = ValueView;

    open spec fn view(&self) -> ValueView {
        match self {
            Value::Null => ValueView::Null,
            Value::Bool(b) => ValueView::Bool(*b),
            Value::I64(x) => ValueView::I64(*x),
            Value::Str(s) => ValueView::Str(s@),
            Value::Bytea(b) => ValueView::Bytea(b@),
            Value::Opaque(b) => ValueView::Opaque(b@),
        }
    }
}

/// A value whose variable-length payloads fit an 8-byte length prefix.
/// Every value built from in-memory vectors and strings satisfies this.
pub open spec fn wf_value(v: ValueView) -> bool {
    match v {
        ValueView::Str(s) => s.len() <= 0xffff_ffff_ffff_ffffu64,
        ValueView::Bytea(b) => b.len() <= 0xffff_ffff_ffff_ffffu64,
        ValueView::Opaque(b) => b.len() <= 0xffff_ffff_ffff_ffffu64,
        _ => true,
    }
}

impl Value {
    /// An exact copy of the value.
    pub fn duplicate(&self) -> (r: Value)
        ensures
            r@ == self@,
    {
        match self {
            Value::Null => Value::Null,
            Value::Bool(b) => Value::Bool(*b),
            Value::I64(x) => Value::I64(*x),
            Value::Str(s) => Value::Str(s.clone()),
            Value::Bytea(b) => Value::Bytea(vstd::slice::slice_to_vec(b.as_slice())),
            Value::Opaque(b) => Value::Opaque(vstd::slice::slice_to_vec(b.as_slice())),
        }
    }
}

/// A row: either positional values or named columns.
#[derive(Debug, PartialEq)]
pub enum DataRow {
    /// An ordered sequence of values.
    Values(Vec<Value>),
    /// Named columns, each a name with its value.
    Named(Vec<(String, Value)>),
}

/// The mathematical shape of a [`DataRow`].
pub enum RowView {
    /// An ordered sequence of values.
    Values(Seq<ValueView>),
    /// Named columns.
    Named(Seq<(Seq<char>, ValueView)>),
}

impl View for DataRow {
    type V = RowView;

    open spec fn view(&self) -> RowView {
        match self {
            DataRow::Values(vs) => RowView::Values(vs@.map_values(|v: Value| v@)),
            DataRow::Named(vs) => RowView::Named(
                vs@.map_values(|p: (String, Value)| (p.0@, p.1@)),
            ),
        }
    }
}

} // verus!
