use vstd::prelude::*;

verus! {

/// A scalar value exchanged between producers and the store.
///
/// Floating-point kinds are carried as their IEEE-754 bit patterns.
#[derive(Debug, Clone, PartialEq, Eq)]
pub enum Datatype {
    I32(i32),
    I64(i64),
    U32(u32),
    U64(u64),
    Float(u32),
    Double(u64),
    Bool(bool),
    String(String),
}

/// The current state of one signal, keyed by its numeric id.
///
/// A row exists only once a value has been published for its id.
#[derive(Debug, Clone, PartialEq, Eq)]
pub struct Datapoint {
    pub id: u32,
    pub value: Datatype,
    pub target_value: Option<Datatype>,
}

} // verus!
