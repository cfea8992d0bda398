//! The record kept in the assistant's local store.
//!
//! Opening the store and reading or writing rows is the application's
//! concern; the library only defines the row's shape.

use vstd::prelude::*;

verus! {

/// One row of the person table.
pub struct Person {
    pub id: i32,
    pub name: String,
    pub data: Option<Vec<u8>>,
}

impl Person {
    /// Builds a row from its parts.
    pub fn new(id: i32, name: String, data: Option<Vec<u8>>) -> (p: Person)
        ensures
            p.id == id,
            p.name == name,
            p.data == data,
    {
        Person { id, name, data }
    }
}

} // verus!
