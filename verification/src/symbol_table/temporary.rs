//! The entry of an intermediate storage area for an expression.
use crate::symbol_table::sizes::{base_size, is_primitive, size_of};
use crate::text::{push_str, string_of};
use vstd::prelude::*;

verus! {

/// An intermediate value: an identifier, a data type and its size once computed.
#[derive(Debug, Clone, Default)]
pub struct Temporary {
    pub id: String,
    pub data_type: String,
    pub bytes: usize,
    pub line: usize,
    pub column: usize,
}

/// The description of a temporary: "Temporary value <data type> <id>".
pub open spec fn temporary_text(t: Temporary) -> Seq<char> {
    "Temporary value "@ + t.data_type@ + " "@ + t.id@
}

impl Temporary {
    /// A temporary of `data_type` named `id`, whose size is not computed yet.
    pub fn new(id: &str, data_type: &str, line: usize, column: usize) -> (r: Temporary)
        ensures
            r.id@ == id@,
            r.data_type@ == data_type@,
            r.bytes == 0,
            r.line == line,
            r.column == column,
    {
        Temporary { id: id.to_owned(), data_type: data_type.to_owned(), bytes: 0, line, column }
    }

    /// Computes the size of the value, records it and returns it.
    pub fn computed_size(&mut self) -> (r: usize)
        requires
            is_primitive(old(self).data_type@),
        ensures
            r == base_size(old(self).data_type@),
            *final(self) == (Temporary { bytes: r, ..*old(self) }),
    {
        let none: Vec<i64> = Vec::new();
        let size = size_of(self.data_type.as_str(), &none);
        self.bytes = size;
        size
    }

    /// "Temporary value <data type> <id>".
    pub fn describe(&self) -> (r: String)
        ensures
            r@ == temporary_text(*self),
    {
        let mut r = string_of("Temporary value ");
        push_str(&mut r, self.data_type.as_str());
        push_str(&mut r, " ");
        push_str(&mut r, self.id.as_str());
        r
    }

    pub fn id(&self) -> (r: &String)
        ensures
            r == &self.id,
    {
        &self.id
    }
}

} // verus!
