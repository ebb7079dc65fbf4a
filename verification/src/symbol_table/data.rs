//! The entry of a class member variable.
use crate::declarations::ClassVariable;
use crate::symbol_table::local::{collect_dimensions, specified_dimensions};
use crate::symbol_table::sizes::{base_size, is_primitive, size_fits, size_of, size_product};
use crate::symbol_table::utils::{type_string, type_text};
use crate::text::{push_str, string_of};
use crate::visibility::{visibility_text, Visibility};
use vstd::prelude::*;

verus! {

/// A member variable of a class: an identifier, a visibility, a data type with fully
/// specified dimensions, and its size once computed.
#[derive(Debug, Clone, Default)]
pub struct Data {
    pub id: String,
    pub visibility: Visibility,
    pub data_type: String,
    pub dimension: Vec<i64>,
    pub bytes: usize,
    pub line: usize,
    pub column: usize,
}

/// The description of a member variable: "Member variable <visibility> <type> <id>".
pub open spec fn data_text(d: Data) -> Seq<char> {
    "Member variable "@ + visibility_text(d.visibility) + " "@ + type_text(d.data_type@, d.dimension@)
        + " "@ + d.id@
}

impl Data {
    /// The entry of the member variable `class_variable`; its unspecified dimensions are
    /// left out, and its size is not computed yet.
    pub fn from(class_variable: &ClassVariable) -> (r: Data)
        ensures
            r.id@ == class_variable.id@,
            r.visibility == class_variable.visibility,
            r.data_type@ == class_variable.data_type@,
            r.dimension@ == specified_dimensions(class_variable.dimension_list.dimensions@),
            r.bytes == 0,
            r.line == class_variable.line,
            r.column == class_variable.column,
    {
        let dimensions = collect_dimensions(&class_variable.dimension_list.dimensions);
        Data {
            id: class_variable.id.clone(),
            visibility: class_variable.visibility,
            data_type: class_variable.data_type.clone(),
            dimension: dimensions,
            bytes: 0,
            line: class_variable.line,
            column: class_variable.column,
        }
    }

    /// The type signature of the variable, as in `integer[5][4]`.
    pub fn type_string(&self) -> (r: String)
        ensures
            r@ == type_text(self.data_type@, self.dimension@),
    {
        type_string(self.data_type.as_str(), self.dimension.as_slice())
    }

    /// Computes the size of the variable, records it and returns it.
    pub fn computed_size(&mut self) -> (r: usize)
        requires
            is_primitive(old(self).data_type@),
            size_fits(base_size(old(self).data_type@), old(self).dimension@),
        ensures
            r == size_product(base_size(old(self).data_type@), old(self).dimension@),
            *final(self) == (Data { bytes: r, ..*old(self) }),
    {
        let size = size_of(self.data_type.as_str(), &self.dimension);
        self.bytes = size;
        size
    }

    /// "Member variable <visibility> <type> <id>".
    pub fn describe(&self) -> (r: String)
        ensures
            r@ == data_text(*self),
    {
        let mut r = string_of("Member variable ");
        let v = self.visibility.text();
        push_str(&mut r, v.as_str());
        push_str(&mut r, " ");
        let t = self.type_string();
        push_str(&mut r, t.as_str());
        push_str(&mut r, " ");
        push_str(&mut r, self.id.as_str());
        r
    }

    pub fn id(&self) -> (r: &String)
        ensures
            r == &self.id,
    {
        &self.id
    }

    pub fn bytes(&self) -> (r: &usize)
        ensures
            r == &self.bytes,
    {
        &self.bytes
    }
}

} // verus!
