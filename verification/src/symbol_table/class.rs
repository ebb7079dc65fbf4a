//! The entry of a class.
use crate::declarations::ClassDeclaration;
use crate::symbol_table::symbol_table::SymbolTable;
use crate::text::{copy_strings, push_str, string_of};
use vstd::prelude::*;

verus! {

/// A class: an identifier that names a compound type, the classes that it inherits
/// from, and a nested table of its member functions and variables.
#[derive(Debug, Default)]
pub struct Class {
    pub id: String,
    pub inheritance_list: Vec<String>,
    pub symbol_table: SymbolTable,
    pub bytes: usize,
    pub line: usize,
    pub column: usize,
}

/// The description of a class: "Class <id>".
pub open spec fn class_text(c: Class) -> Seq<char> {
    "Class "@ + c.id@
}

impl Class {
    /// The entry of `class_declaration`, with an empty table named after the class.
    pub fn from(class_declaration: &ClassDeclaration) -> (r: Class)
        ensures
            r.id@ == class_declaration.id@,
            r.inheritance_list.len() == class_declaration.inheritance_list.len(),
            forall|i: int| 0 <= i < r.inheritance_list.len() ==> #[trigger] r.inheritance_list@[i]@
                == class_declaration.inheritance_list@[i]@,
            r.symbol_table.is_new(class_declaration.id@, None),
            r.bytes == 0,
            r.line == class_declaration.line,
            r.column == class_declaration.column,
    {
        Class {
            id: class_declaration.id.clone(),
            symbol_table: SymbolTable::new(class_declaration.id.as_str()),
            inheritance_list: copy_strings(&class_declaration.inheritance_list),
            bytes: 0,
            line: class_declaration.line,
            column: class_declaration.column,
        }
    }

    /// The type that the class names: its identifier.
    pub fn resultant_type(&self) -> (r: &str)
        ensures
            r@ == self.id@,
    {
        self.id.as_str()
    }

    /// The table of the class's members, to be changed.
    pub fn symbol_table_mut(&mut self) -> (r: &mut SymbolTable)
        ensures
            *r == old(self).symbol_table,
            *final(self) == (Class { symbol_table: *final(r), ..*old(self) }),
    {
        &mut self.symbol_table
    }

    /// "Class <id>".
    pub fn describe(&self) -> (r: String)
        ensures
            r@ == class_text(*self),
    {
        let mut r = string_of("Class ");
        push_str(&mut r, self.id.as_str());
        r
    }

    pub fn id(&self) -> (r: &String)
        ensures
            r == &self.id,
    {
        &self.id
    }

    pub fn inheritance_list(&self) -> (r: &Vec<String>)
        ensures
            r == &self.inheritance_list,
    {
        &self.inheritance_list
    }

    pub fn symbol_table(&self) -> (r: &SymbolTable)
        ensures
            r == &self.symbol_table,
    {
        &self.symbol_table
    }
}

} // verus!
