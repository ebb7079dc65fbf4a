//! The entry of a function parameter.
use crate::declarations::FunctionParameter;
use crate::symbol_table::utils::{parameter_type_string, parameter_type_text};
use crate::text::{push_str, string_of};
use vstd::prelude::*;
use vstd::std_specs::cmp::PartialEqSpecImpl;

verus! {

/// A parameter in the symbol table of a function: an identifier, a data type, and a
/// list of dimensions each of which may be left unspecified.
#[derive(Debug, Clone, Default)]
pub struct Param {
    pub id: String,
    pub data_type: String,
    pub dimension: Vec<Option<i64>>,
    pub line: usize,
    pub column: usize,
}

/// Two parameter lists have the same length and the same data types, position by
/// position.
pub open spec fn same_parameter_types(a: Seq<Param>, b: Seq<Param>) -> bool {
    &&& a.len() == b.len()
    &&& forall|i: int| 0 <= i < a.len() ==> #[trigger] a[i].data_type@ == b[i].data_type@
}

/// `p` is the parameter made from the declared parameter `fp`.
pub open spec fn param_made_from(p: Param, fp: FunctionParameter) -> bool {
    &&& p.id@ == fp.id@
    &&& p.data_type@ == fp.data_type@
    &&& p.dimension@ == fp.dimension_list.dimensions@
    &&& p.line == fp.line
    &&& p.column == fp.column
}

/// The description of a parameter: "Parameter <data type> <id>".
pub open spec fn param_text(p: Param) -> Seq<char> {
    "Parameter "@ + p.data_type@ + " "@ + p.id@
}

impl PartialEq for Param {
    /// Parameters are equal where their data types are.
    fn eq(&self, other: &Param) -> (r: bool) {
        self.data_type == other.data_type
    }
}

impl PartialEqSpecImpl for Param {
    open spec fn obeys_eq_spec() -> bool {
        true
    }

    open spec fn eq_spec(&self, other: &Param) -> bool {
        self.data_type@ == other.data_type@
    }
}

impl Param {
    /// The entry of the parameter `function_parameter`.
    pub fn from(function_parameter: &FunctionParameter) -> (r: Param)
        ensures
            r.id@ == function_parameter.id@,
            r.data_type@ == function_parameter.data_type@,
            r.dimension@ == function_parameter.dimension_list.dimensions@,
            r.line == function_parameter.line,
            r.column == function_parameter.column,
            param_made_from(r, *function_parameter),
    {
        Param {
            id: function_parameter.id.clone(),
            data_type: function_parameter.data_type.clone(),
            dimension: function_parameter.dimension_list.dimensions.clone(),
            line: function_parameter.line,
            column: function_parameter.column,
        }
    }

    /// The type signature of the parameter, as in `integer[][4]`.
    pub fn type_string(&self) -> (r: String)
        ensures
            r@ == parameter_type_text(self.data_type@, self.dimension@),
    {
        parameter_type_string(self.data_type.as_str(), self.dimension.as_slice())
    }

    /// "Parameter <data type> <id>".
    pub fn describe(&self) -> (r: String)
        ensures
            r@ == param_text(*self),
    {
        let mut r = string_of("Parameter ");
        push_str(&mut r, self.data_type.as_str());
        push_str(&mut r, " ");
        push_str(&mut r, self.id.as_str());
        r
    }

    pub fn id(&self) -> (r: &String)
        ensures
            r == &self.id,
    {
        &self.id
    }

    pub fn data_type(&self) -> (r: &String)
        ensures
            r == &self.data_type,
    {
        &self.data_type
    }

    pub fn dimension(&self) -> (r: &Vec<Option<i64>>)
        ensures
            r == &self.dimension,
    {
        &self.dimension
    }

    pub fn line(&self) -> (r: &usize)
        ensures
            r == &self.line,
    {
        &self.line
    }

    pub fn column(&self) -> (r: &usize)
        ensures
            r == &self.column,
    {
        &self.column
    }
}

} // verus!
