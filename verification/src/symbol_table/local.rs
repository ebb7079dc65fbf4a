//! The entry of a local variable.
use crate::declarations::Variable;
use crate::symbol_table::utils::{type_string, type_text};
use crate::text::{push_str, string_of};
use vstd::prelude::*;

verus! {

/// A variable declared in a function: an identifier, a data type and fully specified
/// dimensions.
#[derive(Debug, Clone, Default)]
pub struct Local {
    pub id: String,
    pub data_type: String,
    pub dimension: Vec<i64>,
    pub line: usize,
    pub column: usize,
}

/// The specified dimensions of a declaration, in order; unspecified ones are left out.
pub open spec fn specified_dimensions(dims: Seq<Option<i64>>) -> Seq<i64>
    decreases dims.len(),
{
    if dims.len() == 0 {
        Seq::empty()
    } else {
        match dims.last() {
            Some(d) => specified_dimensions(dims.drop_last()).push(d),
            None => specified_dimensions(dims.drop_last()),
        }
    }
}

/// The specified dimensions of `dims`, in order.
pub fn collect_dimensions(dims: &Vec<Option<i64>>) -> (r: Vec<i64>)
    ensures
        r@ == specified_dimensions(dims@),
{
    let mut r: Vec<i64> = Vec::new();
    let mut i: usize = 0;
    assert(dims@.take(0) =~= Seq::<Option<i64>>::empty());
    while i < dims.len()
        invariant
            i <= dims.len(),
            r@ == specified_dimensions(dims@.take(i as int)),
        decreases dims.len() - i,
    {
        assert(dims@.take(i + 1).drop_last() =~= dims@.take(i as int));
        match dims[i] {
            Some(d) => r.push(d),
            None => {},
        }
        i += 1;
    }
    assert(dims@.take(i as int) =~= dims@);
    r
}

/// `l` is the local variable made from the declaration `v`.
pub open spec fn local_made_from(l: Local, v: Variable) -> bool {
    &&& l.id@ == v.id@
    &&& l.data_type@ == v.data_type@
    &&& l.dimension@ == specified_dimensions(v.dimension_list.dimensions@)
    &&& l.line == v.line
    &&& l.column == v.column
}

/// The description of a local variable: "Local variable <type> <id>".
pub open spec fn local_text(l: Local) -> Seq<char> {
    "Local variable "@ + type_text(l.data_type@, l.dimension@) + " "@ + l.id@
}

impl Local {
    /// The entry of the local variable `variable`; its unspecified dimensions are left out.
    pub fn from(variable: &Variable) -> (r: Local)
        ensures
            r.id@ == variable.id@,
            r.data_type@ == variable.data_type@,
            r.dimension@ == specified_dimensions(variable.dimension_list.dimensions@),
            r.line == variable.line,
            r.column == variable.column,
            local_made_from(r, *variable),
    {
        let dimensions = collect_dimensions(&variable.dimension_list.dimensions);
        Local {
            id: variable.id.clone(),
            data_type: variable.data_type.clone(),
            dimension: dimensions,
            line: variable.line,
            column: variable.column,
        }
    }

    /// The type signature of the variable, as in `integer[5][4]`.
    pub fn type_string(&self) -> (r: String)
        ensures
            r@ == type_text(self.data_type@, self.dimension@),
    {
        type_string(self.data_type.as_str(), self.dimension.as_slice())
    }

    /// "Local variable <type> <id>".
    pub fn describe(&self) -> (r: String)
        ensures
            r@ == local_text(*self),
    {
        let mut r = string_of("Local variable ");
        let t = self.type_string();
        push_str(&mut r, t.as_str());
        push_str(&mut r, " ");
        push_str(&mut r, self.id.as_str());
        r
    }

    pub fn id(&self) -> (r: &String)
        ensures
            r == &self.id,
    {
        &self.id
    }

    pub fn data_type(&self) -> (r: &String)
        ensures
            r == &self.data_type,
    {
        &self.data_type
    }

    pub fn dimension(&self) -> (r: &Vec<i64>)
        ensures
            r == &self.dimension,
    {
        &self.dimension
    }
}

} // verus!
