//! The declarations of a program that symbol table entries are made from: what the
//! checked syntax tree holds of each declaration.
use crate::visibility::Visibility;
use vstd::prelude::*;

verus! {

/// The array dimensions of a declaration (`[5][]`), with their position.
pub struct DimensionList {
    pub dimensions: Vec<Option<i64>>,
    pub line: usize,
    pub column: usize,
}

/// A member variable of a class.
pub struct ClassVariable {
    pub id: String,
    pub visibility: Visibility,
    pub data_type: String,
    pub dimension_list: DimensionList,
    pub line: usize,
    pub column: usize,
}

/// A local variable of a function.
pub struct Variable {
    pub id: String,
    pub data_type: String,
    pub dimension_list: DimensionList,
    pub line: usize,
    pub column: usize,
}

/// A parameter of a function.
pub struct FunctionParameter {
    pub id: String,
    pub data_type: String,
    pub dimension_list: DimensionList,
    pub line: usize,
    pub column: usize,
}

/// The parameters of a function.
pub struct ParameterList {
    pub parameters: Vec<FunctionParameter>,
}

/// A function definition; `scope` names the class of a member function.
pub struct FunctionDefinition {
    pub id: String,
    pub scope: Option<String>,
    pub parameter_list: ParameterList,
    pub return_type: Option<String>,
    pub line: usize,
    pub column: usize,
}

/// The declaration of a member function inside a class.
pub struct ClassFunctionDeclaration {
    pub id: String,
    pub visibility: Visibility,
    pub parameter_list: ParameterList,
    pub return_type: Option<String>,
    pub line: usize,
    pub column: usize,
}

/// A class declaration with the classes that it inherits from.
pub struct ClassDeclaration {
    pub id: String,
    pub inheritance_list: Vec<String>,
    pub line: usize,
    pub column: usize,
}

/// The body of a function: its local variables.
pub struct FunctionBody {
    pub local_variables: Vec<Variable>,
    pub line: usize,
    pub column: usize,
}

} // verus!
