//! The entry of a free function or of a member function of a class.
use crate::declarations::{ClassFunctionDeclaration, FunctionBody, FunctionDefinition, FunctionParameter};
use crate::symbol_table::param::{param_made_from, same_parameter_types, Param};
use crate::symbol_table::symbol_table::SymbolTable;
use crate::symbol_table::utils::parameter_type_text;
use crate::text::{copy_option_string, copy_string, joined, option_text, push_char, push_str, str_eq, string_of};
use crate::visibility::{visibility_text, Visibility};
use vstd::prelude::*;
use vstd::std_specs::cmp::PartialEqSpecImpl;

verus! {

/// A function: its identifier, the class it belongs to if it is a member function, its
/// parameters, its return type (none for `void`), its visibility if it is a member
/// function, a table of its parameters and local variables, and whether it has been
/// defined (a member function is declared first and defined later).
#[derive(Debug, Default)]
pub struct Function {
    pub id: String,
    pub scope: Option<String>,
    pub parameter_types: Vec<Param>,
    pub return_type: Option<String>,
    pub visibility: Option<Visibility>,
    pub symbol_table: SymbolTable,
    pub defined: bool,
    pub line: usize,
    pub column: usize,
}

/// The type signatures of the parameters of `f`, in order.
pub open spec fn parameter_texts(ps: Seq<Param>) -> Seq<Seq<char>> {
    Seq::new(ps.len(), |i: int| parameter_type_text(ps[i].data_type@, ps[i].dimension@))
}

/// The signature of a function: its parameter types between brackets, separated by
/// commas, as in `(integer,float[])`.
pub open spec fn signature_text(f: Function) -> Seq<char> {
    seq!['('] + joined(parameter_texts(f.parameter_types@), seq![',']) + seq![')']
}

/// The description of a function: "Function ", its visibility and a space if it has
/// one, then its identifier and signature.
pub open spec fn function_text(f: Function) -> Seq<char> {
    "Function "@ + match f.visibility {
        Some(v) => visibility_text(v) + " "@,
        None => Seq::empty(),
    } + f.id@ + signature_text(f)
}

/// Two functions are the same function: same identifier and same parameter types.
pub open spec fn same_function(a: Function, b: Function) -> bool {
    a.id@ == b.id@ && same_parameter_types(a.parameter_types@, b.parameter_types@)
}

/// `ps` are the parameters made from the declared parameters `fps`, in order.
pub open spec fn parameters_made_from(ps: Seq<Param>, fps: Seq<FunctionParameter>) -> bool {
    &&& ps.len() == fps.len()
    &&& forall|i: int| 0 <= i < ps.len() ==> #[trigger] param_made_from(ps[i], fps[i])
}

/// Whether two lists of parameters have the same data types, position by position.
pub fn same_types(a: &Vec<Param>, b: &Vec<Param>) -> (r: bool)
    ensures
        r == same_parameter_types(a@, b@),
{
    if a.len() != b.len() {
        return false;
    }
    let mut i: usize = 0;
    while i < a.len()
        invariant
            a.len() == b.len(),
            i <= a.len(),
            forall|k: int| 0 <= k < i ==> #[trigger] a@[k].data_type@ == b@[k].data_type@,
        decreases a.len() - i,
    {
        if !str_eq(a[i].data_type.as_str(), b[i].data_type.as_str()) {
            return false;
        }
        i += 1;
    }
    true
}

/// The parameters made from the declared parameters `fps`.
fn parameters_from(fps: &Vec<FunctionParameter>) -> (r: Vec<Param>)
    ensures
        parameters_made_from(r@, fps@),
{
    let mut r: Vec<Param> = Vec::new();
    let mut i: usize = 0;
    while i < fps.len()
        invariant
            i <= fps.len(),
            r.len() == i,
            forall|k: int| 0 <= k < i ==> #[trigger] param_made_from(r@[k], fps@[k]),
        decreases fps.len() - i,
    {
        r.push(Param::from(&fps[i]));
        i += 1;
    }
    r
}

impl PartialEq for Function {
    /// Functions are equal where their identifiers and parameter types are.
    fn eq(&self, other: &Function) -> (r: bool) {
        str_eq(self.id.as_str(), other.id.as_str()) && same_types(&self.parameter_types, &other.parameter_types)
    }
}

impl PartialEqSpecImpl for Function {
    open spec fn obeys_eq_spec() -> bool {
        true
    }

    open spec fn eq_spec(&self, other: &Function) -> bool {
        same_function(*self, *other)
    }
}

impl Function {
    /// Whether the function is a member of a class.
    pub fn is_class_member(&self) -> (r: bool)
        ensures
            r == self.scope is Some,
    {
        self.scope.is_some()
    }

    /// Whether the function has been defined.
    pub fn is_defined(&self) -> (r: bool)
        ensures
            r == self.defined,
    {
        self.defined
    }

    /// The entry of the program's entry point, `main`, whose body is `validated_node`:
    /// a defined free function without parameters or return type.
    pub fn create_main(validated_node: &FunctionBody) -> (r: Function)
        ensures
            r.id@ == "main"@,
            r.scope is None,
            r.parameter_types@.len() == 0,
            r.return_type is None,
            r.visibility is None,
            r.symbol_table.is_new("main"@, None),
            r.defined,
            r.line == validated_node.line,
            r.column == validated_node.column,
    {
        Function {
            id: string_of("main"),
            scope: None,
            parameter_types: Vec::new(),
            return_type: None,
            visibility: None,
            symbol_table: SymbolTable::new("main"),
            defined: true,
            line: validated_node.line,
            column: validated_node.column,
        }
    }

    /// The entry of a function definition: a defined function without visibility, whose
    /// table is named after it and scoped by its class, if it has one.
    pub fn from_definition(validated_node: &FunctionDefinition) -> (r: Function)
        ensures
            r.id@ == validated_node.id@,
            option_text(r.scope) == option_text(validated_node.scope),
            parameters_made_from(r.parameter_types@, validated_node.parameter_list.parameters@),
            option_text(r.return_type) == option_text(validated_node.return_type),
            r.visibility is None,
            r.symbol_table.is_new(validated_node.id@, option_text(validated_node.scope)),
            r.defined,
            r.line == validated_node.line,
            r.column == validated_node.column,
    {
        let scope = copy_option_string(&validated_node.scope);
        let table = match &validated_node.scope {
            Some(s) => SymbolTable::scoped_new(validated_node.id.as_str(), Some(s.as_str())),
            None => SymbolTable::scoped_new(validated_node.id.as_str(), None),
        };
        Function {
            id: copy_string(&validated_node.id),
            scope,
            parameter_types: parameters_from(&validated_node.parameter_list.parameters),
            return_type: copy_option_string(&validated_node.return_type),
            visibility: None,
            symbol_table: table,
            defined: true,
            line: validated_node.line,
            column: validated_node.column,
        }
    }

    /// The entry of the declaration of a member function of `parent_class`: a function
    /// declared but not yet defined.
    pub fn from_declaration(validated_node: &ClassFunctionDeclaration, parent_class: &str) -> (r: Function)
        ensures
            r.id@ == validated_node.id@,
            r.scope is Some && r.scope->0@ == parent_class@,
            parameters_made_from(r.parameter_types@, validated_node.parameter_list.parameters@),
            option_text(r.return_type) == option_text(validated_node.return_type),
            r.visibility == Some(validated_node.visibility),
            r.symbol_table.is_new(validated_node.id@, Some(parent_class@)),
            !r.defined,
            r.line == validated_node.line,
            r.column == validated_node.column,
    {
        Function {
            id: copy_string(&validated_node.id),
            scope: Some(string_of(parent_class)),
            parameter_types: parameters_from(&validated_node.parameter_list.parameters),
            return_type: copy_option_string(&validated_node.return_type),
            visibility: Some(validated_node.visibility),
            symbol_table: SymbolTable::scoped_new(validated_node.id.as_str(), Some(parent_class)),
            defined: false,
            line: validated_node.line,
            column: validated_node.column,
        }
    }

    /// The return type, or "void" for a function that returns nothing.
    pub fn return_type_as_string(&self) -> (r: String)
        ensures
            r@ == match self.return_type {
                Some(t) => t@,
                None => "void"@,
            },
    {
        match &self.return_type {
            Some(return_type) => return_type.clone(),
            None => string_of("void"),
        }
    }

    /// The parameter types between brackets, separated by commas.
    pub fn signature(&self) -> (r: String)
        ensures
            r@ == signature_text(*self),
    {
        let mut types: Vec<String> = Vec::new();
        let mut i: usize = 0;
        while i < self.parameter_types.len()
            invariant
                i <= self.parameter_types.len(),
                types.len() == i,
                forall|k: int| 0 <= k < i ==> #[trigger] types@[k]@ == parameter_texts(self.parameter_types@)[k],
            decreases self.parameter_types.len() - i,
        {
            types.push(self.parameter_types[i].type_string());
            i += 1;
        }
        let list = crate::utils::separated_list(types.as_slice(), ",");
        assert(crate::symbol_table::inherit::texts(types@) =~= parameter_texts(self.parameter_types@));
        let mut r = String::new();
        push_char(&mut r, '(');
        push_str(&mut r, list.as_str());
        push_char(&mut r, ')');
        assert(","@ =~= seq![',']) by {
            reveal_strlit(",");
        }
        assert(r@ =~= signature_text(*self));
        r
    }

    /// Whether two functions have the same identifier, parameter types and return type.
    pub fn signature_eq(lhs: &Function, rhs: &Function) -> (r: bool)
        ensures
            r == (same_function(*lhs, *rhs) && option_text(lhs.return_type) == option_text(rhs.return_type)),
    {
        if !str_eq(lhs.id.as_str(), rhs.id.as_str()) {
            return false;
        }
        if !same_types(&lhs.parameter_types, &rhs.parameter_types) {
            return false;
        }
        match (&lhs.return_type, &rhs.return_type) {
            (Some(a), Some(b)) => str_eq(a.as_str(), b.as_str()),
            (None, None) => true,
            _ => false,
        }
    }

    /// "Function ", the visibility if any, the identifier and the signature.
    pub fn describe(&self) -> (r: String)
        ensures
            r@ == function_text(*self),
    {
        let mut r = string_of("Function ");
        match self.visibility {
            Some(v) => {
                let t = v.text();
                push_str(&mut r, t.as_str());
                push_str(&mut r, " ");
            },
            None => {},
        }
        push_str(&mut r, self.id.as_str());
        let s = self.signature();
        push_str(&mut r, s.as_str());
        assert(r@ =~= function_text(*self));
        r
    }

    /// The table of the function's parameters and local variables, to be changed.
    pub fn symbol_table_mut(&mut self) -> (r: &mut SymbolTable)
        ensures
            *r == old(self).symbol_table,
            *final(self) == (Function { symbol_table: *final(r), ..*old(self) }),
    {
        &mut self.symbol_table
    }

    /// Records that the function has been defined.
    pub fn set_defined(&mut self)
        ensures
            *final(self) == (Function { defined: true, ..*old(self) }),
    {
        self.defined = true;
    }

    pub fn id(&self) -> (r: &String)
        ensures
            r == &self.id,
    {
        &self.id
    }

    pub fn scope(&self) -> (r: &Option<String>)
        ensures
            r == &self.scope,
    {
        &self.scope
    }

    pub fn parameter_types(&self) -> (r: &Vec<Param>)
        ensures
            r == &self.parameter_types,
    {
        &self.parameter_types
    }

    pub fn symbol_table(&self) -> (r: &SymbolTable)
        ensures
            r == &self.symbol_table,
    {
        &self.symbol_table
    }
}

} // verus!
