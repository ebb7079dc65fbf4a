use analyzer::declarations::{DimensionList, FunctionDefinition, FunctionParameter, ParameterList, Variable};
use analyzer::semantic_error::SemanticError;
use analyzer::symbol_table::function::Function;
use analyzer::symbol_table::local::Local;
use analyzer::symbol_table::param::Param;
use analyzer::symbol_table::symbol_table::{SymbolTable, SymbolTableEntry};
use analyzer::type_check::{
    a_params_correct, check_binary_types, check_relational_type, check_return_type, data_member, data_member_type, f_call,
    func_def, no_overload, parameter_data_member_exception, select_free_overload, select_free_overload_mut, type_node, mandatory_indexlist, Argument, Index,
};

fn dims(d: Vec<Option<i64>>) -> DimensionList {
    DimensionList { dimensions: d, line: 1, column: 1 }
}

fn parameter(id: &str, data_type: &str, d: Vec<Option<i64>>) -> FunctionParameter {
    FunctionParameter { id: id.to_string(), data_type: data_type.to_string(), dimension_list: dims(d), line: 2, column: 3 }
}

fn free_function(id: &str, parameters: Vec<FunctionParameter>, return_type: Option<&str>, line: usize) -> Function {
    Function::from_definition(&FunctionDefinition {
        id: id.to_string(),
        scope: None,
        parameter_list: ParameterList { parameters },
        return_type: return_type.map(|t| t.to_string()),
        line,
        column: 1,
    })
}

fn argument(data_type: &str, dimensions: Option<usize>) -> Argument {
    Argument { data_type: data_type.to_string(), dimensions }
}

fn global_with_overloads() -> SymbolTable {
    let mut global = SymbolTable::new("global");
    global.add_entry(SymbolTableEntry::Function(free_function(
        "f",
        vec![parameter("a", "integer", vec![])],
        Some("integer"),
        10,
    )));
    global.add_entry(SymbolTableEntry::Function(free_function(
        "f",
        vec![parameter("a", "float", vec![Some(3), None])],
        Some("float"),
        20,
    )));
    global.add_entry(SymbolTableEntry::Function(free_function(
        "f",
        vec![parameter("b", "float", vec![])],
        None,
        30,
    )));
    global
}

fn context_with_variables() -> SymbolTable {
    let mut context = SymbolTable::scoped_new("f", None);
    context.add_entry(SymbolTableEntry::Local(Local::from(&Variable {
        id: "m".to_string(),
        data_type: "integer".to_string(),
        dimension_list: dims(vec![Some(2), Some(3)]),
        line: 4,
        column: 5,
    })));
    context.add_entry(SymbolTableEntry::Param(Param::from(&parameter("p", "float", vec![]))));
    context
}

#[test]
fn test_binary_types_agree() {
    match check_binary_types("integer", "integer", 3, 4) {
        Ok(t) => assert_eq!(t, "integer"),
        Err(_) => panic!("same types must agree"),
    }
    match check_binary_types("integer", "float", 3, 4) {
        Err(SemanticError::BinaryType(3, 4, l, r)) => {
            assert_eq!(l, "integer");
            assert_eq!(r, "float");
        }
        _ => panic!("different types must not agree"),
    }
}

#[test]
fn test_relational_types() {
    assert!(check_relational_type("integer", 1, 1).is_none());
    assert!(check_relational_type("float", 1, 1).is_none());
    match check_relational_type("string", 6, 7) {
        Some(SemanticError::InvalidRelop(6, 7, t)) => assert_eq!(t, "string"),
        _ => panic!("a string is not ordered"),
    }
}

#[test]
fn test_select_free_overload() {
    let global = global_with_overloads();
    match select_free_overload("f", &["float".to_string()], &global) {
        Ok(f) => {
            assert_eq!(f.line, 20);
            assert_eq!(f.return_type, Some("float".to_string()));
        }
        Err(_) => panic!("the array overload takes a float, dimensions aside"),
    }
    match select_free_overload("f", &["integer".to_string()], &global) {
        Ok(f) => assert_eq!(f.line, 10),
        Err(_) => panic!("the first overload takes an integer"),
    }
    assert!(matches!(select_free_overload("f", &["string".to_string()], &global), Err(Some(()))));
    assert!(matches!(select_free_overload("g", &[], &global), Err(None)));
    assert!(matches!(
        select_free_overload("f", &["integer".to_string(), "integer".to_string()], &global),
        Err(Some(()))
    ));
}

#[test]
fn test_a_params_correct() {
    let f = free_function("f", vec![parameter("a", "integer", vec![Some(2), None]), parameter("b", "float", vec![])], None, 1);
    let ok = a_params_correct(&vec![argument("integer", Some(2)), argument("float", None)], &f, 8, 9);
    assert!(ok.is_empty());
    let errors = a_params_correct(&vec![argument("integer", Some(1))], &f, 8, 9);
    assert_eq!(errors.len(), 2);
    match &errors[0] {
        SemanticError::IncorrectNumberArguments(8, 9, 1, 2) => {}
        e => panic!("unexpected {:?}", e),
    }
    match &errors[1] {
        SemanticError::IncorrectType(8, 9, found, expected) => {
            assert_eq!(found, "integer[]");
            assert_eq!(expected, "integer[2][]");
        }
        e => panic!("unexpected {:?}", e),
    }
    let plain = a_params_correct(&vec![argument("integer", None), argument("float", Some(1))], &f, 8, 9);
    assert_eq!(plain.len(), 2);
    match &plain[0] {
        SemanticError::IncorrectType(8, 9, found, expected) => {
            assert_eq!(found, "integer");
            assert_eq!(expected, "integer[2][]");
        }
        e => panic!("unexpected {:?}", e),
    }
    match &plain[1] {
        SemanticError::IncorrectType(8, 9, found, expected) => {
            assert_eq!(found, "float[]");
            assert_eq!(expected, "float");
        }
        e => panic!("unexpected {:?}", e),
    }
}

#[test]
fn test_data_member() {
    let context = context_with_variables();
    assert!(data_member(&context, "m", Some(2), 1, 1).is_none());
    assert!(data_member(&context, "m", None, 1, 1).is_none());
    match data_member(&context, "m", Some(1), 5, 6) {
        Some(SemanticError::InvalidArrayDimension(5, 6, 1, 2)) => {}
        e => panic!("unexpected {:?}", e),
    }
    assert!(data_member(&context, "p", Some(0), 1, 1).is_none());
    match data_member(&context, "q", None, 7, 8) {
        Some(SemanticError::UndefinedIdentifier(7, 8, id)) => assert_eq!(id, "q"),
        e => panic!("unexpected {:?}", e),
    }
}

#[test]
fn test_parameter_data_member_exception() {
    let context = context_with_variables();
    let (d, e) = parameter_data_member_exception(&context, "m", None, 1, 1);
    assert_eq!(d, Some(2));
    assert!(e.is_none());
    let (d, e) = parameter_data_member_exception(&context, "m", Some(0), 1, 1);
    assert_eq!(d, Some(2));
    assert!(e.is_none());
    let (d, e) = parameter_data_member_exception(&context, "m", Some(2), 1, 1);
    assert_eq!(d, None);
    assert!(e.is_none());
    let (d, e) = parameter_data_member_exception(&context, "m", Some(3), 2, 3);
    assert_eq!(d, None);
    assert!(matches!(e, Some(SemanticError::InvalidArrayDimension(2, 3, 3, 2))));
    let (d, e) = parameter_data_member_exception(&context, "p", None, 1, 1);
    assert_eq!(d, Some(0));
    assert!(e.is_none());
    let (d, e) = parameter_data_member_exception(&context, "z", None, 4, 4);
    assert_eq!(d, None);
    assert!(matches!(e, Some(SemanticError::UndefinedIdentifier(4, 4, _))));
}

#[test]
fn test_check_return_type() {
    assert!(check_return_type(&Some("integer".to_string()), &Some("integer".to_string()), 1, 1).is_none());
    assert!(check_return_type(&None, &None, 1, 1).is_none());
    match check_return_type(&None, &Some("float".to_string()), 2, 2) {
        Some(SemanticError::IncorrectType(2, 2, found, declared)) => {
            assert_eq!(found, "void");
            assert_eq!(declared, "float");
        }
        e => panic!("unexpected {:?}", e),
    }
    match check_return_type(&Some("integer".to_string()), &Some("float".to_string()), 2, 2) {
        Some(SemanticError::IncorrectType(2, 2, found, declared)) => {
            assert_eq!(found, "integer");
            assert_eq!(declared, "float");
        }
        e => panic!("unexpected {:?}", e),
    }
}

#[test]
fn test_no_overload_lists_the_types() {
    match no_overload("f", &["integer".to_string(), "float".to_string()], 3, 3) {
        SemanticError::NoOverload(3, 3, id, types) => {
            assert_eq!(id, "f");
            assert_eq!(types, "integer, float");
        }
        e => panic!("unexpected {:?}", e),
    }
}

#[test]
fn test_f_call() {
    let global = global_with_overloads();
    let (t, errors) = f_call("f", &vec![argument("float", Some(1))], &global, 5, 5, 6, 6);
    assert_eq!(t, Some("float".to_string()));
    assert_eq!(errors.len(), 1);
    match &errors[0] {
        SemanticError::IncorrectType(6, 6, found, expected) => {
            assert_eq!(found, "float[]");
            assert_eq!(expected, "float[3][]");
        }
        e => panic!("unexpected {:?}", e),
    }
    let (t, errors) = f_call("f", &vec![argument("integer", None)], &global, 5, 5, 6, 6);
    assert_eq!(t, Some("integer".to_string()));
    assert!(errors.is_empty());
    let (t, errors) = f_call("f", &vec![argument("string", None)], &global, 5, 5, 6, 6);
    assert_eq!(t, None);
    assert!(matches!(&errors[..], [SemanticError::NoOverload(5, 5, _, types)] if types == "string"));
    let (t, errors) = f_call("h", &vec![], &global, 5, 5, 6, 6);
    assert_eq!(t, None);
    assert!(matches!(&errors[..], [SemanticError::UndefinedIdentifier(5, 5, id)] if id == "h"));
}

#[test]
fn test_func_def() {
    let global = global_with_overloads();
    assert!(func_def("f", &["integer".to_string()], &Some("integer".to_string()), &global, 1, 1).is_none());
    match func_def("f", &["integer".to_string()], &None, &global, 4, 2) {
        Some(SemanticError::IncorrectType(4, 2, found, declared)) => {
            assert_eq!(found, "void");
            assert_eq!(declared, "integer");
        }
        e => panic!("unexpected {:?}", e),
    }
    assert!(matches!(
        func_def("f", &["string".to_string()], &None, &global, 4, 2),
        Some(SemanticError::NoOverload(4, 2, _, _))
    ));
    assert!(matches!(func_def("k", &[], &None, &global, 4, 2), Some(SemanticError::UndefinedIdentifier(4, 2, _))));
}

#[test]
fn test_select_free_overload_mut() {
    let mut global = global_with_overloads();
    match select_free_overload_mut("f", &["float".to_string()], &mut global) {
        Ok(f) => {
            assert_eq!(f.line, 20);
            f.return_type = Some("string".to_string());
        }
        Err(_) => panic!("the array overload takes a float"),
    }
    match select_free_overload("f", &["float".to_string()], &global) {
        Ok(f) => assert_eq!(f.return_type, Some("string".to_string())),
        Err(_) => panic!("the overload is still there"),
    }
    match select_free_overload("f", &["integer".to_string()], &global) {
        Ok(f) => assert_eq!(f.return_type, Some("integer".to_string())),
        Err(_) => panic!("the other overloads are unchanged"),
    }
    assert!(matches!(select_free_overload_mut("f", &["string".to_string()], &mut global), Err(Some(()))));
    assert!(matches!(select_free_overload_mut("g", &[], &mut global), Err(None)));
}

#[test]
fn test_type_node() {
    let mut global = global_with_overloads();
    assert!(type_node("integer", &global, 1, 1).is_none());
    assert!(type_node("float", &global, 1, 1).is_none());
    assert!(type_node("string", &global, 1, 1).is_none());
    assert!(type_node("f", &global, 1, 1).is_none());
    match type_node("Shape", &global, 3, 4) {
        Some(SemanticError::UndefinedType(3, 4, t)) => assert_eq!(t, "Shape"),
        e => panic!("unexpected {:?}", e),
    }
    global.add_entry(SymbolTableEntry::Local(Local::from(&Variable {
        id: "Shape".to_string(),
        data_type: "integer".to_string(),
        dimension_list: dims(vec![]),
        line: 1,
        column: 1,
    })));
    assert!(type_node("Shape", &global, 3, 4).is_none());
}

#[test]
fn test_mandatory_indexlist() {
    let index = |t: Option<&str>, line: usize| Index { data_type: t.map(|x| x.to_string()), line, column: 2 };
    let (d, errors) = mandatory_indexlist(&vec![index(Some("integer"), 1), index(Some("integer"), 2)]);
    assert_eq!(d, 2);
    assert!(errors.is_empty());
    let (d, errors) = mandatory_indexlist(&vec![index(Some("float"), 1), index(Some("integer"), 2), index(None, 3)]);
    assert_eq!(d, 1);
    assert_eq!(errors.len(), 2);
    assert!(matches!(&errors[0], SemanticError::InvalidArrayIndex(1, 2, t) if t == "float"));
    assert!(matches!(&errors[1], SemanticError::InvalidArrayIndex(3, 2, t) if t == "void"));
    let (d, errors) = mandatory_indexlist(&vec![]);
    assert_eq!(d, 0);
    assert!(errors.is_empty());
}

#[test]
fn test_data_member_type() {
    let context = context_with_variables();
    assert_eq!(data_member_type(&context, "m"), "integer");
    assert_eq!(data_member_type(&context, "p"), "float");
    assert_eq!(data_member_type(&context, "q"), "error-type");
}
