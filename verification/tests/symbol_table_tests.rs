use analyzer::declarations::{
    ClassDeclaration, ClassFunctionDeclaration, ClassVariable, DimensionList, FunctionBody,
    FunctionDefinition, FunctionParameter, ParameterList, Variable,
};
use analyzer::semantic_error::SemanticError;
use analyzer::symbol_table::class::Class;
use analyzer::symbol_table::data::Data;
use analyzer::symbol_table::entrypoint::convert;
use analyzer::symbol_table::function::Function;
use analyzer::symbol_table::inherit::Inherit;
use analyzer::symbol_table::local::Local;
use analyzer::symbol_table::param::Param;
use analyzer::symbol_table::rules::{
    function_redefines, get_exact, get_exact_mut, id_redefines, mandatory_dimensions, warn_overloading_function,
};
use analyzer::symbol_table::sizes::{size_of, size_of_optional};
use analyzer::symbol_table::symbol_table::{SymbolTable, SymbolTableEntry};
use analyzer::symbol_table::temporary::Temporary;
use analyzer::symbol_table::utils::{parameter_type_string, type_string};
use analyzer::symbol_table::visitor::end_of_phase;
use analyzer::utils::separated_list;
use analyzer::visibility::Visibility;

fn dims(d: Vec<Option<i64>>) -> DimensionList {
    DimensionList { dimensions: d, line: 3, column: 7 }
}

fn parameter(id: &str, data_type: &str, d: Vec<Option<i64>>) -> FunctionParameter {
    FunctionParameter {
        id: id.to_string(),
        data_type: data_type.to_string(),
        dimension_list: dims(d),
        line: 2,
        column: 4,
    }
}

fn class_entry(id: &str, parents: &[&str], line: usize) -> Class {
    let mut class = Class::from(&ClassDeclaration {
        id: id.to_string(),
        inheritance_list: parents.iter().map(|p| p.to_string()).collect(),
        line,
        column: 1,
    });
    class.symbol_table_mut().add_entry(SymbolTableEntry::Inherit(Inherit::new(parents)));
    class
}

fn member_function(id: &str, class: &str, types: &[&str]) -> Function {
    let parameters = types
        .iter()
        .enumerate()
        .map(|(i, t)| parameter(&format!("p{}", i), t, vec![]))
        .collect();
    Function::from_declaration(
        &ClassFunctionDeclaration {
            id: id.to_string(),
            visibility: Visibility::Public,
            parameter_list: ParameterList { parameters },
            return_type: Some("integer".to_string()),
            line: 10,
            column: 5,
        },
        class,
    )
}

fn member_variable(id: &str, line: usize) -> Data {
    Data::from(&ClassVariable {
        id: id.to_string(),
        visibility: Visibility::Private,
        data_type: "integer".to_string(),
        dimension_list: dims(vec![]),
        line,
        column: 2,
    })
}

fn local(id: &str, data_type: &str) -> Local {
    Local::from(&Variable {
        id: id.to_string(),
        data_type: data_type.to_string(),
        dimension_list: dims(vec![Some(5), None, Some(2)]),
        line: 8,
        column: 9,
    })
}

#[test]
fn test_add_and_get_entries() {
    let mut table = SymbolTable::new("global");
    assert!(!table.contains("x"));
    assert!(table.get("x").is_none());
    table.add_entry(SymbolTableEntry::Local(local("x", "integer")));
    table.add_entry(SymbolTableEntry::Inherit(Inherit::new(&["A"])));
    table.add_entry(SymbolTableEntry::Local(local("x", "float")));
    assert!(table.contains("x"));
    match table.get("x") {
        Some(SymbolTableEntry::Local(l)) => assert_eq!(l.data_type, "integer"),
        _ => panic!("expected the first local"),
    }
    assert_eq!(table.get_all("x").len(), 2);
    assert_eq!(table.get_all("y").len(), 0);
    assert_eq!(table.name(), "global");
}

#[test]
fn test_get_mut_changes_the_entry() {
    let mut table = SymbolTable::new("global");
    table.add_entry(SymbolTableEntry::Temporary(Temporary::new("t1", "integer", 1, 1)));
    if let Some(entry) = table.get_mut("t1") {
        assert_eq!(entry.computed_size(), 4);
    }
    match table.get("t1") {
        Some(SymbolTableEntry::Temporary(t)) => assert_eq!(t.bytes, 4),
        _ => panic!("expected the temporary"),
    }
}

#[test]
fn test_fresh_names() {
    let mut table = SymbolTable::scoped_new("f", Some("A"));
    assert_eq!(table.get_next_temporary(), "temp0");
    assert_eq!(table.get_next_temporary(), "temp1");
    assert_eq!(table.get_next_if_else_label(), ("f__else0".to_string(), "f__endif0".to_string()));
    assert_eq!(table.get_next_if_else_label(), ("f__else1".to_string(), "f__endif1".to_string()));
    assert_eq!(table.get_next_while_label(), ("f__gowhile0".to_string(), "f__endwhile0".to_string()));
    assert_eq!(table.get_next_temporary(), "temp2");
}

#[test]
fn test_mangle_and_get_function() {
    let mut table = SymbolTable::new("A");
    table.add_entry(SymbolTableEntry::Function(member_function("f", "A", &["integer"])));
    table.add_entry(SymbolTableEntry::Function(member_function("f", "A", &["float", "integer"])));
    let parameters = vec!["float".to_string(), "integer".to_string()];
    assert_eq!(table.mangle_function("f", &parameters), "ffloatinteger");
    let found = table.get_function("f", &parameters).unwrap();
    assert_eq!(found.parameter_types.len(), 2);
    assert!(table.get_function("f", &["string".to_string()]).is_none());
}

#[test]
fn test_function_entries() {
    let definition = FunctionDefinition {
        id: "f".to_string(),
        scope: Some("A".to_string()),
        parameter_list: ParameterList {
            parameters: vec![parameter("a", "integer", vec![None, Some(4)]), parameter("b", "float", vec![])],
        },
        return_type: None,
        line: 5,
        column: 6,
    };
    let f = Function::from_definition(&definition);
    assert!(f.is_class_member());
    assert!(f.is_defined());
    assert_eq!(f.return_type_as_string(), "void");
    assert_eq!(f.signature(), "(integer[][4],float)");
    assert_eq!(f.describe(), "Function f(integer[][4],float)");
    let declared = member_function("g", "A", &["integer"]);
    assert!(!declared.is_defined());
    assert_eq!(declared.describe(), "Function public g(integer)");
    assert_eq!(declared.return_type_as_string(), "integer");
    let main = Function::create_main(&FunctionBody { local_variables: vec![], line: 1, column: 1 });
    assert_eq!(main.id, "main");
    assert!(!main.is_class_member());
    assert!(Function::signature_eq(&declared, &member_function("g", "B", &["integer"])));
    assert!(!Function::signature_eq(&declared, &member_function("g", "A", &["float"])));
    assert!(declared == member_function("g", "B", &["integer"]));
}

#[test]
fn test_entry_descriptions() {
    assert_eq!(local("x", "integer").describe(), "Local variable integer[5][2] x");
    assert_eq!(local("x", "integer").type_string(), "integer[5][2]");
    let p = Param::from(&parameter("a", "integer", vec![None, Some(-3)]));
    assert_eq!(p.type_string(), "integer[][-3]");
    assert_eq!(p.describe(), "Parameter integer a");
    assert_eq!(member_variable("v", 1).describe(), "Member variable private integer v");
    assert_eq!(Temporary::new("t", "float", 1, 1).describe(), "Temporary value float t");
    assert_eq!(Inherit::new(&["A", "B", "C"]).describe(), "A, B, C");
    assert_eq!(class_entry("K", &[], 1).describe(), "Class K");
    assert_eq!(type_string("float", &[3, 10]), "float[3][10]");
    assert_eq!(parameter_type_string("string", &[None]), "string[]");
    assert_eq!(separated_list(&["a".to_string(), "b".to_string()], "; "), "a; b");
    assert_eq!(separated_list(&[], ", "), "");
}

#[test]
fn test_sizes() {
    assert_eq!(size_of("integer", &vec![3, 2]), 24);
    assert_eq!(size_of("string", &vec![]), 4);
    assert_eq!(size_of_optional("float", &vec![]), 4);
    assert_eq!(size_of_optional("float", &vec![None, Some(3)]), 4);
    let mut data = member_variable("v", 1);
    data.dimension = vec![10];
    assert_eq!(data.computed_size(), 40);
    assert_eq!(*data.bytes(), 40);
    let mut entry = SymbolTableEntry::Local(local("x", "integer"));
    assert_eq!(entry.computed_size(), 40);
    let mut inherit = SymbolTableEntry::Inherit(Inherit::new(&[]));
    assert_eq!(inherit.computed_size(), 0);
}

#[test]
fn test_replace_class_function_declaration() {
    let mut global = SymbolTable::new("global");
    let mut class = class_entry("A", &[], 1);
    class.symbol_table_mut().add_entry(SymbolTableEntry::Function(member_function("f", "A", &["integer"])));
    global.add_entry(SymbolTableEntry::Class(class));
    let mut definition = member_function("f", "A", &["integer"]);
    definition.set_defined();
    global.replace_class_function_declaration(definition);
    match global.get("A") {
        Some(SymbolTableEntry::Class(c)) => match c.symbol_table.get("f") {
            Some(SymbolTableEntry::Function(f)) => assert!(f.is_defined()),
            _ => panic!("expected the function"),
        },
        _ => panic!("expected the class"),
    }
}

fn global_with(classes: Vec<Class>) -> SymbolTable {
    let mut global = SymbolTable::new("global");
    for class in classes {
        global.add_entry(SymbolTableEntry::Class(class));
    }
    global
}

#[test]
fn test_inheritance_cycles() {
    let global = global_with(vec![
        class_entry("A", &["B"], 1),
        class_entry("B", &["C"], 2),
        class_entry("C", &["A"], 3),
        class_entry("D", &["C"], 4),
        class_entry("E", &[], 5),
        class_entry("S", &["S"], 6),
    ]);
    let cyclic = |name: &str| match global.get(name) {
        Some(SymbolTableEntry::Class(c)) => c.symbol_table.inherit_list_has_cycles(&global),
        _ => panic!("expected a class"),
    };
    assert!(cyclic("A"));
    assert!(cyclic("D"));
    assert!(!cyclic("E"));
    assert!(cyclic("S"));
    let acyclic = global_with(vec![class_entry("X", &["Y"], 1), class_entry("Y", &[], 2)]);
    match acyclic.get("X") {
        Some(SymbolTableEntry::Class(c)) => assert!(!c.symbol_table.inherit_list_has_cycles(&acyclic)),
        _ => panic!("expected a class"),
    }
}

#[test]
fn test_get_all_inherited() {
    let mut base = class_entry("Base", &[], 1);
    base.symbol_table_mut().add_entry(SymbolTableEntry::Data(member_variable("x", 3)));
    let mut middle = class_entry("Middle", &["Base"], 2);
    middle.symbol_table_mut().add_entry(SymbolTableEntry::Function(member_function("x", "Middle", &[])));
    let derived = class_entry("Derived", &["Middle", "Base"], 3);
    let global = global_with(vec![base, middle, derived]);
    match global.get("Derived") {
        Some(SymbolTableEntry::Class(c)) => {
            let found = SymbolTable::get_all_inherited(c, "x", &global);
            assert_eq!(found.len(), 2);
            assert!(matches!(found[0], SymbolTableEntry::Function(_)));
            assert!(matches!(found[1], SymbolTableEntry::Data(_)));
            assert!(SymbolTable::get_all_inherited(c, "y", &global).is_empty());
        },
        _ => panic!("expected a class"),
    }
}

#[test]
fn test_end_of_phase() {
    let mut base = class_entry("Base", &[], 1);
    base.symbol_table_mut().add_entry(SymbolTableEntry::Data(member_variable("x", 3)));
    let mut defined = member_function("f", "Base", &["integer"]);
    defined.set_defined();
    base.symbol_table_mut().add_entry(SymbolTableEntry::Function(defined));
    let mut derived = class_entry("Derived", &["Base", "Missing", "main"], 2);
    derived.symbol_table_mut().add_entry(SymbolTableEntry::Function(member_function("f", "Derived", &["integer"])));
    derived.symbol_table_mut().add_entry(SymbolTableEntry::Data(member_variable("x", 4)));
    let mut global = global_with(vec![base, derived, class_entry("Loop", &["Loop"], 7)]);
    convert(&FunctionBody { local_variables: vec![], line: 20, column: 1 }, &mut global).unwrap();

    let errors = end_of_phase(&global);
    assert_eq!(errors.len(), 6);
    assert!(matches!(&errors[0], SemanticError::UndefinedType(2, 1, name) if name == "Missing"));
    assert!(matches!(&errors[1], SemanticError::IncorrectType(2, 1, found, expected) if found == "Function main()" && expected == "a class type"));
    assert!(matches!(&errors[2], SemanticError::DeclaredButNotDefined(10, 5, name) if name == "Derived::f"));
    assert!(matches!(&errors[3], SemanticError::Override(10, 5, f) if f == "Function public f(integer)"));
    assert!(matches!(&errors[4], SemanticError::Shadowing(4, 2, a, b) if a == "Member variable private integer x" && b == "Member variable private integer x"));
    assert!(matches!(&errors[5], SemanticError::CyclicInheritance(7, 1, c) if c == "Class Loop"));
    assert_eq!(errors[5].line(), 7);
    assert_eq!(errors[5].col(), 1);
}

#[test]
fn test_convert_adds_main() {
    let mut global = SymbolTable::new("global");
    let body = FunctionBody {
        local_variables: vec![
            Variable { id: "a".to_string(), data_type: "integer".to_string(), dimension_list: dims(vec![]), line: 1, column: 1 },
            Variable { id: "b".to_string(), data_type: "float".to_string(), dimension_list: dims(vec![Some(2)]), line: 2, column: 1 },
        ],
        line: 1,
        column: 1,
    };
    assert!(convert(&body, &mut global).is_ok());
    match global.get("main") {
        Some(SymbolTableEntry::Function(main)) => {
            assert!(main.is_defined());
            assert_eq!(main.symbol_table.values.len(), 2);
            assert!(main.symbol_table.contains("b"));
        },
        _ => panic!("expected main"),
    }
}

#[test]
fn test_rules() {
    let defined = {
        let mut f = member_function("f", "A", &["integer"]);
        f.set_defined();
        SymbolTableEntry::Function(f)
    };
    let declared = SymbolTableEntry::Function(member_function("f", "A", &["float"]));
    let variable = SymbolTableEntry::Data(member_variable("f", 1));
    let same = ParameterList { parameters: vec![parameter("a", "integer", vec![])] };
    let other = ParameterList { parameters: vec![parameter("a", "float", vec![])] };

    let entries = vec![&declared, &defined];
    match function_redefines("f", &same, &entries, &3, &4, "Function f(integer)") {
        Err(SemanticError::Redefinition(3, 4, what, existing)) => {
            assert_eq!(what, "Function f(integer)");
            assert_eq!(existing, "Function public f(integer)");
        },
        _ => panic!("expected a redefinition"),
    }
    assert!(function_redefines("f", &other, &entries, &3, &4, "x").is_ok());
    assert!(matches!(
        function_redefines("f", &other, &vec![&variable], &3, &4, "x"),
        Err(SemanticError::Redefinition(3, 4, _, existing)) if existing == "Member variable private integer f"
    ));
    assert!(id_redefines("g", &entries, &1, &2, "x").is_ok());
    assert!(matches!(id_redefines("f", &entries, &1, &2, "x"), Err(SemanticError::Redefinition(1, 2, _, _))));

    let exact = get_exact("f", &other, &entries).unwrap();
    assert_eq!(exact.parameter_types[0].data_type, "float");
    assert!(get_exact("f", &same, &entries).is_none());

    let warnings = warn_overloading_function("f", &same, &entries, &5, &6);
    assert_eq!(warnings.len(), 1);
    assert!(matches!(&warnings[0], SemanticError::Overload(5, 6, id) if id == "f"));

    assert!(mandatory_dimensions(&dims(vec![Some(1), Some(2)]), "v").is_ok());
    assert!(matches!(
        mandatory_dimensions(&dims(vec![Some(1), None]), "v"),
        Err(SemanticError::MissingDimension(3, 7, id)) if id == "v"
    ));
}

#[test]
fn test_visibility_text() {
    assert_eq!(Visibility::Public.text(), "public");
    assert_eq!(Visibility::default().text(), "private");
    let class = Class::from(&ClassDeclaration {
        id: "Q".to_string(),
        inheritance_list: vec!["R".to_string()],
        line: 1,
        column: 2,
    });
    assert_eq!(class.resultant_type(), "Q");
    assert_eq!(class.inheritance_list(), &vec!["R".to_string()]);
}

#[test]
fn test_get_all_mut_writes_through() {
    let mut table = SymbolTable::new("global");
    table.add_entry(SymbolTableEntry::Local(local("x", "integer")));
    table.add_entry(SymbolTableEntry::Local(local("y", "integer")));
    table.add_entry(SymbolTableEntry::Local(local("x", "string")));
    {
        let mut all = table.get_all_mut("x");
        assert_eq!(all.len(), 2);
        if let SymbolTableEntry::Local(l) = &mut *all[1] {
            assert_eq!(l.data_type, "string");
            l.data_type = "float".to_string();
        }
    }
    let all = table.get_all("x");
    match (all[0], all[1]) {
        (SymbolTableEntry::Local(a), SymbolTableEntry::Local(b)) => {
            assert_eq!(a.data_type, "integer");
            assert_eq!(b.data_type, "float");
        }
        _ => panic!("expected two locals"),
    }
    assert!(table.get_all_mut("z").is_empty());
    assert_eq!(table.name(), "global");
}

#[test]
fn test_get_exact_mut_marks_the_declaration() {
    let mut table = SymbolTable::new("A");
    table.add_entry(SymbolTableEntry::Function(member_function("f", "A", &["integer"])));
    table.add_entry(SymbolTableEntry::Function(member_function("f", "A", &["float"])));
    let wanted = ParameterList { parameters: vec![parameter("q", "float", vec![])] };
    let other = ParameterList { parameters: vec![parameter("q", "string", vec![])] };
    {
        let mut entries = table.get_all_mut("f");
        assert!(get_exact_mut("f", &other, &mut entries).is_none());
    }
    {
        let mut entries = table.get_all_mut("f");
        assert!(get_exact_mut("g", &wanted, &mut entries).is_none());
    }
    {
        let mut entries = table.get_all_mut("f");
        let found = get_exact_mut("f", &wanted, &mut entries).unwrap();
        assert_eq!(found.parameter_types[0].data_type, "float");
        found.defined = true;
    }
    let all = table.get_all("f");
    match (all[0], all[1]) {
        (SymbolTableEntry::Function(a), SymbolTableEntry::Function(b)) => {
            assert!(!a.defined);
            assert!(b.defined);
        }
        _ => panic!("expected two functions"),
    }
    let mut entries = table.get_all_mut("f");
    assert!(get_exact_mut("f", &wanted, &mut entries).is_none());
}

#[test]
fn test_shared_ancestor_is_no_cycle() {
    let global = global_with(vec![
        class_entry("A", &["B", "C"], 1),
        class_entry("B", &["C"], 2),
        class_entry("C", &[], 3),
    ]);
    match global.get("A") {
        Some(SymbolTableEntry::Class(c)) => assert!(!c.symbol_table.inherit_list_has_cycles(&global)),
        _ => panic!("expected a class"),
    }
    let two_way = global_with(vec![class_entry("A", &["B"], 1), class_entry("B", &["A"], 2)]);
    match two_way.get("A") {
        Some(SymbolTableEntry::Class(c)) => assert!(c.symbol_table.inherit_list_has_cycles(&two_way)),
        _ => panic!("expected a class"),
    }
}

#[test]
fn test_collect_inherits_gathers_every_entry() {
    let mut table = SymbolTable::new("A");
    assert!(table.collect_inherits().is_empty());
    table.add_entry(SymbolTableEntry::Inherit(Inherit::new(&["B", "C"])));
    table.add_entry(SymbolTableEntry::Local(local("x", "integer")));
    table.add_entry(SymbolTableEntry::Inherit(Inherit::new(&["D"])));
    assert_eq!(table.collect_inherits(), vec!["B".to_string(), "C".to_string(), "D".to_string()]);
}
