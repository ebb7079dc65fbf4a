use analyzer::declarations::{ClassFunctionDeclaration, FunctionParameter, DimensionList, ParameterList};
use analyzer::first::ProductionMap;
use analyzer::grammar::Grammar;
use analyzer::symbol::Symbol;
use analyzer::symbol_table::function::Function;
use analyzer::symbol_table::inherit::Inherit;
use analyzer::symbol_table::rules::get_exact_clone;
use analyzer::symbol_table::symbol_table::{SymbolTable, SymbolTableEntry};
use analyzer::symbol_table::temporary::Temporary;
use analyzer::type_check::{a_params_correct, Argument};
use analyzer::visibility::Visibility;
use std::collections::HashSet;

fn nt(name: &str) -> Symbol {
    Symbol::NonTerminal(name.to_string())
}

fn t(name: &str) -> Symbol {
    Symbol::Terminal(name.to_string())
}

fn grammar() -> Grammar {
    let productions: ProductionMap = vec![
        (nt("S"), vec![vec![nt("A"), t("b")], vec![t("c")]]),
        (nt("A"), vec![vec![t("a"), nt("A")], vec![Symbol::Epsilon]]),
    ];
    Grammar::try_new(&productions, &nt("S")).unwrap()
}

#[test]
fn test_law_start_followed_by_end() {
    assert!(grammar().follow(&nt("S")).contains(&Symbol::Eos));
}

#[test]
fn test_law_follow_without_non_terminals() {
    let g = grammar();
    for symbol in [nt("S"), nt("A")] {
        assert!(g.follow(&symbol).iter().all(|x| !matches!(x, Symbol::NonTerminal(_))));
    }
    assert_eq!(g.follow(&nt("A")), &vec![t("b")]);
}

#[test]
fn test_law_first_of_terminal() {
    let g = grammar();
    assert_eq!(g.first(&t("b")), vec![t("b")]);
    assert_eq!(g.first(&Symbol::Eos), vec![Symbol::Eos]);
    assert_eq!(g.first(&Symbol::Epsilon), vec![Symbol::Epsilon]);
}

#[test]
fn test_law_sentence_first_of_one() {
    let g = grammar();
    let a: HashSet<Symbol> = g.sentence_first(&vec![nt("S")]).into_iter().collect();
    let b: HashSet<Symbol> = g.first(&nt("S")).into_iter().collect();
    assert_eq!(a, b);
    assert_eq!(b, [t("a"), t("b"), t("c")].into_iter().collect());
}

#[test]
fn test_law_lookup_after_add() {
    let mut table = SymbolTable::new("t");
    table.add_entry(SymbolTableEntry::Temporary(Temporary::new("x", "integer", 1, 1)));
    table.add_entry(SymbolTableEntry::Temporary(Temporary::new("x", "float", 2, 2)));
    table.add_entry(SymbolTableEntry::Temporary(Temporary::new("y", "string", 3, 3)));
    match table.get("x") {
        Some(SymbolTableEntry::Temporary(tmp)) => assert_eq!(tmp.line, 1),
        _ => panic!("expected the first x"),
    }
    match table.get("y") {
        Some(SymbolTableEntry::Temporary(tmp)) => assert_eq!(tmp.line, 3),
        _ => panic!("expected y"),
    }
}

#[test]
fn test_law_lookup_first_of_all() {
    let mut table = SymbolTable::new("t");
    table.add_entry(SymbolTableEntry::Inherit(Inherit::new(&["x"])));
    table.add_entry(SymbolTableEntry::Temporary(Temporary::new("x", "integer", 1, 1)));
    table.add_entry(SymbolTableEntry::Temporary(Temporary::new("x", "float", 2, 2)));
    let all = table.get_all("x");
    assert_eq!(all.len(), 2);
    assert!(all.iter().all(|e| e.id() == Some("x")));
    assert!(std::ptr::eq(all[0], table.get("x").unwrap()));
    assert_eq!(table.contains("x"), table.get("x").is_some());
    assert_eq!(table.contains("z"), table.get("z").is_some());
}

#[test]
fn test_law_numbered_names_distinct() {
    let mut table = SymbolTable::new("f");
    let names: HashSet<String> = (0..25).map(|_| table.get_next_temporary()).collect();
    assert_eq!(names.len(), 25);
}

fn declaration(types: &[&str]) -> Function {
    Function::from_declaration(
        &ClassFunctionDeclaration {
            id: "f".to_string(),
            visibility: Visibility::Private,
            parameter_list: ParameterList {
                parameters: types
                    .iter()
                    .map(|t| FunctionParameter {
                        id: "p".to_string(),
                        data_type: t.to_string(),
                        dimension_list: DimensionList { dimensions: vec![None], line: 1, column: 1 },
                        line: 1,
                        column: 1,
                    })
                    .collect(),
            },
            return_type: None,
            line: 4,
            column: 2,
        },
        "A",
    )
}

#[test]
fn test_get_exact_clone_copies() {
    let mut original = declaration(&["integer"]);
    original.symbol_table_mut().add_entry(SymbolTableEntry::Temporary(Temporary::new("t", "integer", 1, 1)));
    let entry = SymbolTableEntry::Function(original);
    let entries = vec![&entry];
    let list = ParameterList {
        parameters: vec![FunctionParameter {
            id: "q".to_string(),
            data_type: "integer".to_string(),
            dimension_list: DimensionList { dimensions: vec![], line: 1, column: 1 },
            line: 1,
            column: 1,
        }],
    };
    let copy = get_exact_clone("f", &list, &entries).unwrap();
    assert_eq!(copy.describe(), "Function private f(integer[])");
    assert_eq!(copy.symbol_table.values.len(), 1);
    assert!(copy.symbol_table.contains("t"));
    assert!(get_exact_clone("g", &list, &entries).is_none());
}

#[test]
fn test_law_unwritten_references_leave_entries() {
    let mut table = SymbolTable::new("global");
    table.add_entry(SymbolTableEntry::Temporary(Temporary::new("t", "integer", 1, 1)));
    table.add_entry(SymbolTableEntry::Inherit(Inherit::new(&["A"])));
    table.add_entry(SymbolTableEntry::Temporary(Temporary::new("t", "float", 2, 2)));
    let before: Vec<String> = table.values.iter().map(|e| e.describe()).collect();
    {
        let all = table.get_all_mut("t");
        assert_eq!(all.len(), 2);
    }
    let after: Vec<String> = table.values.iter().map(|e| e.describe()).collect();
    assert_eq!(before, after);
}

#[test]
fn test_law_call_without_errors() {
    let f = declaration(&["integer", "float"]);
    let fitting = vec![
        Argument { data_type: "integer".to_string(), dimensions: Some(1) },
        Argument { data_type: "float".to_string(), dimensions: Some(1) },
    ];
    assert!(a_params_correct(&fitting, &f, 1, 1).is_empty());
    let too_few = vec![Argument { data_type: "integer".to_string(), dimensions: Some(1) }];
    assert!(!a_params_correct(&too_few, &f, 1, 1).is_empty());
    let plain = vec![
        Argument { data_type: "integer".to_string(), dimensions: None },
        Argument { data_type: "float".to_string(), dimensions: Some(1) },
    ];
    assert!(!a_params_correct(&plain, &f, 1, 1).is_empty());
}

#[test]
fn test_law_follow_closure() {
    let productions: ProductionMap = vec![
        (nt("S"), vec![vec![nt("A"), nt("B")], vec![t("c")]]),
        (nt("A"), vec![vec![t("a")]]),
        (nt("B"), vec![vec![t("b")], vec![Symbol::Epsilon]]),
    ];
    let g = Grammar::try_new(&productions, &nt("S")).unwrap();
    let follow_a: HashSet<Symbol> = g.follow(&nt("A")).iter().cloned().collect();
    let follow_b: HashSet<Symbol> = g.follow(&nt("B")).iter().cloned().collect();
    let follow_s: HashSet<Symbol> = g.follow(&nt("S")).iter().cloned().collect();
    assert!(follow_a.contains(&t("b")));
    assert!(follow_s.is_subset(&follow_a));
    assert!(follow_s.is_subset(&follow_b));
}

#[test]
fn test_law_follow_terminals() {
    let g = grammar();
    for (symbol, _) in g.productions() {
        for x in g.follow(symbol) {
            assert!(matches!(x, Symbol::Terminal(_) | Symbol::Eos));
        }
    }
}
