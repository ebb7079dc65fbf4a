use analyzer::declarations::{
    ClassDeclaration, ClassVariable, DimensionList, FunctionDefinition, FunctionParameter, ParameterList, Variable,
};
use analyzer::symbol_table::class::Class;
use analyzer::symbol_table::data::Data;
use analyzer::symbol_table::format_table::GLOBAL_TABLE_WIDTH;
use analyzer::symbol_table::function::Function;
use analyzer::symbol_table::inherit::Inherit;
use analyzer::symbol_table::local::Local;
use analyzer::symbol_table::param::Param;
use analyzer::symbol_table::symbol_table::{SymbolTable, SymbolTableEntry};
use analyzer::symbol_table::temporary::Temporary;
use analyzer::visibility::Visibility;

fn dims(d: Vec<Option<i64>>) -> DimensionList {
    DimensionList { dimensions: d, line: 1, column: 1 }
}

fn local(id: &str) -> Local {
    Local::from(&Variable {
        id: id.to_string(),
        data_type: "integer".to_string(),
        dimension_list: dims(vec![Some(5), Some(2)]),
        line: 1,
        column: 1,
    })
}

#[test]
fn test_entry_rows() {
    assert_eq!(local("x").lines(80), vec!["local     | x           | integer[5][2]".to_string()]);
    let p = Param::from(&FunctionParameter {
        id: "p".to_string(),
        data_type: "float".to_string(),
        dimension_list: dims(vec![None]),
        line: 1,
        column: 1,
    });
    assert_eq!(p.lines(80), vec!["param     | p           | float[]".to_string()]);
    let d = Data::from(&ClassVariable {
        id: "a".to_string(),
        visibility: Visibility::Private,
        data_type: "integer".to_string(),
        dimension_list: dims(vec![]),
        line: 1,
        column: 1,
    });
    assert_eq!(d.lines(80), vec!["data      | a         | integer   | private| 0         ".to_string()]);
    let t = Temporary::new("t1", "float", 1, 1);
    assert_eq!(t.lines(80), vec!["temp      | t1        | float     | 0         |".to_string()]);
    assert_eq!(Inherit::new(&[]).lines(80), vec!["inherit   | none".to_string()]);
    assert_eq!(Inherit::new(&["A", "B"]).lines(80), vec!["inherit   | A, B".to_string()]);
}

#[test]
fn test_long_names_are_not_cut() {
    let t = Temporary::new("a_rather_long_name", "integer", 1, 1);
    assert_eq!(t.lines(80), vec!["temp      | a_rather_long_name| integer   | 0         |".to_string()]);
}

#[test]
fn test_table_lines_frame_the_entries() {
    let mut table = SymbolTable::new("global");
    table.add_entry(SymbolTableEntry::Local(local("x")));
    let lines = table.lines(40);
    let rule = "=".repeat(40);
    assert_eq!(
        lines,
        vec![
            rule.clone(),
            format!("| {:35}  |", "table: global"),
            rule.clone(),
            format!("| {:35}  |", "local     | x           | integer[5][2]"),
            rule.clone(),
        ]
    );
    assert_eq!(lines[1].chars().count(), 40);
    assert_eq!(lines[3].chars().count(), 44);
}

#[test]
fn test_nested_tables_are_indented() {
    let mut f = Function::from_definition(&FunctionDefinition {
        id: "f".to_string(),
        scope: None,
        parameter_list: ParameterList { parameters: vec![] },
        return_type: None,
        line: 1,
        column: 1,
    });
    f.symbol_table.add_entry(SymbolTableEntry::Local(local("y")));
    let mut class = Class::from(&ClassDeclaration {
        id: "A".to_string(),
        inheritance_list: vec![],
        line: 1,
        column: 1,
    });
    class.symbol_table.add_entry(SymbolTableEntry::Inherit(Inherit::new(&[])));
    let mut table = SymbolTable::new("global");
    table.add_entry(SymbolTableEntry::Class(class));
    table.add_entry(SymbolTableEntry::Function(f));
    let lines = table.lines(GLOBAL_TABLE_WIDTH);
    let inner = "=".repeat(75);
    let expected: Vec<String> = vec![
        "=".repeat(83),
        format!("| {:78}  |", "table: global"),
        "=".repeat(83),
        format!("| {:78}  |", "class | A"),
        format!("| {:78}  |", format!("   {}", inner)),
        format!("| {:78}  |", format!("   | {:70}  |", "table: A")),
        format!("| {:78}  |", format!("   {}", inner)),
        format!("| {:78}  |", format!("   | {:70}  |", "inherit   | none")),
        format!("| {:78}  |", format!("   {}", inner)),
        format!("| {:78}  |", format!("function  | {:12}| {:34}", "f", "()")),
        format!("| {:78}  |", format!("   {}", inner)),
        format!("| {:78}  |", format!("   | {:70}  |", "table: f")),
        format!("| {:78}  |", format!("   {}", inner)),
        format!("| {:78}  |", format!("   | {:70}  |", "local     | y           | integer[5][2]")),
        format!("| {:78}  |", format!("   {}", inner)),
        "=".repeat(83),
    ];
    assert_eq!(lines, expected);
    let text = table.render();
    assert_eq!(text, expected.iter().map(|l| format!("{}\n", l)).collect::<String>());
}
