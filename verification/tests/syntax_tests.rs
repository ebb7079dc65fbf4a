use analyzer::first::ProductionMap;
use analyzer::grammar::Grammar;
use analyzer::grammar_file::read_productions;
use analyzer::parse_table::ParseTable;
use analyzer::parser::{initial_stack, is_finished, parse_step, resumes, ParseAction};
use analyzer::semantic_action::Action as NodeAction;
use analyzer::symbol::{Action, Symbol};
use analyzer::syntax_tree::{is_float_lexeme, parse_integer, Node, NodeData};

fn nt(name: &str) -> Symbol {
    Symbol::NonTerminal(name.to_string())
}

fn t(name: &str) -> Symbol {
    Symbol::Terminal(name.to_string())
}

fn expression_grammar() -> Grammar {
    let productions: ProductionMap = vec![
        (nt("E"), vec![vec![nt("T"), nt("E'")]]),
        (nt("E'"), vec![vec![t("+"), nt("T"), nt("E'")], vec![Symbol::Epsilon]]),
        (nt("T"), vec![vec![nt("F"), nt("T'")]]),
        (nt("T'"), vec![vec![t("*"), nt("F"), nt("T'")], vec![Symbol::Epsilon]]),
        (nt("F"), vec![vec![t("0")], vec![t("1")], vec![t("("), nt("E"), t(")")]]),
    ];
    Grammar::try_new(&productions, &nt("E")).unwrap()
}

#[test]
fn test_symbol_notation() {
    assert_eq!(Symbol::parse("<E'>"), Some(nt("E'")));
    assert_eq!(Symbol::parse("  <a<b>c>  "), Some(nt("a<b>c")));
    assert_eq!(Symbol::parse("'+'"), Some(t("+")));
    assert_eq!(Symbol::parse("'it's'"), Some(t("it's")));
    assert_eq!(Symbol::parse("''"), Some(t("")));
    assert_eq!(Symbol::parse("EPSILON"), Some(Symbol::Epsilon));
    assert_eq!(
        Symbol::parse("@create~integer~num@"),
        Some(Symbol::SemanticAction(Action::Create("integer".to_string(), "num".to_string())))
    );
    assert_eq!(Symbol::parse("@create~bool~num@"), None);
    assert_eq!(
        Symbol::parse("@group~2~ expr ~x@"),
        Some(Symbol::SemanticAction(Action::Group("expr".to_string(), 2)))
    );
    assert_eq!(Symbol::parse("@group~99999999999999999999999~e@"), None);
    assert_eq!(Symbol::parse("plain"), None);
    assert_eq!(Symbol::parse("<open"), None);
    assert_eq!(Symbol::from_str("<F>"), nt("F"));
}

#[test]
fn test_read_productions() {
    let lines: Vec<String> = vec![
        "".to_string(),
        "<S> ::= 'a'  <S> @create~string~leaf@".to_string(),
        "a comment line".to_string(),
        "<S> ::= EPSILON".to_string(),
    ];
    let (productions, start) = read_productions(&lines).unwrap();
    assert_eq!(start, nt("S"));
    assert_eq!(productions.len(), 1);
    assert_eq!(productions[0].0, nt("S"));
    assert_eq!(
        productions[0].1,
        vec![
            vec![t("a"), nt("S"), Symbol::SemanticAction(Action::Create("string".to_string(), "leaf".to_string()))],
            vec![Symbol::Epsilon],
        ]
    );
    assert!(read_productions(&vec!["<S> ::= nonsense".to_string()]).is_none());
    let (none, no_start) = read_productions(&vec!["no production".to_string()]).unwrap();
    assert!(none.is_empty());
    assert_eq!(no_start, Symbol::Eos);
    assert!(Grammar::from_lines(&vec!["no production".to_string()]).is_none());
    assert!(Grammar::from_lines(&vec!["<S> ::= <T>".to_string()]).is_none());
}

#[test]
fn test_grammar_checks() {
    let left_recursive: ProductionMap = vec![(nt("A"), vec![vec![nt("A"), t("x")], vec![t("y")]])];
    let grammar = Grammar::try_new(&left_recursive, &nt("A")).unwrap();
    assert!(grammar.first_checked(&nt("A")).is_none());
    let empty_option: ProductionMap = vec![(nt("A"), vec![vec![]])];
    assert!(Grammar::try_new(&empty_option, &nt("A")).is_none());
    let undefined: ProductionMap = vec![(nt("A"), vec![vec![nt("B")]])];
    assert!(Grammar::try_new(&undefined, &nt("A")).is_none());
    let duplicate: ProductionMap = vec![(nt("A"), vec![vec![t("a")]]), (nt("A"), vec![vec![t("b")]])];
    assert!(Grammar::try_new(&duplicate, &nt("A")).is_none());
    assert!(Grammar::try_new(&duplicate[..1].to_vec(), &nt("B")).is_none());
    let g = expression_grammar();
    assert!(g.follow(&nt("E")).contains(&Symbol::Eos));
    assert_eq!(g.first(&t("+")), vec![t("+")]);
    assert_eq!(g.sentence_first(&vec![nt("F")]).len(), 3);
}

fn parse(tokens: &[&str]) -> (bool, Vec<usize>) {
    let grammar = expression_grammar();
    let table = ParseTable::try_from_grammar(&grammar).unwrap();
    let mut stack = initial_stack(&grammar);
    let mut position = 0;
    let mut expansions = Vec::new();
    let mut errors = false;
    while !is_finished(&stack) {
        let lookahead = if position < tokens.len() { t(tokens[position]) } else { Symbol::Eos };
        match parse_step(&grammar, &table, &mut stack, &lookahead) {
            ParseAction::Shift => position += 1,
            ParseAction::Expand(option) => expansions.push(option),
            ParseAction::PopOnError => errors = true,
            ParseAction::SkipOnError => {
                errors = true;
                let top = stack.last().unwrap().clone();
                while position < tokens.len() && !resumes(&grammar, &top, &t(tokens[position])).unwrap() {
                    position += 1;
                }
            },
            ParseAction::Fail => return (false, expansions),
            ParseAction::Execute(_) | ParseAction::Idle => {},
        }
    }
    (!errors && position == tokens.len(), expansions)
}

#[test]
fn test_parse_steps() {
    let (accepted, expansions) = parse(&["1", "+", "0", "*", "(", "1", ")"]);
    assert!(accepted);
    assert_eq!(expansions[0], 0);
    assert_eq!(parse(&["1", "+"]).0, false);
    assert_eq!(parse(&["1", "1"]).0, false);
}

#[test]
fn test_single_step() {
    let grammar = expression_grammar();
    let table = ParseTable::try_from_grammar(&grammar).unwrap();
    let mut stack = vec![Symbol::Eos, nt("E'")];
    assert!(matches!(parse_step(&grammar, &table, &mut stack, &t(")")), ParseAction::Expand(1)));
    assert_eq!(stack, vec![Symbol::Eos]);
    let mut stack = vec![Symbol::Eos, nt("E'")];
    assert!(matches!(parse_step(&grammar, &table, &mut stack, &t("+")), ParseAction::Expand(0)));
    assert_eq!(stack, vec![Symbol::Eos, nt("E'"), nt("T"), t("+")]);
    assert!(matches!(parse_step(&grammar, &table, &mut stack, &t("+")), ParseAction::Shift));
    assert!(matches!(parse_step(&grammar, &table, &mut stack, &t("*")), ParseAction::SkipOnError));
    let mut stack = vec![Symbol::Eos, nt("F")];
    assert!(matches!(parse_step(&grammar, &table, &mut stack, &t("+")), ParseAction::PopOnError));
    assert_eq!(stack, vec![Symbol::Eos]);
    let mut stack = vec![Symbol::Eos, t("0")];
    assert!(matches!(parse_step(&grammar, &table, &mut stack, &Symbol::Eos), ParseAction::Fail));
    let mut stack = vec![Symbol::Eos, Symbol::SemanticAction(Action::MakeSibling)];
    assert!(matches!(parse_step(&grammar, &table, &mut stack, &t("0")), ParseAction::Execute(Action::MakeSibling)));
    assert!(is_finished(&stack));
    assert_eq!(resumes(&grammar, &nt("T'"), &t("+")), Some(true));
    assert_eq!(resumes(&grammar, &nt("F"), &t("+")), Some(false));
}

fn leaf(name: &str) -> Node {
    Node { name: name.to_string(), data: NodeData::Epsilon }
}

#[test]
fn test_symbol_actions() {
    assert_eq!(parse_integer("-42"), Some(-42));
    assert_eq!(parse_integer("+7"), Some(7));
    assert_eq!(parse_integer("9223372036854775807"), Some(i64::MAX));
    assert_eq!(parse_integer("-9223372036854775808"), Some(i64::MIN));
    assert_eq!(parse_integer("9223372036854775808"), None);
    assert_eq!(parse_integer("-"), None);
    assert_eq!(parse_integer("1a"), None);
    assert!(is_float_lexeme("1.5e-3"));
    assert!(is_float_lexeme(".5"));
    assert!(is_float_lexeme("-INF"));
    assert!(is_float_lexeme("7."));
    assert!(!is_float_lexeme("."));
    assert!(!is_float_lexeme("1e"));
    assert!(!is_float_lexeme("x"));
    assert_eq!("1.5e-3".parse::<f64>().is_ok(), is_float_lexeme("1.5e-3"));

    let mut stack: Vec<Node> = Vec::new();
    let create = Action::Create("integer".to_string(), "num".to_string());
    assert!(create.applies(&stack, "12"));
    assert!(!create.applies(&stack, "twelve"));
    create.execute_action(&mut stack, "12");
    assert!(matches!(&stack[0], Node { name, data: NodeData::Integer(12) } if name == "num"));
    Action::Create("string".to_string(), "id".to_string()).execute_action(&mut stack, "x");
    let group = Action::Group("pair".to_string(), 2);
    assert!(group.applies(&stack, ""));
    group.execute_action(&mut stack, "");
    assert_eq!(stack.len(), 1);
    match &stack[0].data {
        NodeData::Children(children) => {
            assert_eq!(children.len(), 2);
            assert_eq!(children[0].name, "num");
            assert_eq!(children[1].name, "id");
        },
        _ => panic!("expected children"),
    }
    stack.push(leaf("extra"));
    assert!(Action::MakeSibling.applies(&stack, ""));
    Action::MakeSibling.execute_action(&mut stack, "");
    assert_eq!(stack.len(), 1);
    assert!(matches!(&stack[0].data, NodeData::Children(c) if c.len() == 3));
    assert!(!Action::MakeSibling.applies(&stack, ""));
}

#[test]
fn test_node_actions() {
    let make_node = NodeAction::from_text("makenode~list~items").unwrap();
    assert!(matches!(&make_node, NodeAction::MakeNode(t, n) if t == "list" && n == "items"));
    assert_eq!(make_node.describe(), "make_node(list, items)");
    let family = NodeAction::from_text("makefamily~+2~pair").unwrap();
    assert!(matches!(&family, NodeAction::MakeFamily(2, n) if n == "pair"));
    assert_eq!(family.describe(), "make_family(2, pair)");
    assert!(matches!(NodeAction::from_text("x makesibling y"), Some(NodeAction::MakeSibling)));
    assert!(NodeAction::from_text("makefamily~-1~x").is_none());
    assert!(NodeAction::from_text("nothing").is_none());

    let mut stack: Vec<Node> = Vec::new();
    make_node.execute(&mut stack, "");
    NodeAction::MakeNode("integer".to_string(), "n".to_string()).execute(&mut stack, "oops");
    assert_eq!(stack.len(), 1);
    NodeAction::MakeNode("float".to_string(), "r".to_string()).execute(&mut stack, "2.5");
    assert!(matches!(&stack[1].data, NodeData::Float(x) if x == "2.5"));
    NodeAction::MakeSibling.execute(&mut stack, "");
    assert_eq!(stack.len(), 1);
    stack.push(Node { name: "empty".to_string(), data: NodeData::Children(vec![]) });
    family.execute(&mut stack, "");
    match &stack[0].data {
        NodeData::Children(children) => {
            assert!(matches!(children[0].data, NodeData::Children(_)));
            assert!(matches!(children[1].data, NodeData::Epsilon));
        },
        _ => panic!("expected children"),
    }
    NodeAction::MakeFamily(5, "big".to_string()).execute(&mut stack, "");
    assert!(stack.is_empty());
}
