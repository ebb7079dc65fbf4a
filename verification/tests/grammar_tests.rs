use analyzer::first::ProductionMap;
use analyzer::follow::unexpanded_follow;
use analyzer::grammar::Grammar;
use analyzer::parse_table::ParseTable;
use analyzer::symbol::Symbol;
use std::collections::{HashMap, HashSet};

fn nt(name: &str) -> Symbol {
    Symbol::NonTerminal(name.to_string())
}

fn t(name: &str) -> Symbol {
    Symbol::Terminal(name.to_string())
}

fn set(v: Vec<Symbol>) -> HashSet<Symbol> {
    v.into_iter().collect()
}

fn test_productions() -> ProductionMap {
    vec![
        (nt("E"), vec![vec![nt("T"), nt("E'")]]),
        (nt("E'"), vec![vec![t("+"), nt("T"), nt("E'")], vec![Symbol::Epsilon]]),
        (nt("T"), vec![vec![nt("F"), nt("T'")]]),
        (nt("T'"), vec![vec![t("*"), nt("F"), nt("T'")], vec![Symbol::Epsilon]]),
        (
            nt("F"),
            vec![vec![t("0")], vec![t("1")], vec![t("("), nt("E"), t(")")]],
        ),
    ]
}

fn test_grammar() -> Grammar {
    Grammar::new(&test_productions(), &nt("E"))
}

fn production_map(p: &ProductionMap) -> HashMap<Symbol, Vec<Vec<Symbol>>> {
    p.iter().map(|(s, options)| (s.clone(), options.clone())).collect()
}

#[test]
fn test_grammar_from_stream() {
    let string = r#"
            <E> ::= <T> <E'>
            <E'> ::= '+' <T> <E'>
            <E'> ::= EPSILON
            <T> ::= <F> <T'>
            <T'> ::= '*' <F> <T'>
            <T'> ::= EPSILON
            <F> ::= '0'
            <F> ::= '1'
            <F> ::= '(' <E> ')'
        "#;
    let lines: Vec<String> = string.lines().map(|l| l.to_string()).collect();
    let expected = test_grammar();

    let grammar = Grammar::from_lines(&lines).unwrap();
    assert_eq!(production_map(grammar.productions()), production_map(expected.productions()));
    assert_eq!(grammar.start(), expected.start());
    for (symbol, _) in expected.productions() {
        assert_eq!(set(grammar.follow(symbol).clone()), set(expected.follow(symbol).clone()));
    }
}

#[test]
fn test_first_ok() {
    let g = test_grammar();
    assert_eq!(set(g.first(&nt("E"))), set(vec![t("0"), t("1"), t("(")]));
    assert_eq!(set(g.first(&nt("E'"))), set(vec![t("+"), Symbol::Epsilon]));
    assert_eq!(set(g.first(&nt("T"))), set(vec![t("0"), t("1"), t("(")]));
    assert_eq!(set(g.first(&nt("T'"))), set(vec![t("*"), Symbol::Epsilon]));
    assert_eq!(set(g.first(&nt("F"))), set(vec![t("0"), t("1"), t("(")]));
}

#[test]
fn test_follow() {
    let g = test_grammar();
    let p = g.productions();
    let s = g.start();
    assert_eq!(set(unexpanded_follow(p, s, &nt("E"))), set(vec![Symbol::Eos, t(")")]));
    assert_eq!(set(unexpanded_follow(p, s, &nt("E'"))), set(vec![nt("E"), nt("E'")]));
    assert_eq!(set(unexpanded_follow(p, s, &nt("T"))), set(vec![t("+"), nt("E"), nt("E'")]));
    assert_eq!(set(unexpanded_follow(p, s, &nt("T'"))), set(vec![nt("T"), nt("T'")]));
    assert_eq!(set(unexpanded_follow(p, s, &nt("F"))), set(vec![t("*"), nt("T"), nt("T'")]));
}

#[test]
fn test_follow_sets() {
    let g = test_grammar();
    assert_eq!(set(g.follow(&nt("E")).clone()), set(vec![Symbol::Eos, t(")")]));
    assert_eq!(set(g.follow(&nt("E'")).clone()), set(vec![Symbol::Eos, t(")")]));
    assert_eq!(set(g.follow(&nt("T")).clone()), set(vec![Symbol::Eos, t("+"), t(")")]));
    assert_eq!(set(g.follow(&nt("T'")).clone()), set(vec![Symbol::Eos, t("+"), t(")")]));
    assert_eq!(set(g.follow(&nt("F")).clone()), set(vec![t("*"), t("+"), Symbol::Eos, t(")")]));
}

fn table_map(table: &ParseTable) -> HashMap<Symbol, HashMap<Symbol, usize>> {
    let mut result = HashMap::new();
    for (symbol, row) in table.rows() {
        let mut r = HashMap::new();
        for (terminal, index) in row {
            r.insert(terminal.clone(), *index);
        }
        result.insert(symbol.clone(), r);
    }
    result
}

fn row(entries: Vec<(Symbol, usize)>) -> HashMap<Symbol, usize> {
    entries.into_iter().collect()
}

#[test]
fn test_parse_table() {
    let parse_table = ParseTable::from_grammar(&test_grammar());
    let mut expected = HashMap::new();
    expected.insert(nt("E"), row(vec![(t("0"), 0), (t("1"), 0), (t("("), 0)]));
    expected.insert(nt("E'"), row(vec![(t(")"), 1), (t("+"), 0), (Symbol::Eos, 1)]));
    expected.insert(nt("T"), row(vec![(t("0"), 0), (t("1"), 0), (t("("), 0)]));
    expected.insert(
        nt("T'"),
        row(vec![(t(")"), 1), (t("+"), 1), (t("*"), 0), (Symbol::Eos, 1)]),
    );
    expected.insert(nt("F"), row(vec![(t("0"), 0), (t("1"), 1), (t("("), 2)]));
    assert_eq!(expected, table_map(&parse_table));
}

#[test]
fn test_sentence_first_keeps_epsilon_only_when_all_vanish() {
    let g = test_grammar();
    assert_eq!(set(g.sentence_first(&vec![nt("T'"), t(")")])), set(vec![t("*"), t(")")]));
    assert_eq!(
        set(g.sentence_first(&vec![nt("T'"), nt("E'")])),
        set(vec![t("*"), t("+"), Symbol::Epsilon])
    );
    assert_eq!(set(g.sentence_first(&vec![nt("T'")])), set(vec![t("*"), Symbol::Epsilon]));
}

#[test]
fn test_first_of_non_terminal_with_vanishing_prefix() {
    let p: ProductionMap = vec![
        (nt("S"), vec![vec![nt("A"), nt("B"), t("c")]]),
        (nt("A"), vec![vec![t("a")], vec![Symbol::Epsilon]]),
        (nt("B"), vec![vec![t("b")], vec![Symbol::Epsilon]]),
    ];
    let g = Grammar::new(&p, &nt("S"));
    assert_eq!(set(g.first(&nt("S"))), set(vec![t("a"), t("b"), t("c")]));
}

#[test]
fn test_unexpanded_follow_needs_whole_rest_to_vanish() {
    let p: ProductionMap = vec![
        (nt("S"), vec![vec![nt("A"), nt("B"), t("c")]]),
        (nt("A"), vec![vec![t("a")]]),
        (nt("B"), vec![vec![t("b")], vec![Symbol::Epsilon]]),
    ];
    assert_eq!(set(unexpanded_follow(&p, &nt("S"), &nt("A"))), set(vec![t("b"), t("c")]));
    assert_eq!(set(unexpanded_follow(&p, &nt("S"), &nt("B"))), set(vec![t("c")]));
}

#[test]
fn test_expected_lookaheads() {
    let g = test_grammar();
    let table = ParseTable::from_grammar(&g);
    assert_eq!(set(table.expected(&nt("E"))), set(vec![t("0"), t("1"), t("(")]));
    assert_eq!(set(table.expected(&nt("E'"))), set(vec![t("+"), t(")"), Symbol::Eos]));
    assert!(table.expected(&t("+")).is_empty());
}
