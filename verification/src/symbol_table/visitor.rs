//! The checks made once the global table is complete: cyclic inheritance, inheritance
//! from what is no class, member functions declared but never defined, and members
//! that override or shadow inherited ones.
use crate::semantic_error::{append_errors, views, SemanticError, SpecSemanticError};
use crate::symbol_table::class::{class_text, Class};
use crate::symbol_table::data::{data_text, Data};
use crate::symbol_table::function::{function_text, same_function, same_types, Function};
use crate::symbol_table::inherit::texts;
use crate::symbol_table::inheritance::{cycle_reachable, inherited, inherited_names};
use crate::symbol_table::symbol_table::{entry_text, lookup, referred, SymbolTable, SymbolTableEntry};
use crate::text::{push_str, str_eq, string_of};
use vstd::prelude::*;

verus! {

/// Every member function of a class of `g` that is not defined names its class.
pub open spec fn members_scoped(g: Seq<SymbolTableEntry>) -> bool {
    forall|i: int, j: int|
        0 <= i < g.len() && #[trigger] g[i] is Class && 0 <= j < g[i]->Class_0.symbol_table.values@.len() ==> {
            let e = #[trigger] g[i]->Class_0.symbol_table.values@[j];
            e is Function && !e->Function_0.defined ==> e->Function_0.scope is Some
        }
}

/// The errors for the names that the class `c` inherits from: one for each name of a
/// symbol that is no class, and one for each name of nothing.
pub open spec fn inherit_errors(g: Seq<SymbolTableEntry>, c: Class, names: Seq<Seq<char>>) -> Seq<SpecSemanticError>
    decreases names.len(),
{
    if names.len() == 0 {
        Seq::empty()
    } else {
        inherit_errors(g, c, names.drop_last()) + match lookup(g, names.last()) {
            Some(SymbolTableEntry::Class(_)) => Seq::empty(),
            Some(other) => seq![SpecSemanticError::IncorrectType(c.line, c.column, entry_text(other), "a class type"@)],
            None => seq![SpecSemanticError::UndefinedType(c.line, c.column, names.last())],
        }
    }
}

/// The errors for the member function `f` from the inherited entries `ms` with its
/// identifier: an override for each inherited function that it is the same function
/// as, and a shadowing for each inherited member variable.
pub open spec fn function_match_errors(f: Function, ms: Seq<SymbolTableEntry>) -> Seq<SpecSemanticError>
    decreases ms.len(),
{
    if ms.len() == 0 {
        Seq::empty()
    } else {
        function_match_errors(f, ms.drop_last()) + match ms.last() {
            SymbolTableEntry::Function(m) => if same_function(m, f) {
                seq![SpecSemanticError::Override(f.line, f.column, function_text(f))]
            } else {
                Seq::empty()
            },
            SymbolTableEntry::Data(d) => seq![
                SpecSemanticError::Shadowing(f.line, f.column, function_text(f), data_text(d)),
            ],
            _ => Seq::empty(),
        }
    }
}

/// The errors for the member variable `d` from the inherited entries `ms` with its
/// identifier: a shadowing for each inherited function or member variable.
pub open spec fn data_match_errors(d: Data, ms: Seq<SymbolTableEntry>) -> Seq<SpecSemanticError>
    decreases ms.len(),
{
    if ms.len() == 0 {
        Seq::empty()
    } else {
        data_match_errors(d, ms.drop_last()) + match ms.last() {
            SymbolTableEntry::Function(m) => seq![
                SpecSemanticError::Shadowing(d.line, d.column, data_text(d), function_text(m)),
            ],
            SymbolTableEntry::Data(m) => seq![SpecSemanticError::Shadowing(d.line, d.column, data_text(d), data_text(m))],
            _ => Seq::empty(),
        }
    }
}

/// The qualified name of a member function: its class, "::" and its identifier.
pub open spec fn qualified_name(f: Function) -> Seq<char> {
    f.scope->0@ + "::"@ + f.id@
}

/// The errors for one entry of the table of the class `c`.
pub open spec fn member_errors(g: Seq<SymbolTableEntry>, c: Class, e: SymbolTableEntry) -> Seq<SpecSemanticError> {
    match e {
        SymbolTableEntry::Inherit(i) => inherit_errors(g, c, texts(i.names@)),
        SymbolTableEntry::Function(f) => (if f.defined {
            Seq::empty()
        } else {
            seq![SpecSemanticError::DeclaredButNotDefined(f.line, f.column, qualified_name(f))]
        }) + function_match_errors(f, inherited(g, c, f.id@)),
        SymbolTableEntry::Data(d) => data_match_errors(d, inherited(g, c, d.id@)),
        _ => Seq::empty(),
    }
}

/// The errors for the entries `s` of the table of the class `c`, in order.
pub open spec fn members_errors(g: Seq<SymbolTableEntry>, c: Class, s: Seq<SymbolTableEntry>) -> Seq<SpecSemanticError>
    decreases s.len(),
{
    if s.len() == 0 {
        Seq::empty()
    } else {
        members_errors(g, c, s.drop_last()) + member_errors(g, c, s.last())
    }
}

/// The errors for the class `c`: a cyclic inheritance alone, or else those of its
/// members.
pub open spec fn class_errors(g: Seq<SymbolTableEntry>, c: Class) -> Seq<SpecSemanticError> {
    if cycle_reachable(g, inherited_names(c.symbol_table.values@), Seq::empty()) {
        seq![SpecSemanticError::CyclicInheritance(c.line, c.column, class_text(c))]
    } else {
        members_errors(g, c, c.symbol_table.values@)
    }
}

/// The errors for the entries `s` of the global table `g`: those of each class, in
/// order.
pub open spec fn entries_errors(g: Seq<SymbolTableEntry>, s: Seq<SymbolTableEntry>) -> Seq<SpecSemanticError>
    decreases s.len(),
{
    if s.len() == 0 {
        Seq::empty()
    } else {
        entries_errors(g, s.drop_last()) + match s.last() {
            SymbolTableEntry::Class(c) => class_errors(g, c),
            _ => Seq::empty(),
        }
    }
}

/// The errors that the checks of a complete global table `g` find.
pub open spec fn phase_errors(g: Seq<SymbolTableEntry>) -> Seq<SpecSemanticError> {
    entries_errors(g, g)
}

/// The errors for the names that `class` inherits from.
fn inherit_list_errors(global_table: &SymbolTable, class: &Class, names: &Vec<String>) -> (r: Vec<SemanticError>)
    ensures
        views(r@) == inherit_errors(global_table.values@, *class, texts(names@)),
{
    let ghost g = global_table.values@;
    let ghost ns = texts(names@);
    let mut errors: Vec<SemanticError> = Vec::new();
    let mut i: usize = 0;
    assert(ns.take(0) =~= Seq::<Seq<char>>::empty());
    assert(views(errors@) =~= Seq::<SpecSemanticError>::empty());
    while i < names.len()
        invariant
            i <= names.len(),
            g == global_table.values@,
            ns == texts(names@),
            views(errors@) == inherit_errors(g, *class, ns.take(i as int)),
        decreases names.len() - i,
    {
        assert(ns.take(i + 1).drop_last() =~= ns.take(i as int));
        assert(ns.take(i + 1).last() == names@[i as int]@);
        let ghost before = views(errors@);
        match global_table.get(names[i].as_str()) {
            Some(SymbolTableEntry::Class(_)) => {
                assert(before + Seq::<SpecSemanticError>::empty() =~= before);
            },
            Some(other) => {
                let found = other.describe();
                errors.push(SemanticError::IncorrectType(class.line, class.column, found, string_of("a class type")));
                assert(views(errors@) =~= before + seq![
                    SpecSemanticError::IncorrectType(class.line, class.column, entry_text(*other), "a class type"@),
                ]);
            },
            None => {
                errors.push(SemanticError::UndefinedType(class.line, class.column, names[i].clone()));
                assert(views(errors@) =~= before + seq![
                    SpecSemanticError::UndefinedType(class.line, class.column, names@[i as int]@),
                ]);
            },
        }
        i += 1;
    }
    assert(ns.take(i as int) =~= ns);
    errors
}

/// The errors for the member function `function` of `class` from the inherited entries
/// `matches`.
fn function_matches_errors(function: &Function, matches: &Vec<&SymbolTableEntry>) -> (r: Vec<SemanticError>)
    ensures
        views(r@) == function_match_errors(*function, referred(matches@)),
{
    let ghost s = referred(matches@);
    let mut errors: Vec<SemanticError> = Vec::new();
    let mut i: usize = 0;
    assert(s.take(0) =~= Seq::<SymbolTableEntry>::empty());
    assert(views(errors@) =~= Seq::<SpecSemanticError>::empty());
    while i < matches.len()
        invariant
            i <= matches.len(),
            s == referred(matches@),
            views(errors@) == function_match_errors(*function, s.take(i as int)),
        decreases matches.len() - i,
    {
        assert(s.take(i + 1).drop_last() =~= s.take(i as int));
        assert(s.take(i + 1).last() == *matches[i as int]);
        let ghost before = views(errors@);
        match matches[i] {
            SymbolTableEntry::Function(matching_function) => {
                if str_eq(matching_function.id.as_str(), function.id.as_str()) && same_types(
                    &matching_function.parameter_types,
                    &function.parameter_types,
                ) {
                    errors.push(SemanticError::Override(function.line, function.column, function.describe()));
                    assert(views(errors@) =~= before + seq![
                        SpecSemanticError::Override(function.line, function.column, function_text(*function)),
                    ]);
                } else {
                    assert(before + Seq::<SpecSemanticError>::empty() =~= before);
                }
            },
            SymbolTableEntry::Data(matching_variable) => {
                errors.push(
                    SemanticError::Shadowing(function.line, function.column, function.describe(), matching_variable.describe()),
                );
                assert(views(errors@) =~= before + seq![
                    SpecSemanticError::Shadowing(
                        function.line,
                        function.column,
                        function_text(*function),
                        data_text(*matching_variable),
                    ),
                ]);
            },
            _ => {
                assert(before + Seq::<SpecSemanticError>::empty() =~= before);
            },
        }
        i += 1;
    }
    assert(s.take(i as int) =~= s);
    errors
}

/// The errors for the member variable `variable` from the inherited entries `matches`.
fn data_matches_errors(variable: &Data, matches: &Vec<&SymbolTableEntry>) -> (r: Vec<SemanticError>)
    ensures
        views(r@) == data_match_errors(*variable, referred(matches@)),
{
    let ghost s = referred(matches@);
    let mut errors: Vec<SemanticError> = Vec::new();
    let mut i: usize = 0;
    assert(s.take(0) =~= Seq::<SymbolTableEntry>::empty());
    assert(views(errors@) =~= Seq::<SpecSemanticError>::empty());
    while i < matches.len()
        invariant
            i <= matches.len(),
            s == referred(matches@),
            views(errors@) == data_match_errors(*variable, s.take(i as int)),
        decreases matches.len() - i,
    {
        assert(s.take(i + 1).drop_last() =~= s.take(i as int));
        assert(s.take(i + 1).last() == *matches[i as int]);
        let ghost before = views(errors@);
        match matches[i] {
            SymbolTableEntry::Function(matching_function) => {
                errors.push(
                    SemanticError::Shadowing(variable.line, variable.column, variable.describe(), matching_function.describe()),
                );
                assert(views(errors@) =~= before + seq![
                    SpecSemanticError::Shadowing(
                        variable.line,
                        variable.column,
                        data_text(*variable),
                        function_text(*matching_function),
                    ),
                ]);
            },
            SymbolTableEntry::Data(matching_variable) => {
                errors.push(
                    SemanticError::Shadowing(variable.line, variable.column, variable.describe(), matching_variable.describe()),
                );
                assert(views(errors@) =~= before + seq![
                    SpecSemanticError::Shadowing(
                        variable.line,
                        variable.column,
                        data_text(*variable),
                        data_text(*matching_variable),
                    ),
                ]);
            },
            _ => {
                assert(before + Seq::<SpecSemanticError>::empty() =~= before);
            },
        }
        i += 1;
    }
    assert(s.take(i as int) =~= s);
    errors
}

/// The errors for one entry of the table of `class`.
fn member_entry_errors(global_table: &SymbolTable, class: &Class, entry: &SymbolTableEntry) -> (r: Vec<SemanticError>)
    requires
        entry is Function && !entry->Function_0.defined ==> entry->Function_0.scope is Some,
    ensures
        views(r@) == member_errors(global_table.values@, *class, *entry),
{
    match entry {
        SymbolTableEntry::Inherit(inherit_list) => inherit_list_errors(global_table, class, &inherit_list.names),
        SymbolTableEntry::Function(function) => {
            let mut errors: Vec<SemanticError> = Vec::new();
            if !function.defined {
                let mut name = match &function.scope {
                    Some(scope) => scope.clone(),
                    None => String::new(),
                };
                push_str(&mut name, "::");
                push_str(&mut name, function.id.as_str());
                errors.push(SemanticError::DeclaredButNotDefined(function.line, function.column, name));
            }
            let ghost first = views(errors@);
            let matches = SymbolTable::get_all_inherited(class, function.id.as_str(), global_table);
            let more = function_matches_errors(function, &matches);
            append_errors(&mut errors, more);
            assert(first =~= (if function.defined {
                Seq::<SpecSemanticError>::empty()
            } else {
                seq![SpecSemanticError::DeclaredButNotDefined(function.line, function.column, qualified_name(*function))]
            }));
            errors
        },
        SymbolTableEntry::Data(variable) => {
            let matches = SymbolTable::get_all_inherited(class, variable.id.as_str(), global_table);
            data_matches_errors(variable, &matches)
        },
        _ => {
            let errors: Vec<SemanticError> = Vec::new();
            assert(views(errors@) =~= Seq::<SpecSemanticError>::empty());
            errors
        },
    }
}

/// The errors for the class `class` of the global table.
fn class_check_errors(global_table: &SymbolTable, class: &Class) -> (r: Vec<SemanticError>)
    requires
        forall|j: int| 0 <= j < class.symbol_table.values@.len() ==> {
            let e = #[trigger] class.symbol_table.values@[j];
            e is Function && !e->Function_0.defined ==> e->Function_0.scope is Some
        },
    ensures
        views(r@) == class_errors(global_table.values@, *class),
{
    let mut errors: Vec<SemanticError> = Vec::new();
    if class.symbol_table.inherit_list_has_cycles(global_table) {
        errors.push(SemanticError::CyclicInheritance(class.line, class.column, class.describe()));
        assert(views(errors@) =~= seq![SpecSemanticError::CyclicInheritance(class.line, class.column, class_text(*class))]);
        return errors;
    }
    let ghost g = global_table.values@;
    let ghost s = class.symbol_table.values@;
    let mut i: usize = 0;
    assert(s.take(0) =~= Seq::<SymbolTableEntry>::empty());
    assert(views(errors@) =~= Seq::<SpecSemanticError>::empty());
    while i < class.symbol_table.values.len()
        invariant
            i <= class.symbol_table.values.len(),
            g == global_table.values@,
            s == class.symbol_table.values@,
            forall|j: int| 0 <= j < s.len() ==> {
                let e = #[trigger] s[j];
                e is Function && !e->Function_0.defined ==> e->Function_0.scope is Some
            },
            views(errors@) == members_errors(g, *class, s.take(i as int)),
        decreases class.symbol_table.values.len() - i,
    {
        assert(s.take(i + 1).drop_last() =~= s.take(i as int));
        assert(s.take(i + 1).last() == s[i as int]);
        let more = member_entry_errors(global_table, class, &class.symbol_table.values[i]);
        append_errors(&mut errors, more);
        i += 1;
    }
    assert(s.take(i as int) =~= s);
    errors
}

/// The checks made once the global table is complete. For each class, in order: a
/// cyclic inheritance, which stops the checks of that class; else, for each entry of
/// its table in order, each name inherited from that names no class, a member function
/// declared but not defined, a member function that is the same function as an
/// inherited one (an override), and a member that has the identifier of an inherited
/// member variable, or a member variable that has that of an inherited function
/// (shadowing).
pub fn end_of_phase(global_table: &SymbolTable) -> (r: Vec<SemanticError>)
    requires
        members_scoped(global_table.values@),
    ensures
        views(r@) == phase_errors(global_table.values@),
{
    let ghost g = global_table.values@;
    let mut errors: Vec<SemanticError> = Vec::new();
    let mut i: usize = 0;
    assert(g.take(0) =~= Seq::<SymbolTableEntry>::empty());
    assert(views(errors@) =~= Seq::<SpecSemanticError>::empty());
    while i < global_table.values.len()
        invariant
            i <= global_table.values.len(),
            g == global_table.values@,
            members_scoped(g),
            views(errors@) == entries_errors(g, g.take(i as int)),
        decreases global_table.values.len() - i,
    {
        assert(g.take(i + 1).drop_last() =~= g.take(i as int));
        assert(g.take(i + 1).last() == g[i as int]);
        let ghost before = views(errors@);
        match &global_table.values[i] {
            SymbolTableEntry::Class(class) => {
                assert forall|j: int| 0 <= j < class.symbol_table.values@.len() implies {
                    let e = #[trigger] class.symbol_table.values@[j];
                    e is Function && !e->Function_0.defined ==> e->Function_0.scope is Some
                } by {
                    assert(g[i as int] is Class);
                    assert(g[i as int]->Class_0.symbol_table.values@[j] == class.symbol_table.values@[j]);
                }
                let more = class_check_errors(global_table, class);
                append_errors(&mut errors, more);
            },
            _ => {
                assert(before + Seq::<SpecSemanticError>::empty() =~= before);
            },
        }
        i += 1;
    }
    assert(g.take(i as int) =~= g);
    errors
}

/// The shadowing errors of the member variable `d` against the entries `ms`: one for
/// each entry that is a function or a member variable, in order, naming `d` and it.
proof fn lemma_data_match_errors(d: Data, ms: Seq<SymbolTableEntry>)
    ensures
        data_match_errors(d, ms) == ms.filter(|m: SymbolTableEntry| m is Function || m is Data).map_values(
            |m: SymbolTableEntry| SpecSemanticError::Shadowing(d.line, d.column, data_text(d), entry_text(m)),
        ),
    decreases ms.len(),
{
    reveal(Seq::filter);
    let pred = |m: SymbolTableEntry| m is Function || m is Data;
    let f = |m: SymbolTableEntry| SpecSemanticError::Shadowing(d.line, d.column, data_text(d), entry_text(m));
    if ms.len() == 0 {
        assert(ms.filter(pred) =~= Seq::<SymbolTableEntry>::empty());
        assert(ms.filter(pred).map_values(f) =~= Seq::<SpecSemanticError>::empty());
    } else {
        lemma_data_match_errors(d, ms.drop_last());
        let sub = ms.drop_last().filter(pred);
        if pred(ms.last()) {
            assert(ms.filter(pred) == sub.push(ms.last()));
            assert(sub.push(ms.last()).map_values(f) =~= sub.map_values(f) + seq![f(ms.last())]);
        } else {
            assert(ms.filter(pred) == sub);
            assert(sub.map_values(f) + Seq::<SpecSemanticError>::empty() =~= sub.map_values(f));
        }
    }
}

/// A member variable `d` of the class `c` shadows every inherited entry with its
/// identifier that is a member function or a member variable: its errors are exactly
/// one shadowing for each of them, in the order of the inheritance search, naming `d`
/// and the inherited entry.
pub proof fn law_member_variable_shadowing(g: Seq<SymbolTableEntry>, c: Class, d: Data)
    ensures
        member_errors(g, c, SymbolTableEntry::Data(d)) == inherited(g, c, d.id@).filter(
            |m: SymbolTableEntry| m is Function || m is Data,
        ).map_values(|m: SymbolTableEntry| SpecSemanticError::Shadowing(d.line, d.column, data_text(d), entry_text(m))),
{
    lemma_data_match_errors(d, inherited(g, c, d.id@));
}

proof fn lemma_function_match_errors(f: Function, ms: Seq<SymbolTableEntry>)
    ensures
        function_match_errors(f, ms) == ms.filter_map(
            |m: SymbolTableEntry|
                match m {
                    SymbolTableEntry::Function(h) => if h.id@ == f.id@ && h.parameter_types@.len()
                        == f.parameter_types@.len() && forall|i: int|
                        0 <= i < f.parameter_types@.len() ==> #[trigger] h.parameter_types@[i].data_type@
                            == f.parameter_types@[i].data_type@ {
                        Some(SpecSemanticError::Override(f.line, f.column, function_text(f)))
                    } else {
                        None
                    },
                    SymbolTableEntry::Data(v) => Some(
                        SpecSemanticError::Shadowing(f.line, f.column, function_text(f), data_text(v)),
                    ),
                    _ => None,
                },
        ),
    decreases ms.len(),
{
    if ms.len() > 0 {
        lemma_function_match_errors(f, ms.drop_last());
        match ms.last() {
            SymbolTableEntry::Function(h) => {
                if same_function(h, f) {
                    assert(h.parameter_types@.len() == f.parameter_types@.len());
                } else if h.id@ == f.id@ && h.parameter_types@.len() == f.parameter_types@.len() {
                    assert(!(forall|i: int|
                        0 <= i < f.parameter_types@.len() ==> #[trigger] h.parameter_types@[i].data_type@
                            == f.parameter_types@[i].data_type@));
                }
            },
            _ => {},
        }
    }
}

/// A member function `f` of the class `c` raises, besides a declared-but-not-defined
/// error where it has no definition, one error for each inherited entry with its
/// identifier, in the order of the inheritance search: an override for an inherited
/// function with the same parameter data types at every position, a shadowing for an
/// inherited member variable, and none for any other entry.
pub proof fn law_member_function_matches(g: Seq<SymbolTableEntry>, c: Class, f: Function)
    ensures
        member_errors(g, c, SymbolTableEntry::Function(f)) == (if f.defined {
            Seq::<SpecSemanticError>::empty()
        } else {
            seq![SpecSemanticError::DeclaredButNotDefined(f.line, f.column, f.scope->0@ + "::"@ + f.id@)]
        }) + inherited(g, c, f.id@).filter_map(
            |m: SymbolTableEntry|
                match m {
                    SymbolTableEntry::Function(h) => if h.id@ == f.id@ && h.parameter_types@.len()
                        == f.parameter_types@.len() && forall|i: int|
                        0 <= i < f.parameter_types@.len() ==> #[trigger] h.parameter_types@[i].data_type@
                            == f.parameter_types@[i].data_type@ {
                        Some(SpecSemanticError::Override(f.line, f.column, function_text(f)))
                    } else {
                        None
                    },
                    SymbolTableEntry::Data(v) => Some(
                        SpecSemanticError::Shadowing(f.line, f.column, function_text(f), data_text(v)),
                    ),
                    _ => None,
                },
        ),
{
    lemma_function_match_errors(f, inherited(g, c, f.id@));
}

/// The names that a class inherits from raise one error each where they name no class:
/// an undefined type where they name nothing, and an incorrect type naming the entry
/// otherwise; in the order of the names.
pub proof fn law_inherit_errors(g: Seq<SymbolTableEntry>, c: Class, names: Seq<Seq<char>>)
    ensures
        inherit_errors(g, c, names) == names.filter_map(
            |n: Seq<char>|
                match lookup(g, n) {
                    Some(SymbolTableEntry::Class(_)) => None,
                    Some(other) => Some(
                        SpecSemanticError::IncorrectType(c.line, c.column, entry_text(other), "a class type"@),
                    ),
                    None => Some(SpecSemanticError::UndefinedType(c.line, c.column, n)),
                },
        ),
    decreases names.len(),
{
    if names.len() > 0 {
        law_inherit_errors(g, c, names.drop_last());
    }
}

} // verus!
