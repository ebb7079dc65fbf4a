//! Checks of a new entry against the entries that already carry its identifier: what
//! makes it valid or invalid.
use crate::declarations::{DimensionList, FunctionParameter, ParameterList};
use crate::semantic_error::{SemanticError, SpecSemanticError};
use crate::symbol_table::copy::{copy_function, same_function_copy};
use crate::symbol_table::function::{function_text, Function};
use crate::symbol_table::param::Param;
use crate::symbol_table::symbol_table::{entry_id, entry_text, has_id, referred, referred_mut, SymbolTableEntry};
use crate::text::{str_eq, string_of};
use vstd::prelude::*;

verus! {

/// The declared parameters `list` have the data types of the parameters `params`,
/// position by position.
pub open spec fn parameters_match(list: Seq<FunctionParameter>, params: Seq<Param>) -> bool {
    &&& list.len() == params.len()
    &&& forall|i: int| 0 <= i < list.len() ==> #[trigger] params[i].data_type@ == list[i].data_type@
}

/// The error that a new function with identifier `id` and parameters `list`, described
/// by `repr`, raises against `entries`: the first entry that is not a function, or that
/// is a defined function with the same identifier and parameter types.
pub open spec fn function_redefinition(
    entries: Seq<SymbolTableEntry>,
    id: Seq<char>,
    list: Seq<FunctionParameter>,
    line: usize,
    column: usize,
    repr: Seq<char>,
) -> Option<SpecSemanticError>
    decreases entries.len(),
{
    if entries.len() == 0 {
        None
    } else {
        match function_redefinition(entries.drop_last(), id, list, line, column, repr) {
            Some(e) => Some(e),
            None => match entries.last() {
                SymbolTableEntry::Function(f) => if f.id@ == id && parameters_match(list, f.parameter_types@)
                    && f.defined {
                    Some(SpecSemanticError::Redefinition(line, column, repr, function_text(f)))
                } else {
                    None
                },
                other => Some(SpecSemanticError::Redefinition(line, column, repr, entry_text(other))),
            },
        }
    }
}

/// The error that a new symbol with identifier `id`, described by `repr`, raises
/// against `entries`: the first entry with the same identifier.
pub open spec fn id_redefinition(
    entries: Seq<SymbolTableEntry>,
    id: Seq<char>,
    line: usize,
    column: usize,
    repr: Seq<char>,
) -> Option<SpecSemanticError>
    decreases entries.len(),
{
    if entries.len() == 0 {
        None
    } else {
        match id_redefinition(entries.drop_last(), id, line, column, repr) {
            Some(e) => Some(e),
            None => if has_id(entries.last(), id) {
                Some(SpecSemanticError::Redefinition(line, column, repr, entry_text(entries.last())))
            } else {
                None
            },
        }
    }
}

/// The first function of `entries` with identifier `id` and the parameter types of
/// `list` that is declared but not defined yet.
pub open spec fn exact_declaration(entries: Seq<SymbolTableEntry>, id: Seq<char>, list: Seq<FunctionParameter>) -> Option<
    Function,
>
    decreases entries.len(),
{
    if entries.len() == 0 {
        None
    } else {
        match exact_declaration(entries.drop_last(), id, list) {
            Some(f) => Some(f),
            None => match entries.last() {
                SymbolTableEntry::Function(f) => if f.id@ == id && parameters_match(list, f.parameter_types@)
                    && !f.defined {
                    Some(f)
                } else {
                    None
                },
                _ => None,
            },
        }
    }
}

/// The position in `entries` of the function that `exact_declaration` finds.
pub open spec fn exact_declaration_index(entries: Seq<SymbolTableEntry>, id: Seq<char>, list: Seq<FunctionParameter>) -> Option<
    int,
>
    decreases entries.len(),
{
    if entries.len() == 0 {
        None
    } else {
        match exact_declaration_index(entries.drop_last(), id, list) {
            Some(k) => Some(k),
            None => match entries.last() {
                SymbolTableEntry::Function(f) => if f.id@ == id && parameters_match(list, f.parameter_types@)
                    && !f.defined {
                    Some(entries.len() - 1)
                } else {
                    None
                },
                _ => None,
            },
        }
    }
}

/// One overload warning for each function of `entries` with identifier `id` whose
/// parameter types differ from those of `list`.
pub open spec fn overload_warnings(
    entries: Seq<SymbolTableEntry>,
    id: Seq<char>,
    list: Seq<FunctionParameter>,
    line: usize,
    column: usize,
) -> Seq<SpecSemanticError>
    decreases entries.len(),
{
    if entries.len() == 0 {
        Seq::empty()
    } else {
        overload_warnings(entries.drop_last(), id, list, line, column) + match entries.last() {
            SymbolTableEntry::Function(f) => if f.id@ == id && !parameters_match(list, f.parameter_types@) {
                seq![SpecSemanticError::Overload(line, column, id)]
            } else {
                Seq::empty()
            },
            _ => Seq::empty(),
        }
    }
}

/// Whether the declared parameters `list` have the data types of `params`.
pub fn parameters_equal(list: &ParameterList, params: &Vec<Param>) -> (r: bool)
    ensures
        r == parameters_match(list.parameters@, params@),
{
    if list.parameters.len() != params.len() {
        return false;
    }
    let mut i: usize = 0;
    while i < params.len()
        invariant
            i <= params.len(),
            list.parameters.len() == params.len(),
            forall|k: int| 0 <= k < i ==> #[trigger] params@[k].data_type@ == list.parameters@[k].data_type@,
        decreases params.len() - i,
    {
        if !str_eq(params[i].data_type.as_str(), list.parameters[i].data_type.as_str()) {
            return false;
        }
        i += 1;
    }
    true
}

/// Performs no check.
pub fn function_declaration() {
}

/// Performs no check.
pub fn member_variable() {
}

/// Performs no check.
pub fn parameter() {
}

/// Performs no check.
pub fn local() {
}

/// Performs no check.
pub fn class() {
}

/// Performs no check.
pub fn inherit() {
}

/// Performs no check.
pub fn param() {
}

/// Checks that a new function with identifier `id` and parameters `parameter_list`,
/// described by `string_repr`, redefines none of `entries`: an entry that is not a
/// function, or a defined function with the same identifier and parameter types, is a
/// redefinition.
pub fn function_redefines(
    id: &str,
    parameter_list: &ParameterList,
    entries: &Vec<&SymbolTableEntry>,
    line: &usize,
    column: &usize,
    string_repr: &str,
) -> (r: Result<(), SemanticError>)
    ensures
        match r {
            Ok(()) => function_redefinition(
                referred(entries@),
                id@,
                parameter_list.parameters@,
                *line,
                *column,
                string_repr@,
            ) is None,
            Err(e) => function_redefinition(
                referred(entries@),
                id@,
                parameter_list.parameters@,
                *line,
                *column,
                string_repr@,
            ) == Some(e@),
        },
{
    let ghost s = referred(entries@);
    let mut i: usize = 0;
    assert(s.take(0) =~= Seq::<SymbolTableEntry>::empty());
    while i < entries.len()
        invariant
            i <= entries.len(),
            s == referred(entries@),
            function_redefinition(s.take(i as int), id@, parameter_list.parameters@, *line, *column, string_repr@)
                is None,
        decreases entries.len() - i,
    {
        assert(s.take(i + 1).drop_last() =~= s.take(i as int));
        assert(s.take(i + 1).last() == *entries[i as int]);
        match entries[i] {
            SymbolTableEntry::Function(function) => {
                if str_eq(id, function.id.as_str()) && parameters_equal(parameter_list, &function.parameter_types)
                    && function.defined {
                    proof {
                        lemma_function_redefinition_prefix(
                            s,
                            id@,
                            parameter_list.parameters@,
                            *line,
                            *column,
                            string_repr@,
                            i + 1,
                        );
                    }
                    return Err(SemanticError::Redefinition(*line, *column, string_of(string_repr), function.describe()));
                }
            },
            non_function => {
                proof {
                    lemma_function_redefinition_prefix(
                        s,
                        id@,
                        parameter_list.parameters@,
                        *line,
                        *column,
                        string_repr@,
                        i + 1,
                    );
                }
                return Err(SemanticError::Redefinition(*line, *column, string_of(string_repr), non_function.describe()));
            },
        }
        i += 1;
    }
    assert(s.take(i as int) =~= s);
    Ok(())
}

/// Checks that a new symbol with identifier `new_id`, described by `string_repr`,
/// redefines none of `entries`: an entry with the same identifier is a redefinition.
pub fn id_redefines(
    new_id: &str,
    entries: &Vec<&SymbolTableEntry>,
    line: &usize,
    column: &usize,
    string_repr: &str,
) -> (r: Result<(), SemanticError>)
    ensures
        match r {
            Ok(()) => id_redefinition(referred(entries@), new_id@, *line, *column, string_repr@) is None,
            Err(e) => id_redefinition(referred(entries@), new_id@, *line, *column, string_repr@) == Some(e@),
        },
{
    let ghost s = referred(entries@);
    let mut i: usize = 0;
    assert(s.take(0) =~= Seq::<SymbolTableEntry>::empty());
    while i < entries.len()
        invariant
            i <= entries.len(),
            s == referred(entries@),
            id_redefinition(s.take(i as int), new_id@, *line, *column, string_repr@) is None,
        decreases entries.len() - i,
    {
        assert(s.take(i + 1).drop_last() =~= s.take(i as int));
        assert(s.take(i + 1).last() == *entries[i as int]);
        if entries[i].has_id(new_id) {
            proof {
                lemma_id_redefinition_prefix(s, new_id@, *line, *column, string_repr@, i + 1);
            }
            return Err(SemanticError::Redefinition(*line, *column, string_of(string_repr), entries[i].describe()));
        }
        i += 1;
    }
    assert(s.take(i as int) =~= s);
    Ok(())
}

/// The first function of `entries` with identifier `id` and the parameter types of
/// `parameter_list` that is declared but not defined yet: the declaration that a
/// definition with that signature defines.
pub fn get_exact<'a>(id: &str, parameter_list: &ParameterList, entries: &'a Vec<&'a SymbolTableEntry>) -> (r: Option<
    &'a Function,
>)
    ensures
        match r {
            Some(f) => exact_declaration(referred(entries@), id@, parameter_list.parameters@) == Some(*f),
            None => exact_declaration(referred(entries@), id@, parameter_list.parameters@) is None,
        },
{
    let ghost s = referred(entries@);
    let mut i: usize = 0;
    assert(s.take(0) =~= Seq::<SymbolTableEntry>::empty());
    while i < entries.len()
        invariant
            i <= entries.len(),
            s == referred(entries@),
            exact_declaration(s.take(i as int), id@, parameter_list.parameters@) is None,
        decreases entries.len() - i,
    {
        assert(s.take(i + 1).drop_last() =~= s.take(i as int));
        assert(s.take(i + 1).last() == *entries[i as int]);
        match entries[i] {
            SymbolTableEntry::Function(function) => {
                if str_eq(id, function.id.as_str()) && parameters_equal(parameter_list, &function.parameter_types)
                    && !function.defined {
                    proof {
                        lemma_exact_declaration_prefix(s, id@, parameter_list.parameters@, i + 1);
                    }
                    return Some(function);
                }
            },
            _ => {},
        }
        i += 1;
    }
    assert(s.take(i as int) =~= s);
    None
}

/// A mutable reference to the first function of `entries` with identifier `id` and the
/// parameter types of `parameter_list` that is declared but not defined yet. What is
/// written through it is what that entry refers to afterwards; the other entries stay
/// as they are.
pub fn get_exact_mut<'a>(
    id: &str,
    parameter_list: &ParameterList,
    entries: &'a mut Vec<&'a mut SymbolTableEntry>,
) -> (r: Option<&'a mut Function>)
    ensures
        match exact_declaration_index(referred_mut(old(entries)@), id@, parameter_list.parameters@) {
            Some(k) => {
                &&& r matches Some(f)
                &&& exact_declaration(referred_mut(old(entries)@), id@, parameter_list.parameters@) == Some(*f)
                &&& *old(entries)@[k] == SymbolTableEntry::Function(*f)
                &&& final(entries)@ == old(entries)@.update(k, final(entries)@[k])
                &&& *final(entries)@[k] == SymbolTableEntry::Function(*final(f))
            },
            None => {
                &&& r is None
                &&& exact_declaration(referred_mut(old(entries)@), id@, parameter_list.parameters@) is None
            },
        },
{
    exact_in_slice_mut(id, parameter_list, entries.as_mut_slice())
}

/// `get_exact_mut` over a slice of entries.
fn exact_in_slice_mut<'a>(
    id: &str,
    parameter_list: &ParameterList,
    entries: &'a mut [&'a mut SymbolTableEntry],
) -> (r: Option<&'a mut Function>)
    ensures
        match exact_declaration_index(referred_mut(old(entries)@), id@, parameter_list.parameters@) {
            Some(k) => {
                &&& r matches Some(f)
                &&& exact_declaration(referred_mut(old(entries)@), id@, parameter_list.parameters@) == Some(*f)
                &&& *old(entries)@[k] == SymbolTableEntry::Function(*f)
                &&& final(entries)@ == old(entries)@.update(k, final(entries)@[k])
                &&& *final(entries)@[k] == SymbolTableEntry::Function(*final(f))
            },
            None => {
                &&& r is None
                &&& exact_declaration(referred_mut(old(entries)@), id@, parameter_list.parameters@) is None
            },
        },
{
    let ghost refs = entries@;
    let ghost s = referred_mut(refs);
    let ghost list = parameter_list.parameters@;
    let mut rest = entries;
    let ghost mut i: int = 0;
    assert(s.take(0) =~= Seq::<SymbolTableEntry>::empty());
    while rest.len() > 0
        invariant
            0 <= i,
            i + rest.len() == refs.len(),
            refs == old(entries)@,
            s == referred_mut(refs),
            list == parameter_list.parameters@,
            rest@ == refs.skip(i),
            exact_declaration_index(s.take(i), id@, list) is None,
            exact_declaration(s.take(i), id@, list) is None,
            final(entries)@ == refs.take(i) + final(rest)@,
        decreases rest.len(),
    {
        assert(s.take(i + 1).drop_last() =~= s.take(i));
        assert(s.take(i + 1).last() == *refs[i]);
        let (head, tail) = rest.split_at_mut(1);
        let ghost head_final = final(head)@;
        let entry = head.first_mut().unwrap();
        let ghost entry_final = *final(entry);
        assert(head_final == seq![entry_final]);
        let declared = match &**entry {
            SymbolTableEntry::Function(function) => str_eq(id, function.id.as_str()) && parameters_equal(
                parameter_list,
                &function.parameter_types,
            ) && !function.defined,
            _ => false,
        };
        if declared {
            match &mut **entry {
                SymbolTableEntry::Function(function) => {
                    proof {
                        assert(exact_declaration_index(s.take(i + 1), id@, list) == Some(i));
                        lemma_exact_declaration_index_prefix(s, id@, list, i + 1);
                        lemma_exact_declaration_prefix(s, id@, list, i + 1);
                        assert(final(entries)@ =~= refs.update(i, entry_final));
                    }
                    return Some(function);
                },
                _ => {},
            }
        }
        rest = tail;
        proof {
            i = i + 1;
        }
    }
    assert(s.take(i) =~= s);
    None
}

/// A copy of the first function of `entries` with identifier `id` and the parameter
/// types of `parameter_list` that is declared but not defined yet.
pub fn get_exact_clone(id: &str, parameter_list: &ParameterList, entries: &Vec<&SymbolTableEntry>) -> (r: Option<
    Function,
>)
    ensures
        match r {
            Some(f) => exact_declaration(referred(entries@), id@, parameter_list.parameters@) matches Some(d)
                && same_function_copy(d, f),
            None => exact_declaration(referred(entries@), id@, parameter_list.parameters@) is None,
        },
{
    match get_exact(id, parameter_list, entries) {
        Some(function) => Some(copy_function(function)),
        None => None,
    }
}

/// The overload warnings that a new function with identifier `id` and parameters
/// `parameter_list` raises against `entries`: one for each function with that
/// identifier and other parameter types.
pub fn warn_overloading_function(
    id: &str,
    parameter_list: &ParameterList,
    entries: &Vec<&SymbolTableEntry>,
    line: &usize,
    column: &usize,
) -> (r: Vec<SemanticError>)
    ensures
        crate::semantic_error::views(r@) == overload_warnings(
            referred(entries@),
            id@,
            parameter_list.parameters@,
            *line,
            *column,
        ),
{
    let ghost s = referred(entries@);
    let mut warnings: Vec<SemanticError> = Vec::new();
    let mut i: usize = 0;
    assert(s.take(0) =~= Seq::<SymbolTableEntry>::empty());
    assert(crate::semantic_error::views(warnings@) =~= Seq::<SpecSemanticError>::empty());
    while i < entries.len()
        invariant
            i <= entries.len(),
            s == referred(entries@),
            crate::semantic_error::views(warnings@) == overload_warnings(
                s.take(i as int),
                id@,
                parameter_list.parameters@,
                *line,
                *column,
            ),
        decreases entries.len() - i,
    {
        assert(s.take(i + 1).drop_last() =~= s.take(i as int));
        assert(s.take(i + 1).last() == *entries[i as int]);
        let ghost before = crate::semantic_error::views(warnings@);
        match entries[i] {
            SymbolTableEntry::Function(function) => {
                if str_eq(id, function.id.as_str()) && !parameters_equal(parameter_list, &function.parameter_types) {
                    warnings.push(SemanticError::Overload(*line, *column, string_of(id)));
                    assert(crate::semantic_error::views(warnings@) =~= before + seq![
                        SpecSemanticError::Overload(*line, *column, id@),
                    ]);
                } else {
                    assert(before + Seq::<SpecSemanticError>::empty() =~= before);
                }
            },
            _ => {
                assert(before + Seq::<SpecSemanticError>::empty() =~= before);
            },
        }
        i += 1;
    }
    assert(s.take(i as int) =~= s);
    warnings
}

/// Checks that every dimension of `dimension_list`, declared for `id`, is specified.
pub fn mandatory_dimensions(dimension_list: &DimensionList, id: &str) -> (r: Result<(), SemanticError>)
    ensures
        match r {
            Ok(()) => forall|i: int| 0 <= i < dimension_list.dimensions@.len() ==> #[trigger] dimension_list.dimensions@[i] is Some,
            Err(e) => (exists|i: int| 0 <= i < dimension_list.dimensions@.len() && #[trigger] dimension_list.dimensions@[i] is None)
                && e@ == SpecSemanticError::MissingDimension(dimension_list.line, dimension_list.column, id@),
        },
{
    let mut i: usize = 0;
    while i < dimension_list.dimensions.len()
        invariant
            i <= dimension_list.dimensions.len(),
            forall|k: int| 0 <= k < i ==> #[trigger] dimension_list.dimensions@[k] is Some,
        decreases dimension_list.dimensions.len() - i,
    {
        if dimension_list.dimensions[i].is_none() {
            return Err(SemanticError::MissingDimension(dimension_list.line, dimension_list.column, string_of(id)));
        }
        i += 1;
    }
    Ok(())
}

/// A redefinition found in a prefix is the first one of the whole list.
proof fn lemma_function_redefinition_prefix(
    s: Seq<SymbolTableEntry>,
    id: Seq<char>,
    list: Seq<FunctionParameter>,
    line: usize,
    column: usize,
    repr: Seq<char>,
    k: int,
)
    requires
        0 <= k <= s.len(),
        function_redefinition(s.take(k), id, list, line, column, repr) is Some,
    ensures
        function_redefinition(s, id, list, line, column, repr) == function_redefinition(
            s.take(k),
            id,
            list,
            line,
            column,
            repr,
        ),
    decreases s.len() - k,
{
    if k < s.len() {
        assert(s.take(k + 1).drop_last() =~= s.take(k));
        lemma_function_redefinition_prefix(s, id, list, line, column, repr, k + 1);
    } else {
        assert(s.take(k) =~= s);
    }
}

/// A redefinition found in a prefix is the first one of the whole list.
proof fn lemma_id_redefinition_prefix(
    s: Seq<SymbolTableEntry>,
    id: Seq<char>,
    line: usize,
    column: usize,
    repr: Seq<char>,
    k: int,
)
    requires
        0 <= k <= s.len(),
        id_redefinition(s.take(k), id, line, column, repr) is Some,
    ensures
        id_redefinition(s, id, line, column, repr) == id_redefinition(s.take(k), id, line, column, repr),
    decreases s.len() - k,
{
    if k < s.len() {
        assert(s.take(k + 1).drop_last() =~= s.take(k));
        lemma_id_redefinition_prefix(s, id, line, column, repr, k + 1);
    } else {
        assert(s.take(k) =~= s);
    }
}

/// A declaration found in a prefix is the first one of the whole list.
proof fn lemma_exact_declaration_prefix(s: Seq<SymbolTableEntry>, id: Seq<char>, list: Seq<FunctionParameter>, k: int)
    requires
        0 <= k <= s.len(),
        exact_declaration(s.take(k), id, list) is Some,
    ensures
        exact_declaration(s, id, list) == exact_declaration(s.take(k), id, list),
    decreases s.len() - k,
{
    if k < s.len() {
        assert(s.take(k + 1).drop_last() =~= s.take(k));
        lemma_exact_declaration_prefix(s, id, list, k + 1);
    } else {
        assert(s.take(k) =~= s);
    }
}

/// A position found in a prefix is the position found in the whole list.
proof fn lemma_exact_declaration_index_prefix(
    s: Seq<SymbolTableEntry>,
    id: Seq<char>,
    list: Seq<FunctionParameter>,
    k: int,
)
    requires
        0 <= k <= s.len(),
        exact_declaration_index(s.take(k), id, list) is Some,
    ensures
        exact_declaration_index(s, id, list) == exact_declaration_index(s.take(k), id, list),
    decreases s.len() - k,
{
    if k < s.len() {
        assert(s.take(k + 1).drop_last() =~= s.take(k));
        lemma_exact_declaration_index_prefix(s, id, list, k + 1);
    } else {
        assert(s.take(k) =~= s);
    }
}

/// A new function redefines an entry exactly where some entry is no function, or is a
/// defined function with the same identifier and a parameter list of the same length
/// with the same data type at every position; functions whose parameter lists differ
/// in length or in some data type are overloads, not redefinitions.
pub proof fn law_redefinition_needs_same_signature(
    entries: Seq<SymbolTableEntry>,
    id: Seq<char>,
    list: Seq<FunctionParameter>,
    line: usize,
    column: usize,
    repr: Seq<char>,
)
    ensures
        function_redefinition(entries, id, list, line, column, repr) is Some <==> exists|k: int|
            0 <= k < entries.len() && match #[trigger] entries[k] {
                SymbolTableEntry::Function(f) => {
                    &&& f.id@ == id
                    &&& f.defined
                    &&& f.parameter_types@.len() == list.len()
                    &&& forall|i: int| 0 <= i < list.len() ==> f.parameter_types@[i].data_type@ == list[i].data_type@
                },
                _ => true,
            },
    decreases entries.len(),
{
    if entries.len() > 0 {
        let init = entries.drop_last();
        law_redefinition_needs_same_signature(init, id, list, line, column, repr);
        if function_redefinition(init, id, list, line, column, repr) is Some {
            let k = choose|k: int|
                0 <= k < init.len() && match #[trigger] init[k] {
                    SymbolTableEntry::Function(f) => {
                        &&& f.id@ == id
                        &&& f.defined
                        &&& f.parameter_types@.len() == list.len()
                        &&& forall|i: int| 0 <= i < list.len() ==> f.parameter_types@[i].data_type@ == list[i].data_type@
                    },
                    _ => true,
                };
            assert(entries[k] == init[k]);
        } else {
            let n = entries.len() - 1;
            assert(entries[n] == entries.last());
            assert forall|k: int| 0 <= k < n implies #[trigger] entries[k] == init[k] by {}
        }
    }
}

/// The declaration that a definition defines is a function of `entries` with the
/// definition's identifier, not yet defined, whose parameter list has the same length
/// and the same data type at every position; where there is none, none is found.
pub proof fn law_declaration_has_same_signature(entries: Seq<SymbolTableEntry>, id: Seq<char>, list: Seq<FunctionParameter>)
    ensures
        exact_declaration(entries, id, list) matches Some(f) ==> {
            &&& entries.contains(SymbolTableEntry::Function(f))
            &&& f.id@ == id
            &&& !f.defined
            &&& f.parameter_types@.len() == list.len()
            &&& forall|i: int| 0 <= i < list.len() ==> f.parameter_types@[i].data_type@ == list[i].data_type@
        },
        exact_declaration(entries, id, list) is None ==> forall|k: int|
            0 <= k < entries.len() ==> match #[trigger] entries[k] {
                SymbolTableEntry::Function(f) => !(f.id@ == id && !f.defined && f.parameter_types@.len() == list.len()
                    && forall|i: int| 0 <= i < list.len() ==> f.parameter_types@[i].data_type@ == list[i].data_type@),
                _ => true,
            },
    decreases entries.len(),
{
    if entries.len() > 0 {
        let init = entries.drop_last();
        law_declaration_has_same_signature(init, id, list);
        let n = entries.len() - 1;
        assert(entries[n] == entries.last());
        assert forall|k: int| 0 <= k < n implies #[trigger] entries[k] == init[k] by {}
        match exact_declaration(init, id, list) {
            Some(f) => {
                let k = choose|k: int| 0 <= k < init.len() && init[k] == SymbolTableEntry::Function(f);
                assert(entries[k] == SymbolTableEntry::Function(f));
            },
            None => {
                match exact_declaration(entries, id, list) {
                    Some(f) => {
                        assert(entries[n] == SymbolTableEntry::Function(f));
                    },
                    None => {},
                }
            },
        }
    }
}

/// A new function raises one overload warning for each function of `entries` with its
/// identifier whose parameter list differs from its own, in length or in the data type
/// at some position, in the order of the entries; none for other entries.
pub proof fn law_overload_warnings(
    entries: Seq<SymbolTableEntry>,
    id: Seq<char>,
    list: Seq<FunctionParameter>,
    line: usize,
    column: usize,
)
    ensures
        overload_warnings(entries, id, list, line, column) == entries.filter_map(
            |e: SymbolTableEntry|
                match e {
                    SymbolTableEntry::Function(f) => if f.id@ == id && !(f.parameter_types@.len() == list.len()
                        && forall|i: int|
                        0 <= i < list.len() ==> #[trigger] f.parameter_types@[i].data_type@ == list[i].data_type@) {
                        Some(SpecSemanticError::Overload(line, column, id))
                    } else {
                        None
                    },
                    _ => None,
                },
        ),
    decreases entries.len(),
{
    if entries.len() > 0 {
        law_overload_warnings(entries.drop_last(), id, list, line, column);
    }
}

/// A new symbol redefines an entry exactly where some entry carries its identifier; the
/// error names the first of them.
pub proof fn law_id_redefinition(
    entries: Seq<SymbolTableEntry>,
    id: Seq<char>,
    line: usize,
    column: usize,
    repr: Seq<char>,
)
    ensures
        id_redefinition(entries, id, line, column, repr) is Some <==> exists|k: int|
            0 <= k < entries.len() && entry_id(#[trigger] entries[k]) == Some(id),
        id_redefinition(entries, id, line, column, repr) matches Some(e) ==> exists|k: int|
            0 <= k < entries.len() && entry_id(#[trigger] entries[k]) == Some(id) && e
                == SpecSemanticError::Redefinition(line, column, repr, entry_text(entries[k])) && forall|j: int|
                0 <= j < k ==> entry_id(#[trigger] entries[j]) != Some(id),
    decreases entries.len(),
{
    if entries.len() > 0 {
        let init = entries.drop_last();
        law_id_redefinition(init, id, line, column, repr);
        let n = entries.len() - 1;
        assert(entries[n] == entries.last());
        assert forall|k: int| 0 <= k < n implies #[trigger] entries[k] == init[k] by {}
        if id_redefinition(init, id, line, column, repr) is Some {
            let k = choose|k: int|
                0 <= k < init.len() && entry_id(#[trigger] init[k]) == Some(id) && id_redefinition(
                    init,
                    id,
                    line,
                    column,
                    repr,
                )->0 == SpecSemanticError::Redefinition(line, column, repr, entry_text(init[k])) && forall|j: int|
                    0 <= j < k ==> entry_id(#[trigger] init[j]) != Some(id);
            assert(entries[k] == init[k]);
        }
    }
}

} // verus!
