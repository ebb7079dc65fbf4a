//! The decisions of type checking: whether the operands of an operator agree, which
//! overload a call selects, whether the arguments of a call fit the parameters, whether
//! an identifier and its indices fit its declaration, and whether a function returns
//! what it declares. The walk over the syntax tree that gathers the types is left to
//! the caller.
use crate::semantic_error::{views, SemanticError, SpecSemanticError};
use crate::symbol_table::copy::{copy_function, same_function_copy, same_param, same_params};
use crate::symbol_table::function::Function;
use crate::symbol_table::inherit::texts;
use crate::symbol_table::param::Param;
use crate::symbol_table::symbol_table::{
    all_with_id, law_unwritten_references_leave_entries, lookup, referred, referred_mut, with_id_replaced, SymbolTable,
    SymbolTableEntry,
};
use crate::symbol_table::utils::parameter_type_text;
use crate::text::{
    copy_option_string, copy_string, float_text, integer_text, is_float_text, is_integer_text, is_string_text, joined,
    option_text, push_str, str_eq, string_of, string_text,
};
use vstd::prelude::*;

verus! {

/// The state that type checking carries from node to node; it holds nothing.
pub struct State {}

/// What type checking reads of an argument of a call: its data type and, where it is an
/// array, its number of dimensions.
pub struct Argument {
    pub data_type: String,
    pub dimensions: Option<usize>,
}

/// The operands of a binary operator, of types `lhs` and `rhs`, must have the same type,
/// which is the type of the operation; the error refers to the right operand.
pub fn check_binary_types(lhs: &str, rhs: &str, rhs_line: usize, rhs_column: usize) -> (r: Result<String, SemanticError>)
    ensures
        match r {
            Ok(t) => lhs@ == rhs@ && t@ == lhs@,
            Err(e) => lhs@ != rhs@ && e@ == SpecSemanticError::BinaryType(rhs_line, rhs_column, lhs@, rhs@),
        },
{
    if str_eq(lhs, rhs) {
        Ok(string_of(lhs))
    } else {
        Err(SemanticError::BinaryType(rhs_line, rhs_column, string_of(lhs), string_of(rhs)))
    }
}

/// A relational operator applies to integers and floats only.
pub fn check_relational_type(d_type: &str, line: usize, column: usize) -> (r: Option<SemanticError>)
    ensures
        match r {
            Some(e) => !(d_type@ == integer_text() || d_type@ == float_text()) && e@
                == SpecSemanticError::InvalidRelop(line, column, d_type@),
            None => d_type@ == integer_text() || d_type@ == float_text(),
        },
{
    if is_integer_text(d_type) || is_float_text(d_type) {
        None
    } else {
        Some(SemanticError::InvalidRelop(line, column, string_of(d_type)))
    }
}

/// The parameters `ps` have the data types `types`, position by position.
pub open spec fn takes_types(ps: Seq<Param>, types: Seq<Seq<char>>) -> bool {
    &&& ps.len() == types.len()
    &&& forall|i: int| 0 <= i < ps.len() ==> #[trigger] ps[i].data_type@ == types[i]
}

/// The first function of `s` whose parameters have the data types `types`.
pub open spec fn first_taking(s: Seq<SymbolTableEntry>, types: Seq<Seq<char>>) -> Option<Function>
    decreases s.len(),
{
    if s.len() == 0 {
        None
    } else {
        match first_taking(s.drop_last(), types) {
            Some(f) => Some(f),
            None => match s.last() {
                SymbolTableEntry::Function(f) => if takes_types(f.parameter_types@, types) {
                    Some(f)
                } else {
                    None
                },
                _ => None,
            },
        }
    }
}

/// Every entry of `s` that comes before the first function whose parameters have the
/// data types `types` is a function.
pub open spec fn functions_until_taken(s: Seq<SymbolTableEntry>, types: Seq<Seq<char>>) -> bool {
    forall|i: int| 0 <= i < s.len() && first_taking(#[trigger] s.take(i), types) is None ==> s[i] is Function
}

/// The first function found in a prefix is the first of the whole list.
proof fn lemma_first_taking_prefix(s: Seq<SymbolTableEntry>, types: Seq<Seq<char>>, k: int)
    requires
        0 <= k <= s.len(),
        first_taking(s.take(k), types) is Some,
    ensures
        first_taking(s, types) == first_taking(s.take(k), types),
    decreases s.len() - k,
{
    if k < s.len() {
        assert(s.take(k + 1).drop_last() =~= s.take(k));
        lemma_first_taking_prefix(s, types, k + 1);
    } else {
        assert(s.take(k) =~= s);
    }
}

/// Whether the parameters `ps` have the data types `types`.
fn takes_types_exec(ps: &Vec<Param>, types: &[String]) -> (r: bool)
    ensures
        r == takes_types(ps@, texts(types@)),
{
    if ps.len() != types.len() {
        return false;
    }
    let mut i: usize = 0;
    while i < ps.len()
        invariant
            i <= ps.len(),
            ps.len() == types.len(),
            forall|k: int| 0 <= k < i ==> #[trigger] ps@[k].data_type@ == texts(types@)[k],
        decreases ps.len() - i,
    {
        if !str_eq(ps[i].data_type.as_str(), types[i].as_str()) {
            return false;
        }
        i += 1;
    }
    true
}

/// The overload of the free function `function_id` that a call with arguments of the
/// data types `argument_types` selects: a copy of the first function with that
/// identifier whose parameters have those data types (dimensions aside); `Err(None)`
/// where no entry has the identifier, `Err(Some(()))` where none of them fits. The
/// entries met before the selected one must all be functions.
pub fn select_free_overload(function_id: &str, argument_types: &[String], global_table: &SymbolTable) -> (r: Result<
    Function,
    Option<()>,
>)
    requires
        functions_until_taken(all_with_id(global_table.values@, function_id@), texts(argument_types@)),
    ensures
        match r {
            Ok(f) => first_taking(all_with_id(global_table.values@, function_id@), texts(argument_types@)) matches Some(
                g,
            ) && same_function_copy(g, f),
            Err(None) => all_with_id(global_table.values@, function_id@).len() == 0,
            Err(Some(())) => all_with_id(global_table.values@, function_id@).len() > 0 && first_taking(
                all_with_id(global_table.values@, function_id@),
                texts(argument_types@),
            ) is None,
        },
{
    let matches = global_table.get_all(function_id);
    if matches.len() == 0 {
        return Err(None);
    }
    let ghost s = referred(matches@);
    let ghost types = texts(argument_types@);
    let mut i: usize = 0;
    assert(s.take(0) =~= Seq::<SymbolTableEntry>::empty());
    while i < matches.len()
        invariant
            i <= matches.len(),
            s == referred(matches@),
            s == all_with_id(global_table.values@, function_id@),
            types == texts(argument_types@),
            functions_until_taken(s, types),
            first_taking(s.take(i as int), types) is None,
        decreases matches.len() - i,
    {
        assert(s.take(i + 1).drop_last() =~= s.take(i as int));
        assert(s.take(i + 1).last() == *matches[i as int]);
        assert(s[i as int] is Function);
        match matches[i] {
            SymbolTableEntry::Function(function) => {
                if takes_types_exec(&function.parameter_types, argument_types) {
                    proof {
                        lemma_first_taking_prefix(s, types, i + 1);
                    }
                    return Ok(copy_function(function));
                }
            },
            _ => {},
        }
        i += 1;
    }
    assert(s.take(i as int) =~= s);
    Err(Some(()))
}

/// The position in `s` of the function that `first_taking` finds.
pub open spec fn first_taking_index(s: Seq<SymbolTableEntry>, types: Seq<Seq<char>>) -> Option<int>
    decreases s.len(),
{
    if s.len() == 0 {
        None
    } else {
        match first_taking_index(s.drop_last(), types) {
            Some(k) => Some(k),
            None => match s.last() {
                SymbolTableEntry::Function(f) => if takes_types(f.parameter_types@, types) {
                    Some(s.len() - 1)
                } else {
                    None
                },
                _ => None,
            },
        }
    }
}

/// Where `first_taking` finds a function, `first_taking_index` gives its position.
proof fn lemma_first_taking_index(s: Seq<SymbolTableEntry>, types: Seq<Seq<char>>)
    ensures
        match first_taking_index(s, types) {
            Some(k) => 0 <= k < s.len() && s[k] is Function && first_taking(s, types) == Some(s[k]->Function_0)
                && first_taking(s.take(k), types) is None,
            None => first_taking(s, types) is None,
        },
    decreases s.len(),
{
    if s.len() > 0 {
        lemma_first_taking_index(s.drop_last(), types);
        match first_taking_index(s.drop_last(), types) {
            Some(k) => {
                assert(s.drop_last()[k] == s[k]);
                assert(s.drop_last().take(k) =~= s.take(k));
            },
            None => {
                assert(s.take(s.len() - 1) =~= s.drop_last());
            },
        }
    }
}

/// Lets go of the mutable references `refs`, through which nothing was written.
fn release(refs: Vec<&mut SymbolTableEntry>)
    ensures
        forall|k: int| 0 <= k < refs.len() ==> *final(#[trigger] refs@[k]) == *refs@[k],
{
    let ghost all = refs@;
    let mut rest = refs;
    let ghost mut n: int = 0;
    while rest.len() > 0
        invariant
            0 <= n <= all.len(),
            rest@ == all.skip(n),
            forall|k: int| 0 <= k < n ==> *final(#[trigger] all[k]) == *all[k],
        decreases rest.len(),
    {
        let released = rest.remove(0);
        assert(released == all[n]);
        assert(rest@ =~= all.skip(n + 1));
        proof {
            n = n + 1;
        }
    }
}

/// The overload of the free function `function_id` that a call with arguments of the
/// data types `argument_types` selects, as in `select_free_overload`, but handed out as
/// a mutable reference into `global_table`: what is written through it is what the
/// table holds afterwards, and nothing else of the table changes.
pub fn select_free_overload_mut<'a>(
    function_id: &str,
    argument_types: &[String],
    global_table: &'a mut SymbolTable,
) -> (r: Result<&'a mut Function, Option<()>>)
    requires
        functions_until_taken(all_with_id(old(global_table).values@, function_id@), texts(argument_types@)),
    ensures
        final(global_table).name == old(global_table).name,
        final(global_table).scope == old(global_table).scope,
        final(global_table).same_counters(*old(global_table)),
        match first_taking_index(all_with_id(old(global_table).values@, function_id@), texts(argument_types@)) {
            Some(k) => {
                &&& r matches Ok(f)
                &&& first_taking(all_with_id(old(global_table).values@, function_id@), texts(argument_types@))
                    == Some(*f)
                &&& final(global_table).values@ == with_id_replaced(
                    old(global_table).values@,
                    function_id@,
                    all_with_id(old(global_table).values@, function_id@).update(
                        k,
                        SymbolTableEntry::Function(*final(f)),
                    ),
                )
            },
            None => {
                &&& final(global_table).values@ == old(global_table).values@
                &&& match r {
                    Ok(_) => false,
                    Err(None) => all_with_id(old(global_table).values@, function_id@).len() == 0,
                    Err(Some(())) => all_with_id(old(global_table).values@, function_id@).len() > 0,
                }
            },
        },
{
    let ghost values = global_table.values@;
    proof {
        law_unwritten_references_leave_entries(values, function_id@);
    }
    let matches = global_table.get_all_mut(function_id);
    let ghost finals = Seq::new(matches@.len(), |k: int| *final(matches@[k]));
    if matches.len() == 0 {
        assert(finals =~= all_with_id(values, function_id@));
        return Err(None);
    }
    match first_taking_mut(matches, argument_types) {
        Ok(f) => Ok(f),
        Err(()) => Err(Some(())),
    }
}

/// The first function among the entries that `matches` refer to whose parameters have
/// the data types `argument_types`, handed out as a mutable reference; the other
/// references are let go of unused.
fn first_taking_mut<'a>(matches: Vec<&'a mut SymbolTableEntry>, argument_types: &[String]) -> (r: Result<
    &'a mut Function,
    (),
>)
    requires
        functions_until_taken(referred_mut(matches@), texts(argument_types@)),
    ensures
        match first_taking_index(referred_mut(matches@), texts(argument_types@)) {
            Some(k) => {
                &&& r matches Ok(f)
                &&& first_taking(referred_mut(matches@), texts(argument_types@)) == Some(*f)
                &&& Seq::new(matches@.len(), |j: int| *final(matches@[j])) == referred_mut(matches@).update(
                    k,
                    SymbolTableEntry::Function(*final(f)),
                )
            },
            None => {
                &&& r is Err
                &&& Seq::new(matches@.len(), |j: int| *final(matches@[j])) == referred_mut(matches@)
            },
        },
{
    let ghost refs = matches@;
    let ghost s = referred_mut(refs);
    let ghost types = texts(argument_types@);
    let ghost finals = Seq::new(refs.len(), |k: int| *final(refs[k]));
    proof {
        lemma_first_taking_index(s, types);
    }
    let mut rest = matches;
    let ghost mut i: int = 0;
    assert(s.take(0) =~= Seq::<SymbolTableEntry>::empty());
    while rest.len() > 0
        invariant
            0 <= i <= refs.len(),
            refs.len() == s.len(),
            refs == matches@,
            rest@ == refs.skip(i),
            s == referred_mut(refs),
            types == texts(argument_types@),
            finals == Seq::new(refs.len(), |k: int| *final(refs[k])),
            functions_until_taken(s, types),
            first_taking(s.take(i), types) is None,
            forall|j: int| 0 <= j < i ==> #[trigger] finals[j] == s[j],
        decreases rest.len(),
    {
        assert(s.take(i + 1).drop_last() =~= s.take(i));
        assert(s.take(i + 1).last() == s[i]);
        assert(s[i] is Function);
        let entry = rest.remove(0);
        assert(rest@ =~= refs.skip(i + 1));
        assert(entry == refs[i]);
        let ghost entry_final = *final(entry);
        let ghost entry_now = *entry;
        assert(entry_final == finals[i]);
        match entry {
            SymbolTableEntry::Function(function) => {
                if takes_types_exec(&function.parameter_types, argument_types) {
                    let ghost left = rest@;
                    release(rest);
                    proof {
                        assert(entry_now == SymbolTableEntry::Function(*function));
                        assert(left =~= refs.skip(i + 1));
                        lemma_first_taking_prefix(s, types, i + 1);
                        assert(first_taking_index(s.take(i + 1), types) == Some(i)) by {
                            lemma_first_taking_index(s.take(i), types);
                        }
                        lemma_first_taking_index_prefix(s, types, i + 1);
                        assert(entry_final == SymbolTableEntry::Function(*final(function)));
                        assert forall|j: int| i < j < refs.len() implies #[trigger] finals[j] == s[j] by {
                            assert(left[j - i - 1] == refs[j]);
                        }
                        assert(finals =~= s.update(i, SymbolTableEntry::Function(*final(function))));
                    }
                    return Ok(function);
                }
            },
            _ => {},
        }
        proof {
            i = i + 1;
        }
    }
    assert(s.take(i) =~= s);
    assert(finals =~= s);
    Err(())
}

/// A position found in a prefix is the position found in the whole list.
proof fn lemma_first_taking_index_prefix(s: Seq<SymbolTableEntry>, types: Seq<Seq<char>>, k: int)
    requires
        0 <= k <= s.len(),
        first_taking_index(s.take(k), types) is Some,
    ensures
        first_taking_index(s, types) == first_taking_index(s.take(k), types),
    decreases s.len() - k,
{
    if k < s.len() {
        assert(s.take(k + 1).drop_last() =~= s.take(k));
        lemma_first_taking_index_prefix(s, types, k + 1);
    } else {
        assert(s.take(k) =~= s);
    }
}

/// The text `"[]"` repeated `n` times.
pub open spec fn brackets(n: nat) -> Seq<char>
    decreases n,
{
    if n == 0 {
        Seq::empty()
    } else {
        brackets((n - 1) as nat) + seq!['[', ']']
    }
}

/// The error that the argument `a` raises against the parameter `p`: an array argument
/// with another number of dimensions than the parameter, or a plain argument for an
/// array parameter, is of an incorrect type.
pub open spec fn argument_error(a: Argument, p: Param, line: usize, column: usize) -> Seq<SpecSemanticError> {
    match a.dimensions {
        Some(d) => if d != p.dimension@.len() {
            seq![
                SpecSemanticError::IncorrectType(
                    line,
                    column,
                    a.data_type@ + brackets(d as nat),
                    parameter_type_text(p.data_type@, p.dimension@),
                ),
            ]
        } else {
            Seq::empty()
        },
        None => if p.dimension@.len() != 0 {
            seq![
                SpecSemanticError::IncorrectType(
                    line,
                    column,
                    a.data_type@,
                    parameter_type_text(p.data_type@, p.dimension@),
                ),
            ]
        } else {
            Seq::empty()
        },
    }
}

/// The errors of the arguments `args` against the parameters `ps`, pair by pair, as far
/// as both go.
pub open spec fn arguments_errors(args: Seq<Argument>, ps: Seq<Param>, line: usize, column: usize) -> Seq<SpecSemanticError>
    decreases args.len(),
{
    if args.len() == 0 || ps.len() == 0 {
        Seq::empty()
    } else {
        argument_error(args[0], ps[0], line, column) + arguments_errors(args.skip(1), ps.skip(1), line, column)
    }
}

/// The errors of a call with the arguments `args` of `function`: a wrong number of
/// arguments, then the errors of each argument against its parameter.
pub open spec fn call_errors(args: Seq<Argument>, function: Function, line: usize, column: usize) -> Seq<SpecSemanticError> {
    (if function.parameter_types@.len() != args.len() {
        seq![
            SpecSemanticError::IncorrectNumberArguments(line, column, args.len() as usize, function.parameter_types@.len() as usize),
        ]
    } else {
        Seq::empty()
    }) + arguments_errors(args, function.parameter_types@, line, column)
}

/// The type of an array argument: its data type followed by "[]" for each dimension.
fn array_type_text(data_type: &String, dimensions: usize) -> (r: String)
    ensures
        r@ == data_type@ + brackets(dimensions as nat),
{
    let mut r = data_type.clone();
    let mut k: usize = 0;
    assert(r@ =~= data_type@ + brackets(0));
    while k < dimensions
        invariant
            k <= dimensions,
            r@ == data_type@ + brackets(k as nat),
        decreases dimensions - k,
    {
        push_str(&mut r, "[]");
        proof {
            reveal_strlit("[]");
        }
        k += 1;
        assert(r@ =~= data_type@ + brackets(k as nat));
    }
    r
}

/// Checks the arguments `arguments` of a call against the parameters of `function`: one
/// error for a wrong number of arguments, and one for each argument, as far as both
/// lists go, that is an array of another number of dimensions than its parameter, or a
/// plain value where the parameter is an array. All errors refer to the call.
pub fn a_params_correct(arguments: &Vec<Argument>, function: &Function, line: usize, column: usize) -> (r: Vec<SemanticError>)
    ensures
        views(r@) == call_errors(arguments@, *function, line, column),
{
    let mut errors: Vec<SemanticError> = Vec::new();
    if function.parameter_types.len() != arguments.len() {
        errors.push(SemanticError::IncorrectNumberArguments(line, column, arguments.len(), function.parameter_types.len()));
    }
    let ghost first = views(errors@);
    let ghost args = arguments@;
    let ghost ps = function.parameter_types@;
    let mut i: usize = 0;
    assert(args.skip(0) =~= args);
    assert(ps.skip(0) =~= ps);
    assert(views(errors@) =~= first + Seq::<SpecSemanticError>::empty());
    while i < arguments.len() && i < function.parameter_types.len()
        invariant
            i <= arguments.len(),
            i <= function.parameter_types.len(),
            args == arguments@,
            ps == function.parameter_types@,
            first + arguments_errors(args, ps, line, column) == views(errors@) + arguments_errors(
                args.skip(i as int),
                ps.skip(i as int),
                line,
                column,
            ),
        decreases arguments.len() - i,
    {
        let ghost before = views(errors@);
        let a = &arguments[i];
        let p = &function.parameter_types[i];
        assert(args.skip(i as int)[0] == args[i as int]);
        assert(ps.skip(i as int)[0] == ps[i as int]);
        assert(args.skip(i as int).skip(1) =~= args.skip(i + 1));
        assert(ps.skip(i as int).skip(1) =~= ps.skip(i + 1));
        match a.dimensions {
            Some(d) => {
                if d != p.dimension.len() {
                    let found = array_type_text(&a.data_type, d);
                    errors.push(SemanticError::IncorrectType(line, column, found, p.type_string()));
                }
            },
            None => {
                if p.dimension.len() != 0 {
                    errors.push(SemanticError::IncorrectType(line, column, a.data_type.clone(), p.type_string()));
                }
            },
        }
        assert(views(errors@) =~= before + argument_error(args[i as int], ps[i as int], line, column));
        assert(before + (argument_error(args[i as int], ps[i as int], line, column) + arguments_errors(
            args.skip(i + 1),
            ps.skip(i + 1),
            line,
            column,
        )) =~= views(errors@) + arguments_errors(args.skip(i + 1), ps.skip(i + 1), line, column));
        i += 1;
    }
    assert(arguments_errors(args.skip(i as int), ps.skip(i as int), line, column) =~= Seq::<SpecSemanticError>::empty());
    assert(views(errors@) + Seq::<SpecSemanticError>::empty() =~= views(errors@));
    errors
}

/// The number of dimensions of a variable or parameter entry.
pub open spec fn declared_dimensions(e: SymbolTableEntry) -> nat {
    match e {
        SymbolTableEntry::Local(l) => l.dimension@.len(),
        SymbolTableEntry::Param(p) => p.dimension@.len(),
        _ => 0,
    }
}

/// The identifier names a local variable, a parameter, or nothing in `context`.
pub open spec fn names_variable(context: SymbolTable, id: Seq<char>) -> bool {
    match lookup(context.values@, id) {
        Some(SymbolTableEntry::Local(_)) => true,
        Some(SymbolTableEntry::Param(_)) => true,
        Some(_) => false,
        None => true,
    }
}

/// The type that a use of the identifier `id` takes in `context`: the data type of the
/// local variable or parameter that it names, or "error-type" where it names nothing.
pub open spec fn variable_type_text(context: SymbolTable, id: Seq<char>) -> Seq<char> {
    match lookup(context.values@, id) {
        Some(SymbolTableEntry::Local(l)) => l.data_type@,
        Some(SymbolTableEntry::Param(p)) => p.data_type@,
        _ => "error-type"@,
    }
}

/// The type that a use of the variable `id` takes in `context`, as a data member or as
/// an argument: the data type of the local variable or parameter, or "error-type"
/// where the identifier is undefined.
pub fn data_member_type(context: &SymbolTable, id: &str) -> (r: String)
    requires
        names_variable(*context, id@),
    ensures
        r@ == variable_type_text(*context, id@),
{
    match context.get(id) {
        Some(SymbolTableEntry::Local(local)) => local.data_type.clone(),
        Some(SymbolTableEntry::Param(param)) => param.data_type.clone(),
        _ => {
            proof {
                reveal_strlit("error-type");
            }
            string_of("error-type")
        },
    }
}

/// The error of a use of the variable `id` with `index_dimensions` indices in
/// `context`, if any (see `data_member`).
pub open spec fn index_check(context: SymbolTable, id: Seq<char>, index_dimensions: Option<usize>, line: usize, column: usize) -> Option<
    SpecSemanticError,
> {
    match lookup(context.values@, id) {
        Some(e) => match index_dimensions {
            Some(d) => if d != declared_dimensions(e) {
                Some(SpecSemanticError::InvalidArrayDimension(line, column, d, declared_dimensions(e) as usize))
            } else {
                None
            },
            None => None,
        },
        None => Some(SpecSemanticError::UndefinedIdentifier(line, column, id)),
    }
}

/// The dimensions and the error of the variable `id` passed as an argument with
/// `index_dimensions` indices in `context` (see `parameter_data_member_exception`).
pub open spec fn argument_check(
    context: SymbolTable,
    id: Seq<char>,
    index_dimensions: Option<usize>,
    line: usize,
    column: usize,
) -> (Option<usize>, Option<SpecSemanticError>) {
    match lookup(context.values@, id) {
        Some(e) => match index_dimensions {
            Some(d) => if d == 0 {
                (Some(declared_dimensions(e) as usize), None)
            } else if d != declared_dimensions(e) {
                (None, Some(SpecSemanticError::InvalidArrayDimension(line, column, d, declared_dimensions(e) as usize)))
            } else {
                (None, None)
            },
            None => (Some(declared_dimensions(e) as usize), None),
        },
        None => (None, Some(SpecSemanticError::UndefinedIdentifier(line, column, id))),
    }
}

/// The model of an optional error.
pub open spec fn error_model(r: Option<SemanticError>) -> Option<SpecSemanticError> {
    match r {
        Some(e) => Some(e@),
        None => None,
    }
}

/// Checks the use of the variable `id` with `index_dimensions` indices (if an index
/// list was given) in `context`: an undefined identifier, or an index count other than
/// the variable's number of dimensions, is an error that refers to the use.
pub fn data_member(context: &SymbolTable, id: &str, index_dimensions: Option<usize>, line: usize, column: usize) -> (r:
    Option<SemanticError>)
    requires
        names_variable(*context, id@),
    ensures
        match lookup(context.values@, id@) {
            Some(e) => match index_dimensions {
                Some(d) => if d != declared_dimensions(e) {
                    r matches Some(x) && x@ == SpecSemanticError::InvalidArrayDimension(
                        line,
                        column,
                        d,
                        declared_dimensions(e) as usize,
                    )
                } else {
                    r is None
                },
                None => r is None,
            },
            None => r matches Some(x) && x@ == SpecSemanticError::UndefinedIdentifier(line, column, id@),
        },
        error_model(r) == index_check(*context, id@, index_dimensions, line, column),
{
    let declared = match context.get(id) {
        Some(SymbolTableEntry::Local(local)) => local.dimension.len(),
        Some(SymbolTableEntry::Param(param)) => param.dimension.len(),
        Some(_) => {
            return None;
        },
        None => {
            return Some(SemanticError::UndefinedIdentifier(line, column, string_of(id)));
        },
    };
    match index_dimensions {
        Some(d) => if d != declared {
            Some(SemanticError::InvalidArrayDimension(line, column, d, declared))
        } else {
            None
        },
        None => None,
    }
}

/// Checks the variable `id` passed as an argument with `index_dimensions` indices (if
/// an index list was given) in `context`. An array may be passed whole: without an
/// index list, or with an empty one, the argument takes the variable's number of
/// dimensions, which is returned; with indices, their count must match. An undefined
/// identifier is an error.
pub fn parameter_data_member_exception(
    context: &SymbolTable,
    id: &str,
    index_dimensions: Option<usize>,
    line: usize,
    column: usize,
) -> (r: (Option<usize>, Option<SemanticError>))
    requires
        names_variable(*context, id@),
    ensures
        match lookup(context.values@, id@) {
            Some(e) => match index_dimensions {
                Some(d) => if d == 0 {
                    r.0 == Some(declared_dimensions(e) as usize) && r.1 is None
                } else if d != declared_dimensions(e) {
                    r.0 is None && (r.1 matches Some(x) && x@ == SpecSemanticError::InvalidArrayDimension(
                        line,
                        column,
                        d,
                        declared_dimensions(e) as usize,
                    ))
                } else {
                    r.0 is None && r.1 is None
                },
                None => r.0 == Some(declared_dimensions(e) as usize) && r.1 is None,
            },
            None => r.0 is None && (r.1 matches Some(x) && x@ == SpecSemanticError::UndefinedIdentifier(line, column, id@)),
        },
        (r.0, error_model(r.1)) == argument_check(*context, id@, index_dimensions, line, column),
{
    let declared = match context.get(id) {
        Some(SymbolTableEntry::Local(local)) => local.dimension.len(),
        Some(SymbolTableEntry::Param(param)) => param.dimension.len(),
        Some(_) => {
            return (None, None);
        },
        None => {
            return (None, Some(SemanticError::UndefinedIdentifier(line, column, string_of(id))));
        },
    };
    match index_dimensions {
        Some(d) => if d == 0 {
            (Some(declared), None)
        } else if d != declared {
            (None, Some(SemanticError::InvalidArrayDimension(line, column, d, declared)))
        } else {
            (None, None)
        },
        None => (Some(declared), None),
    }
}

/// The type that a return type stands for: its name, or "void".
pub open spec fn return_text(t: Option<Seq<char>>) -> Seq<char> {
    match t {
        Some(x) => x,
        None => "void"@,
    }
}

/// Checks that a function body returns what the function declares: a body returning
/// `found` (none for no return) for a function declaring `declared` is an error where
/// they differ.
pub fn check_return_type(found: &Option<String>, declared: &Option<String>, line: usize, column: usize) -> (r: Option<
    SemanticError,
>)
    ensures
        match r {
            Some(e) => crate::text::option_text(*found) != crate::text::option_text(*declared) && e@
                == SpecSemanticError::IncorrectType(
                line,
                column,
                return_text(crate::text::option_text(*found)),
                return_text(crate::text::option_text(*declared)),
            ),
            None => crate::text::option_text(*found) == crate::text::option_text(*declared),
        },
{
    let same = match (found, declared) {
        (Some(a), Some(b)) => str_eq(a.as_str(), b.as_str()),
        (None, None) => true,
        _ => false,
    };
    if same {
        return None;
    }
    let found_text = match found {
        Some(a) => a.clone(),
        None => string_of("void"),
    };
    let declared_text = match declared {
        Some(b) => b.clone(),
        None => string_of("void"),
    };
    Some(SemanticError::IncorrectType(line, column, found_text, declared_text))
}

/// The error of a call of `function_id` with arguments of the data types
/// `argument_types` that no overload takes: the types are listed, separated by ", ".
pub fn no_overload(function_id: &str, argument_types: &[String], line: usize, column: usize) -> (r: SemanticError)
    ensures
        r@ == SpecSemanticError::NoOverload(line, column, function_id@, joined(texts(argument_types@), ", "@)),
{
    SemanticError::NoOverload(line, column, string_of(function_id), crate::utils::separated_list(argument_types, ", "))
}

/// The data types of the arguments `args`, in order.
pub open spec fn argument_texts(args: Seq<Argument>) -> Seq<Seq<char>> {
    Seq::new(args.len(), |i: int| args[i].data_type@)
}

/// The data types of the arguments, in order.
fn argument_types(arguments: &Vec<Argument>) -> (r: Vec<String>)
    ensures
        texts(r@) == argument_texts(arguments@),
{
    let mut r: Vec<String> = Vec::new();
    let mut i: usize = 0;
    while i < arguments.len()
        invariant
            i <= arguments.len(),
            r.len() == i,
            forall|k: int| 0 <= k < i ==> #[trigger] r@[k]@ == arguments@[k].data_type@,
        decreases arguments.len() - i,
    {
        r.push(copy_string(&arguments[i].data_type));
        i += 1;
    }
    assert(texts(r@) =~= argument_texts(arguments@));
    r
}

/// Copies of parameters give the same argument errors.
proof fn lemma_arguments_errors_of_copies(args: Seq<Argument>, a: Seq<Param>, b: Seq<Param>, line: usize, column: usize)
    requires
        same_params(a, b),
    ensures
        arguments_errors(args, a, line, column) == arguments_errors(args, b, line, column),
    decreases args.len(),
{
    if args.len() > 0 && a.len() > 0 {
        assert(same_param(a[0], b[0]));
        assert(same_params(a.skip(1), b.skip(1))) by {
            assert forall|i: int| 0 <= i < a.skip(1).len() implies #[trigger] same_param(a.skip(1)[i], b.skip(1)[i]) by {
                assert(same_param(a[i + 1], b[i + 1]));
            }
        }
        lemma_arguments_errors_of_copies(args.skip(1), a.skip(1), b.skip(1), line, column);
    }
}

/// The errors of a call of `function_id` that selects no overload: an undefined
/// identifier where no entry has the identifier, else no overload for the argument types.
pub open spec fn unresolved_call_error(
    entries: Seq<SymbolTableEntry>,
    function_id: Seq<char>,
    types: Seq<Seq<char>>,
    line: usize,
    column: usize,
) -> SpecSemanticError {
    if entries.len() == 0 {
        SpecSemanticError::UndefinedIdentifier(line, column, function_id)
    } else {
        SpecSemanticError::NoOverload(line, column, function_id, joined(types, ", "@))
    }
}

/// Checks a call of the free function `function_id` with the arguments `arguments` (at
/// `line`, `column`; the argument list at `arguments_line`, `arguments_column`): the
/// call selects the first overload whose parameters have the arguments' data types,
/// and its arguments are checked against it; the call then has that overload's return
/// type. A call that selects no overload has no type and one error.
pub fn f_call(
    function_id: &str,
    arguments: &Vec<Argument>,
    global_table: &SymbolTable,
    line: usize,
    column: usize,
    arguments_line: usize,
    arguments_column: usize,
) -> (r: (Option<String>, Vec<SemanticError>))
    requires
        functions_until_taken(all_with_id(global_table.values@, function_id@), argument_texts(arguments@)),
    ensures
        match first_taking(all_with_id(global_table.values@, function_id@), argument_texts(arguments@)) {
            Some(g) => {
                &&& option_text(r.0) == option_text(g.return_type)
                &&& views(r.1@) == call_errors(arguments@, g, arguments_line, arguments_column)
            },
            None => {
                &&& r.0 is None
                &&& views(r.1@) == seq![
                    unresolved_call_error(
                        all_with_id(global_table.values@, function_id@),
                        function_id@,
                        argument_texts(arguments@),
                        line,
                        column,
                    ),
                ]
            },
        },
{
    let types = argument_types(arguments);
    match select_free_overload(function_id, types.as_slice(), global_table) {
        Ok(f) => {
            let errors = a_params_correct(arguments, &f, arguments_line, arguments_column);
            proof {
                let g = first_taking(all_with_id(global_table.values@, function_id@), argument_texts(arguments@))->0;
                lemma_arguments_errors_of_copies(arguments@, g.parameter_types@, f.parameter_types@, arguments_line, arguments_column);
            }
            (copy_option_string(&f.return_type), errors)
        },
        Err(Some(())) => {
            let mut errors: Vec<SemanticError> = Vec::new();
            errors.push(no_overload(function_id, types.as_slice(), line, column));
            (None, errors)
        },
        Err(None) => {
            let mut errors: Vec<SemanticError> = Vec::new();
            errors.push(SemanticError::UndefinedIdentifier(line, column, string_of(function_id)));
            (None, errors)
        },
    }
}

/// Checks the definition of the free function `function_id` with parameters of the data
/// types `parameter_types`, whose body returns `body_type` (none for no return): the
/// definition belongs to the first declared overload with those parameter types, and an
/// error is raised where the body returns another type than that overload declares. A
/// definition that matches no overload is an error too.
pub fn func_def(
    function_id: &str,
    parameter_types: &[String],
    body_type: &Option<String>,
    global_table: &SymbolTable,
    line: usize,
    column: usize,
) -> (r: Option<SemanticError>)
    requires
        functions_until_taken(all_with_id(global_table.values@, function_id@), texts(parameter_types@)),
    ensures
        match first_taking(all_with_id(global_table.values@, function_id@), texts(parameter_types@)) {
            Some(g) => if option_text(*body_type) == option_text(g.return_type) {
                r is None
            } else {
                r matches Some(e) && e@ == SpecSemanticError::IncorrectType(
                    line,
                    column,
                    return_text(option_text(*body_type)),
                    return_text(option_text(g.return_type)),
                )
            },
            None => r matches Some(e) && e@ == unresolved_call_error(
                all_with_id(global_table.values@, function_id@),
                function_id@,
                texts(parameter_types@),
                line,
                column,
            ),
        },
{
    match select_free_overload(function_id, parameter_types, global_table) {
        Ok(f) => check_return_type(body_type, &f.return_type, line, column),
        Err(Some(())) => Some(no_overload(function_id, parameter_types, line, column)),
        Err(None) => Some(SemanticError::UndefinedIdentifier(line, column, string_of(function_id))),
    }
}

/// What type checking reads of an array index: its data type, if it has one, and
/// where it stands.
pub struct Index {
    pub data_type: Option<String>,
    pub line: usize,
    pub column: usize,
}

/// The type name is one of the primitive types.
pub open spec fn is_primitive(t: Seq<char>) -> bool {
    t == integer_text() || t == float_text() || t == string_text()
}

/// Checks a type name used in a declaration: a primitive type, or a name that
/// `global_table` holds; any other name is an undefined type.
pub fn type_node(variable_type: &str, global_table: &SymbolTable, line: usize, column: usize) -> (r: Option<
    SemanticError,
>)
    ensures
        match r {
            Some(e) => !is_primitive(variable_type@) && lookup(global_table.values@, variable_type@) is None && e@
                == SpecSemanticError::UndefinedType(line, column, variable_type@),
            None => is_primitive(variable_type@) || lookup(global_table.values@, variable_type@) is Some,
        },
{
    if is_integer_text(variable_type) || is_float_text(variable_type) || is_string_text(variable_type) {
        return None;
    }
    match global_table.get(variable_type) {
        Some(_) => None,
        None => Some(SemanticError::UndefinedType(line, column, string_of(variable_type))),
    }
}

/// The error that the index `i` raises: none for an integer, else an invalid index of
/// its type ("void" where it has none).
pub open spec fn index_error(i: Index) -> Seq<SpecSemanticError> {
    match i.data_type {
        Some(t) => if t@ == integer_text() {
            Seq::empty()
        } else {
            seq![SpecSemanticError::InvalidArrayIndex(i.line, i.column, t@)]
        },
        None => seq![SpecSemanticError::InvalidArrayIndex(i.line, i.column, "void"@)],
    }
}

/// The errors of the indices `s`, in order.
pub open spec fn index_errors(s: Seq<Index>) -> Seq<SpecSemanticError>
    decreases s.len(),
{
    if s.len() == 0 {
        Seq::empty()
    } else {
        index_errors(s.drop_last()) + index_error(s.last())
    }
}

/// The number of indices of `s` that are integers.
pub open spec fn integer_indices(s: Seq<Index>) -> nat
    decreases s.len(),
{
    if s.len() == 0 {
        0
    } else {
        integer_indices(s.drop_last()) + if index_error(s.last()).len() == 0 {
            1nat
        } else {
            0nat
        }
    }
}

/// Checks an index list: each index must be an integer. Returns the number of integer
/// indices, which the list counts as its dimensions, and an error for each other index.
pub fn mandatory_indexlist(indices: &Vec<Index>) -> (r: (usize, Vec<SemanticError>))
    ensures
        r.0 == integer_indices(indices@),
        views(r.1@) == index_errors(indices@),
{
    let mut dimensions: usize = 0;
    let mut errors: Vec<SemanticError> = Vec::new();
    let mut i: usize = 0;
    assert(indices@.take(0) =~= Seq::<Index>::empty());
    while i < indices.len()
        invariant
            i <= indices.len(),
            dimensions == integer_indices(indices@.take(i as int)),
            dimensions <= i,
            views(errors@) == index_errors(indices@.take(i as int)),
        decreases indices.len() - i,
    {
        assert(indices@.take(i + 1).drop_last() =~= indices@.take(i as int));
        let index = &indices[i];
        let ghost before = views(errors@);
        match &index.data_type {
            Some(t) => {
                if is_integer_text(t.as_str()) {
                    dimensions += 1;
                } else {
                    errors.push(SemanticError::InvalidArrayIndex(index.line, index.column, t.clone()));
                }
            },
            None => {
                errors.push(SemanticError::InvalidArrayIndex(index.line, index.column, string_of("void")));
            },
        }
        assert(views(errors@) =~= before + index_error(indices@[i as int]));
        i += 1;
    }
    assert(indices@.take(i as int) =~= indices@);
    (dimensions, errors)
}

/// The argument `a` fits the parameter `p`: an array with the parameter's number of
/// dimensions, or a plain value for a plain parameter.
pub open spec fn argument_fits(a: Argument, p: Param) -> bool {
    match a.dimensions {
        Some(d) => d == p.dimension@.len(),
        None => p.dimension@.len() == 0,
    }
}

/// The arguments `args` fit the parameters `ps`, pair by pair, as far as both go.
pub open spec fn arguments_fit(args: Seq<Argument>, ps: Seq<Param>) -> bool {
    forall|i: int| 0 <= i < args.len() && i < ps.len() ==> argument_fits(#[trigger] args[i], ps[i])
}

proof fn lemma_arguments_errors_empty(args: Seq<Argument>, ps: Seq<Param>, line: usize, column: usize)
    ensures
        arguments_errors(args, ps, line, column).len() == 0 <==> arguments_fit(args, ps),
    decreases args.len(),
{
    if args.len() > 0 && ps.len() > 0 {
        lemma_arguments_errors_empty(args.skip(1), ps.skip(1), line, column);
        if arguments_fit(args, ps) {
            assert(argument_fits(args[0], ps[0]));
            assert forall|i: int| 0 <= i < args.skip(1).len() && i < ps.skip(1).len() implies argument_fits(
                #[trigger] args.skip(1)[i],
                ps.skip(1)[i],
            ) by {
                assert(argument_fits(args[i + 1], ps[i + 1]));
            }
        }
        if arguments_fit(args.skip(1), ps.skip(1)) && argument_fits(args[0], ps[0]) {
            assert forall|i: int| 0 <= i < args.len() && i < ps.len() implies argument_fits(#[trigger] args[i], ps[i]) by {
                if i > 0 {
                    assert(args.skip(1)[i - 1] == args[i]);
                    assert(argument_fits(args.skip(1)[i - 1], ps.skip(1)[i - 1]));
                }
            }
        }
    }
}

/// A call raises no error against the function it selected exactly where it passes as
/// many arguments as the function has parameters and each argument fits its parameter.
pub proof fn law_call_without_errors(args: Seq<Argument>, function: Function, line: usize, column: usize)
    ensures
        call_errors(args, function, line, column).len() == 0 <==> (args.len() == function.parameter_types@.len()
            && arguments_fit(args, function.parameter_types@)),
{
    lemma_arguments_errors_empty(args, function.parameter_types@, line, column);
}

/// The overload that a call selects among the entries `s` is one of them, a function
/// with exactly as many parameters as there are argument types and the argument's data
/// type at every position; every entry before it is no such function. Where no entry is
/// such a function, none is selected.
pub proof fn law_selected_overload_fits(s: Seq<SymbolTableEntry>, types: Seq<Seq<char>>)
    ensures
        first_taking(s, types) matches Some(g) ==> exists|k: int|
            0 <= k < s.len() && s[k] == SymbolTableEntry::Function(g) && g.parameter_types@.len() == types.len() && (
            forall|i: int| 0 <= i < types.len() ==> #[trigger] g.parameter_types@[i].data_type@ == types[i]) && (
            forall|j: int| 0 <= j < k ==> !(#[trigger] s[j] matches SymbolTableEntry::Function(h) && h.parameter_types@.len()
                == types.len() && forall|i: int| 0 <= i < types.len() ==> h.parameter_types@[i].data_type@ == types[i])),
        first_taking(s, types) is None ==> forall|j: int|
            0 <= j < s.len() ==> !(#[trigger] s[j] matches SymbolTableEntry::Function(h) && h.parameter_types@.len()
                == types.len() && forall|i: int| 0 <= i < types.len() ==> h.parameter_types@[i].data_type@ == types[i]),
    decreases s.len(),
{
    if s.len() > 0 {
        let init = s.drop_last();
        law_selected_overload_fits(init, types);
        let n = s.len() - 1;
        assert(s[n] == s.last());
        assert forall|j: int| 0 <= j < n implies #[trigger] s[j] == init[j] by {}
        match first_taking(init, types) {
            Some(g) => {
                let k = choose|k: int|
                    0 <= k < init.len() && init[k] == SymbolTableEntry::Function(g) && g.parameter_types@.len()
                        == types.len() && (forall|i: int|
                        0 <= i < types.len() ==> #[trigger] g.parameter_types@[i].data_type@ == types[i]) && (forall|
                        j: int,
                    |
                        0 <= j < k ==> !(#[trigger] init[j] matches SymbolTableEntry::Function(h)
                            && h.parameter_types@.len() == types.len() && forall|i: int|
                            0 <= i < types.len() ==> h.parameter_types@[i].data_type@ == types[i]));
                assert(s[k] == init[k]);
                assert forall|j: int| 0 <= j < k implies !(#[trigger] s[j] matches SymbolTableEntry::Function(h)
                    && h.parameter_types@.len() == types.len() && forall|i: int|
                    0 <= i < types.len() ==> h.parameter_types@[i].data_type@ == types[i]) by {
                    assert(s[j] == init[j]);
                }
            },
            None => {},
        }
    }
}

/// The dimensions of a variable are those of its declaration: a use of a local
/// variable or parameter with as many indices as its dimension list has entries raises
/// no error, and a use with any other number of indices raises an invalid array
/// dimension naming both numbers.
pub proof fn law_index_count(context: SymbolTable, id: Seq<char>, k: usize, line: usize, column: usize)
    ensures
        lookup(context.values@, id) matches Some(SymbolTableEntry::Param(p)) ==> index_check(
            context,
            id,
            Some(k),
            line,
            column,
        ) == if k == p.dimension@.len() {
            None
        } else {
            Some(SpecSemanticError::InvalidArrayDimension(line, column, k, p.dimension@.len() as usize))
        },
        lookup(context.values@, id) matches Some(SymbolTableEntry::Local(l)) ==> index_check(
            context,
            id,
            Some(k),
            line,
            column,
        ) == if k == l.dimension@.len() {
            None
        } else {
            Some(SpecSemanticError::InvalidArrayDimension(line, column, k, l.dimension@.len() as usize))
        },
{
}

/// An array passed whole as an argument (without indices, or with an empty index list)
/// takes the number of dimensions of its declaration, as a local variable or parameter.
pub proof fn law_whole_array_argument(context: SymbolTable, id: Seq<char>, line: usize, column: usize)
    ensures
        lookup(context.values@, id) matches Some(SymbolTableEntry::Param(p)) ==> argument_check(
            context,
            id,
            None,
            line,
            column,
        ) == (Some(p.dimension@.len() as usize), None::<SpecSemanticError>) && argument_check(
            context,
            id,
            Some(0),
            line,
            column,
        ) == (Some(p.dimension@.len() as usize), None::<SpecSemanticError>),
        lookup(context.values@, id) matches Some(SymbolTableEntry::Local(l)) ==> argument_check(
            context,
            id,
            None,
            line,
            column,
        ) == (Some(l.dimension@.len() as usize), None::<SpecSemanticError>) && argument_check(
            context,
            id,
            Some(0),
            line,
            column,
        ) == (Some(l.dimension@.len() as usize), None::<SpecSemanticError>),
{
}

/// An index list raises one invalid-index error for each index that is not an integer,
/// naming its type ("void" where it has none), in order; the integer indices are
/// counted as the list's dimensions, so errors and dimensions together count every
/// index once.
pub proof fn law_index_list(indices: Seq<Index>)
    ensures
        index_errors(indices) == indices.filter_map(
            |i: Index|
                match i.data_type {
                    Some(t) => if t@ == "integer"@ {
                        None
                    } else {
                        Some(SpecSemanticError::InvalidArrayIndex(i.line, i.column, t@))
                    },
                    None => Some(SpecSemanticError::InvalidArrayIndex(i.line, i.column, "void"@)),
                },
        ),
        integer_indices(indices) + index_errors(indices).len() == indices.len(),
    decreases indices.len(),
{
    if indices.len() > 0 {
        law_index_list(indices.drop_last());
        reveal_strlit("integer");
        assert(integer_text() == "integer"@);
    }
}

/// An argument that fits its parameter raises no error; one that does not raises an
/// incorrect type naming, as found, its data type followed by "[]" for each of its
/// dimensions, and, as expected, the parameter's type.
pub proof fn law_argument_error(a: Argument, p: Param, line: usize, column: usize)
    ensures
        argument_fits(a, p) <==> argument_error(a, p, line, column).len() == 0,
        !argument_fits(a, p) ==> argument_error(a, p, line, column) == seq![
            SpecSemanticError::IncorrectType(
                line,
                column,
                match a.dimensions {
                    Some(d) => a.data_type@ + Seq::new((2 * d) as nat, |k: int| if k % 2 == 0 { '[' } else { ']' }),
                    None => a.data_type@,
                },
                parameter_type_text(p.data_type@, p.dimension@),
            ),
        ],
{
    match a.dimensions {
        Some(d) => {
            lemma_brackets(d as nat);
        },
        None => {},
    }
}

proof fn lemma_brackets(n: nat)
    ensures
        brackets(n) == Seq::new((2 * n) as nat, |k: int| if k % 2 == 0 { '[' } else { ']' }),
    decreases n,
{
    if n > 0 {
        lemma_brackets((n - 1) as nat);
        assert(brackets(n) =~= Seq::new((2 * n) as nat, |k: int| if k % 2 == 0 { '[' } else { ']' }));
    } else {
        assert(brackets(n) =~= Seq::new((2 * n) as nat, |k: int| if k % 2 == 0 { '[' } else { ']' }));
    }
}

/// A use of a local variable or parameter takes its declared data type, and a use of an
/// undefined identifier the error type.
pub proof fn law_variable_type(context: SymbolTable, id: Seq<char>)
    ensures
        lookup(context.values@, id) matches Some(SymbolTableEntry::Local(l)) ==> variable_type_text(context, id)
            == l.data_type@,
        lookup(context.values@, id) matches Some(SymbolTableEntry::Param(p)) ==> variable_type_text(context, id)
            == p.data_type@,
        lookup(context.values@, id) is None ==> variable_type_text(context, id) == "error-type"@,
{
}

} // verus!
