//! Copies of symbol table entries, nested tables included.
use crate::symbol_table::class::Class;
use crate::symbol_table::data::Data;
use crate::symbol_table::function::Function;
use crate::symbol_table::inherit::{texts, Inherit};
use crate::symbol_table::local::Local;
use crate::symbol_table::param::Param;
use crate::symbol_table::symbol_table::{SymbolTable, SymbolTableEntry};
use crate::symbol_table::temporary::Temporary;
use crate::text::{copy_option_string, copy_string, copy_strings, option_text};
use vstd::prelude::*;

verus! {

/// `b` is a copy of the parameter `a`.
pub open spec fn same_param(a: Param, b: Param) -> bool {
    &&& a.id@ == b.id@
    &&& a.data_type@ == b.data_type@
    &&& a.dimension@ == b.dimension@
    &&& a.line == b.line
    &&& a.column == b.column
}

/// `b` is a copy of the parameters `a`, in order.
pub open spec fn same_params(a: Seq<Param>, b: Seq<Param>) -> bool {
    &&& a.len() == b.len()
    &&& forall|i: int| 0 <= i < a.len() ==> #[trigger] same_param(a[i], b[i])
}

/// `b` is a copy of the entry `a`, nested tables included.
pub open spec fn same_entry(a: SymbolTableEntry, b: SymbolTableEntry) -> bool
    decreases a,
{
    match (a, b) {
        (SymbolTableEntry::Class(x), SymbolTableEntry::Class(y)) => {
            &&& x.id@ == y.id@
            &&& texts(x.inheritance_list@) == texts(y.inheritance_list@)
            &&& x.bytes == y.bytes
            &&& x.line == y.line
            &&& x.column == y.column
            &&& same_table(x.symbol_table, y.symbol_table)
        },
        (SymbolTableEntry::Function(x), SymbolTableEntry::Function(y)) => {
            &&& x.id@ == y.id@
            &&& option_text(x.scope) == option_text(y.scope)
            &&& same_params(x.parameter_types@, y.parameter_types@)
            &&& option_text(x.return_type) == option_text(y.return_type)
            &&& x.visibility == y.visibility
            &&& x.defined == y.defined
            &&& x.line == y.line
            &&& x.column == y.column
            &&& same_table(x.symbol_table, y.symbol_table)
        },
        (SymbolTableEntry::Inherit(x), SymbolTableEntry::Inherit(y)) => texts(x.names@) == texts(y.names@),
        (SymbolTableEntry::Param(x), SymbolTableEntry::Param(y)) => same_param(x, y),
        (SymbolTableEntry::Local(x), SymbolTableEntry::Local(y)) => {
            &&& x.id@ == y.id@
            &&& x.data_type@ == y.data_type@
            &&& x.dimension@ == y.dimension@
            &&& x.line == y.line
            &&& x.column == y.column
        },
        (SymbolTableEntry::Data(x), SymbolTableEntry::Data(y)) => {
            &&& x.id@ == y.id@
            &&& x.visibility == y.visibility
            &&& x.data_type@ == y.data_type@
            &&& x.dimension@ == y.dimension@
            &&& x.bytes == y.bytes
            &&& x.line == y.line
            &&& x.column == y.column
        },
        (SymbolTableEntry::Temporary(x), SymbolTableEntry::Temporary(y)) => {
            &&& x.id@ == y.id@
            &&& x.data_type@ == y.data_type@
            &&& x.bytes == y.bytes
            &&& x.line == y.line
            &&& x.column == y.column
        },
        _ => false,
    }
}

/// `b` is a copy of the table `a`, nested tables included.
pub open spec fn same_table(a: SymbolTable, b: SymbolTable) -> bool
    decreases a,
{
    &&& a.name@ == b.name@
    &&& option_text(a.scope) == option_text(b.scope)
    &&& a.temp_var_count == b.temp_var_count
    &&& a.if_else_count == b.if_else_count
    &&& a.while_count == b.while_count
    &&& same_entries(a.values@, b.values@)
}

/// `b` is a copy of the entries `a`, in order.
pub open spec fn same_entries(a: Seq<SymbolTableEntry>, b: Seq<SymbolTableEntry>) -> bool
    decreases a,
{
    &&& a.len() == b.len()
    &&& (a.len() == 0 || (same_entries(a.drop_last(), b.drop_last()) && same_entry(a.last(), b.last())))
}

/// `b` is a copy of the function `a`, nested table included.
pub open spec fn same_function_copy(a: Function, b: Function) -> bool {
    same_entry(SymbolTableEntry::Function(a), SymbolTableEntry::Function(b))
}

/// A copy of a parameter.
fn copy_param(p: &Param) -> (r: Param)
    ensures
        same_param(*p, r),
{
    Param {
        id: copy_string(&p.id),
        data_type: copy_string(&p.data_type),
        dimension: p.dimension.clone(),
        line: p.line,
        column: p.column,
    }
}

/// A copy of a list of parameters.
fn copy_params(ps: &Vec<Param>) -> (r: Vec<Param>)
    ensures
        same_params(ps@, r@),
{
    let mut r: Vec<Param> = Vec::new();
    let mut i: usize = 0;
    while i < ps.len()
        invariant
            i <= ps.len(),
            r.len() == i,
            forall|k: int| 0 <= k < i ==> #[trigger] same_param(ps@[k], r@[k]),
        decreases ps.len() - i,
    {
        r.push(copy_param(&ps[i]));
        i += 1;
    }
    r
}

/// A copy of an entry, nested tables included.
pub fn copy_entry(e: &SymbolTableEntry) -> (r: SymbolTableEntry)
    ensures
        same_entry(*e, r),
    decreases e,
{
    match e {
        SymbolTableEntry::Class(c) => {
            let table = copy_table(&c.symbol_table);
            let names = copy_strings(&c.inheritance_list);
            assert(texts(names@) =~= texts(c.inheritance_list@));
            SymbolTableEntry::Class(
                Class {
                    id: copy_string(&c.id),
                    inheritance_list: names,
                    symbol_table: table,
                    bytes: c.bytes,
                    line: c.line,
                    column: c.column,
                },
            )
        },
        SymbolTableEntry::Function(f) => {
            let table = copy_table(&f.symbol_table);
            SymbolTableEntry::Function(
                Function {
                    id: copy_string(&f.id),
                    scope: copy_option_string(&f.scope),
                    parameter_types: copy_params(&f.parameter_types),
                    return_type: copy_option_string(&f.return_type),
                    visibility: f.visibility,
                    symbol_table: table,
                    defined: f.defined,
                    line: f.line,
                    column: f.column,
                },
            )
        },
        SymbolTableEntry::Inherit(i) => {
            let names = copy_strings(&i.names);
            assert(texts(names@) =~= texts(i.names@));
            SymbolTableEntry::Inherit(Inherit { names })
        },
        SymbolTableEntry::Param(p) => SymbolTableEntry::Param(copy_param(p)),
        SymbolTableEntry::Local(l) => SymbolTableEntry::Local(
            Local {
                id: copy_string(&l.id),
                data_type: copy_string(&l.data_type),
                dimension: l.dimension.clone(),
                line: l.line,
                column: l.column,
            },
        ),
        SymbolTableEntry::Data(d) => SymbolTableEntry::Data(
            Data {
                id: copy_string(&d.id),
                visibility: d.visibility,
                data_type: copy_string(&d.data_type),
                dimension: d.dimension.clone(),
                bytes: d.bytes,
                line: d.line,
                column: d.column,
            },
        ),
        SymbolTableEntry::Temporary(t) => SymbolTableEntry::Temporary(
            Temporary {
                id: copy_string(&t.id),
                data_type: copy_string(&t.data_type),
                bytes: t.bytes,
                line: t.line,
                column: t.column,
            },
        ),
    }
}

/// A copy of a table, nested tables included.
pub fn copy_table(t: &SymbolTable) -> (r: SymbolTable)
    ensures
        same_table(*t, r),
    decreases t,
{
    let mut values: Vec<SymbolTableEntry> = Vec::new();
    let mut i: usize = 0;
    while i < t.values.len()
        invariant
            i <= t.values.len(),
            same_entries(t.values@.take(i as int), values@),
        decreases t.values.len() - i,
    {
        assert(t.values@.take(i + 1).drop_last() =~= t.values@.take(i as int));
        let ghost before = values@;
        values.push(copy_entry(&t.values[i]));
        assert(values@.drop_last() =~= before);
        i += 1;
    }
    assert(t.values@.take(i as int) =~= t.values@);
    SymbolTable {
        name: copy_string(&t.name),
        values,
        scope: copy_option_string(&t.scope),
        temp_var_count: t.temp_var_count,
        if_else_count: t.if_else_count,
        while_count: t.while_count,
    }
}

/// A copy of a function, nested table included.
pub fn copy_function(f: &Function) -> (r: Function)
    ensures
        same_function_copy(*f, r),
{
    let table = copy_table(&f.symbol_table);
    Function {
        id: copy_string(&f.id),
        scope: copy_option_string(&f.scope),
        parameter_types: copy_params(&f.parameter_types),
        return_type: copy_option_string(&f.return_type),
        visibility: f.visibility,
        symbol_table: table,
        defined: f.defined,
        line: f.line,
        column: f.column,
    }
}

} // verus!
