//! The entry of the program's entry point.
use crate::declarations::{FunctionBody, Variable};
use crate::semantic_error::SemanticError;
use crate::symbol_table::function::Function;
use crate::symbol_table::local::{local_made_from, Local};
use crate::symbol_table::symbol_table::{SymbolTable, SymbolTableEntry};
use vstd::prelude::*;

verus! {

/// The entries `s` are the local variables made from the declarations `vs`, in order.
pub open spec fn locals_made_from(s: Seq<SymbolTableEntry>, vs: Seq<Variable>) -> bool {
    &&& s.len() == vs.len()
    &&& forall|i: int| 0 <= i < s.len() ==> #[trigger] s[i] is Local && local_made_from(s[i]->Local_0, vs[i])
}

/// Adds to the global table the entry of `main`, whose body is `validated_node`: a
/// defined function without parameters whose table holds the body's local variables.
pub fn convert(validated_node: &FunctionBody, global_table: &mut SymbolTable) -> (r: Result<(), SemanticError>)
    ensures
        r is Ok,
        final(global_table).values@.len() == old(global_table).values@.len() + 1,
        final(global_table).values@.drop_last() == old(global_table).values@,
        final(global_table).values@.last() is Function,
        ({
            let f = final(global_table).values@.last()->Function_0;
            &&& f.id@ == "main"@
            &&& f.scope is None
            &&& f.parameter_types@.len() == 0
            &&& f.return_type is None
            &&& f.visibility is None
            &&& f.defined
            &&& f.line == validated_node.line
            &&& f.column == validated_node.column
            &&& f.symbol_table.name@ == "main"@
            &&& f.symbol_table.scope is None
            &&& locals_made_from(f.symbol_table.values@, validated_node.local_variables@)
        }),
        final(global_table).name == old(global_table).name,
        final(global_table).scope == old(global_table).scope,
        final(global_table).same_counters(*old(global_table)),
{
    let mut entrypoint = Function::create_main(validated_node);
    let mut i: usize = 0;
    while i < validated_node.local_variables.len()
        invariant
            i <= validated_node.local_variables.len(),
            entrypoint.id@ == "main"@,
            entrypoint.scope is None,
            entrypoint.parameter_types@.len() == 0,
            entrypoint.return_type is None,
            entrypoint.visibility is None,
            entrypoint.defined,
            entrypoint.line == validated_node.line,
            entrypoint.column == validated_node.column,
            entrypoint.symbol_table.name@ == "main"@,
            entrypoint.symbol_table.scope is None,
            locals_made_from(entrypoint.symbol_table.values@, validated_node.local_variables@.take(i as int)),
        decreases validated_node.local_variables.len() - i,
    {
        let local = Local::from(&validated_node.local_variables[i]);
        entrypoint.symbol_table.add_entry(SymbolTableEntry::Local(local));
        i += 1;
    }
    assert(validated_node.local_variables@.take(i as int) =~= validated_node.local_variables@);
    global_table.add_entry(SymbolTableEntry::Function(entrypoint));
    Ok(())
}

} // verus!
