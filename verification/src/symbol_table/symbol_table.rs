//! Symbol tables: named, optionally scoped lists of entries, with counters that
//! produce fresh names for temporaries and labels.
use crate::symbol_table::class::{class_text, Class};
use crate::symbol_table::data::{data_text, Data};
use crate::symbol_table::function::{function_text, parameter_texts, same_function, same_types, Function};
use crate::symbol_table::inherit::{inherit_text, texts, Inherit};
use crate::symbol_table::local::{local_text, Local};
use crate::symbol_table::param::{param_text, Param};
use crate::symbol_table::sizes::{base_size, is_primitive, size_fits, size_of, size_of_optional, size_product, ADDR_SIZE};
use crate::symbol_table::temporary::{temporary_text, Temporary};
use crate::text::{concatenation, digits, joined, option_text, push_char, push_str, push_unsigned, str_eq, string_of};
use vstd::prelude::*;

verus! {

/// An entry of a symbol table.
#[derive(Debug)]
pub enum SymbolTableEntry {
    Class(Class),
    Function(Function),
    Inherit(Inherit),
    Param(Param),
    Local(Local),
    Data(Data),
    Temporary(Temporary),
}

/// Whether an inheritance based search includes the class it starts from.
pub enum Search {
    Inclusive,
    Exclusive,
}

/// A symbol table: a name, the entries in the order they were added, the name of the
/// enclosing scope if any, and the counters behind fresh temporary and label names.
#[derive(Debug, Default)]
pub struct SymbolTable {
    pub name: String,
    pub values: Vec<SymbolTableEntry>,
    pub scope: Option<String>,
    pub temp_var_count: usize,
    pub if_else_count: usize,
    pub while_count: usize,
}

/// The identifier of an entry; an inherit entry has none.
pub open spec fn entry_id(e: SymbolTableEntry) -> Option<Seq<char>> {
    match e {
        SymbolTableEntry::Class(c) => Some(c.id@),
        SymbolTableEntry::Function(f) => Some(f.id@),
        SymbolTableEntry::Inherit(_) => None,
        SymbolTableEntry::Param(p) => Some(p.id@),
        SymbolTableEntry::Local(l) => Some(l.id@),
        SymbolTableEntry::Data(d) => Some(d.id@),
        SymbolTableEntry::Temporary(t) => Some(t.id@),
    }
}

/// Whether the entry `e` has the identifier `id`.
pub open spec fn has_id(e: SymbolTableEntry, id: Seq<char>) -> bool {
    entry_id(e) == Some(id)
}

/// The position of the first entry of `s` with identifier `id`, if any.
pub open spec fn first_index(s: Seq<SymbolTableEntry>, id: Seq<char>) -> Option<int>
    decreases s.len(),
{
    if s.len() == 0 {
        None
    } else {
        match first_index(s.drop_last(), id) {
            Some(i) => Some(i),
            None => if has_id(s.last(), id) {
                Some(s.len() - 1)
            } else {
                None
            },
        }
    }
}

/// The first entry of `s` with identifier `id`, if any.
pub open spec fn lookup(s: Seq<SymbolTableEntry>, id: Seq<char>) -> Option<SymbolTableEntry> {
    match first_index(s, id) {
        Some(i) => Some(s[i]),
        None => None,
    }
}

/// The entries of `s` with identifier `id`, in order.
pub open spec fn all_with_id(s: Seq<SymbolTableEntry>, id: Seq<char>) -> Seq<SymbolTableEntry>
    decreases s.len(),
{
    if s.len() == 0 {
        Seq::empty()
    } else if has_id(s.last(), id) {
        all_with_id(s.drop_last(), id).push(s.last())
    } else {
        all_with_id(s.drop_last(), id)
    }
}

/// `s` with its entries of identifier `id` replaced, in order, by those of `new`.
pub open spec fn with_id_replaced(s: Seq<SymbolTableEntry>, id: Seq<char>, new: Seq<SymbolTableEntry>) -> Seq<
    SymbolTableEntry,
>
    decreases s.len(),
{
    if s.len() == 0 {
        Seq::empty()
    } else if has_id(s.last(), id) {
        with_id_replaced(s.drop_last(), id, new.drop_last()).push(new.last())
    } else {
        with_id_replaced(s.drop_last(), id, new).push(s.last())
    }
}

/// The entries that the mutable references `refs` refer to.
pub open spec fn referred_mut(refs: Seq<&mut SymbolTableEntry>) -> Seq<SymbolTableEntry> {
    Seq::new(refs.len(), |i: int| *refs[i])
}

/// The entries that `refs` refer to.
pub open spec fn referred(refs: Seq<&SymbolTableEntry>) -> Seq<SymbolTableEntry> {
    Seq::new(refs.len(), |i: int| *refs[i])
}

/// The description of an entry.
pub open spec fn entry_text(e: SymbolTableEntry) -> Seq<char> {
    match e {
        SymbolTableEntry::Class(c) => class_text(c),
        SymbolTableEntry::Function(f) => function_text(f),
        SymbolTableEntry::Inherit(i) => inherit_text(i),
        SymbolTableEntry::Param(p) => param_text(p),
        SymbolTableEntry::Local(l) => local_text(l),
        SymbolTableEntry::Data(d) => data_text(d),
        SymbolTableEntry::Temporary(t) => temporary_text(t),
    }
}

/// What `first_index` finds: the first entry with the identifier, or that none has it.
pub proof fn lemma_first_index(s: Seq<SymbolTableEntry>, id: Seq<char>)
    ensures
        match first_index(s, id) {
            Some(i) => 0 <= i < s.len() && has_id(s[i], id) && forall|j: int|
                0 <= j < i ==> !has_id(#[trigger] s[j], id),
            None => forall|j: int| 0 <= j < s.len() ==> !has_id(#[trigger] s[j], id),
        },
    decreases s.len(),
{
    if s.len() > 0 {
        let t = s.drop_last();
        lemma_first_index(t, id);
        assert forall|j: int| 0 <= j < t.len() implies #[trigger] s[j] == t[j] by {}
        match first_index(t, id) {
            Some(i) => {
                assert forall|j: int| 0 <= j < i implies !has_id(#[trigger] s[j], id) by {
                    assert(s[j] == t[j]);
                }
            },
            None => {
                assert forall|j: int| 0 <= j < t.len() implies !has_id(#[trigger] s[j], id) by {
                    assert(s[j] == t[j]);
                }
            },
        }
    }
}

/// The number of characters '=' that make up a rule of `width`.
pub open spec fn rule_text(width: nat) -> Seq<char> {
    Seq::new(width, |i: int| '=')
}

/// The function `f` has identifier `id` and parameters whose type signatures are
/// `parameters`, in order.
pub open spec fn signature_matches(f: Function, id: Seq<char>, parameters: Seq<Seq<char>>) -> bool {
    f.id@ == id && parameter_texts(f.parameter_types@) == parameters
}

/// The first function of `s` with identifier `id` and parameter types `parameters`.
pub open spec fn first_overload(s: Seq<SymbolTableEntry>, id: Seq<char>, parameters: Seq<Seq<char>>) -> Option<
    Function,
>
    decreases s.len(),
{
    if s.len() == 0 {
        None
    } else {
        match first_overload(s.drop_last(), id, parameters) {
            Some(f) => Some(f),
            None => match s.last() {
                SymbolTableEntry::Function(f) => if signature_matches(f, id, parameters) {
                    Some(f)
                } else {
                    None
                },
                _ => None,
            },
        }
    }
}

/// The entry `e` is a function that `def` defines: same identifier and parameter types.
pub open spec fn declares(e: SymbolTableEntry, def: Function) -> bool {
    match e {
        SymbolTableEntry::Function(f) => same_function(f, def),
        _ => false,
    }
}

/// The position of the first entry of `s` that `def` defines, if any.
pub open spec fn first_declaration(s: Seq<SymbolTableEntry>, def: Function) -> Option<int>
    decreases s.len(),
{
    if s.len() == 0 {
        None
    } else {
        match first_declaration(s.drop_last(), def) {
            Some(i) => Some(i),
            None => if declares(s.last(), def) {
                Some(s.len() - 1)
            } else {
                None
            },
        }
    }
}

/// `new` is the table `old` with the first function that `def` defines replaced by it.
pub open spec fn declaration_replaced(old: SymbolTable, new: SymbolTable, def: Function) -> bool {
    &&& new.name == old.name
    &&& new.scope == old.scope
    &&& new.same_counters(old)
    &&& first_declaration(old.values@, def) is Some
    &&& new.values@ == old.values@.update(first_declaration(old.values@, def)->0, SymbolTableEntry::Function(def))
}

/// `new` is the class `old` with the first function of its table that `def` defines
/// replaced by it.
pub open spec fn class_declaration_replaced(old: Class, new: Class, def: Function) -> bool {
    &&& new.id == old.id
    &&& new.inheritance_list == old.inheritance_list
    &&& new.bytes == old.bytes
    &&& new.line == old.line
    &&& new.column == old.column
    &&& declaration_replaced(old.symbol_table, new.symbol_table, def)
}

/// The class that a definition of a member function belongs to: the first entry named
/// by its scope, where that is a class, and its position.
pub open spec fn scope_class(s: Seq<SymbolTableEntry>, def: Function) -> Option<(int, Class)> {
    match def.scope {
        Some(scope) => match first_index(s, scope@) {
            Some(i) => match s[i] {
                SymbolTableEntry::Class(c) => Some((i, c)),
                _ => None,
            },
            None => None,
        },
        None => None,
    }
}

/// Whether the size of an entry can be computed: it is no class or function, and its
/// data type is a primitive one whose size, with its dimensions, fits in a `usize`.
pub open spec fn sized_entry(e: SymbolTableEntry) -> bool {
    match e {
        SymbolTableEntry::Class(_) => false,
        SymbolTableEntry::Function(_) => false,
        SymbolTableEntry::Inherit(_) => true,
        SymbolTableEntry::Param(p) => p.dimension@.len() == 0 ==> is_primitive(p.data_type@),
        SymbolTableEntry::Local(l) => is_primitive(l.data_type@) && size_fits(base_size(l.data_type@), l.dimension@),
        SymbolTableEntry::Data(d) => is_primitive(d.data_type@) && size_fits(base_size(d.data_type@), d.dimension@),
        SymbolTableEntry::Temporary(t) => is_primitive(t.data_type@),
    }
}

/// The size of an entry: none for an inherit entry, an address for an array
/// parameter, else the size of its data type times its dimensions.
pub open spec fn entry_size(e: SymbolTableEntry) -> nat {
    match e {
        SymbolTableEntry::Param(p) => if p.dimension@.len() == 0 {
            base_size(p.data_type@)
        } else {
            ADDR_SIZE as nat
        },
        SymbolTableEntry::Local(l) => size_product(base_size(l.data_type@), l.dimension@),
        SymbolTableEntry::Data(d) => size_product(base_size(d.data_type@), d.dimension@),
        SymbolTableEntry::Temporary(t) => base_size(t.data_type@),
        _ => 0,
    }
}

impl SymbolTableEntry {
    /// Computes the size of the entry and returns it; a member variable or a temporary
    /// also records it.
    pub fn computed_size(&mut self) -> (r: usize)
        requires
            sized_entry(*old(self)),
        ensures
            r == entry_size(*old(self)),
            *final(self) == match *old(self) {
                SymbolTableEntry::Data(d) => SymbolTableEntry::Data(Data { bytes: r, ..d }),
                SymbolTableEntry::Temporary(t) => SymbolTableEntry::Temporary(Temporary { bytes: r, ..t }),
                other => other,
            },
    {
        match self {
            SymbolTableEntry::Inherit(_) => 0,
            SymbolTableEntry::Param(param) => size_of_optional(param.data_type.as_str(), &param.dimension),
            SymbolTableEntry::Local(local) => size_of(local.data_type.as_str(), &local.dimension),
            SymbolTableEntry::Data(data) => data.computed_size(),
            SymbolTableEntry::Temporary(temporary) => temporary.computed_size(),
            SymbolTableEntry::Class(_) => 0,
            SymbolTableEntry::Function(_) => 0,
        }
    }

    /// The identifier of the entry; an inherit entry has none.
    pub fn id(&self) -> (r: Option<&str>)
        ensures
            match r {
                Some(s) => entry_id(*self) == Some(s@),
                None => entry_id(*self) is None,
            },
    {
        match self {
            SymbolTableEntry::Class(class) => Some(class.id.as_str()),
            SymbolTableEntry::Function(function) => Some(function.id.as_str()),
            SymbolTableEntry::Inherit(_) => None,
            SymbolTableEntry::Param(param) => Some(param.id.as_str()),
            SymbolTableEntry::Local(local) => Some(local.id.as_str()),
            SymbolTableEntry::Data(data) => Some(data.id.as_str()),
            SymbolTableEntry::Temporary(temporary) => Some(temporary.id.as_str()),
        }
    }

    /// Whether the entry has the identifier `id`.
    pub fn has_id(&self, id: &str) -> (r: bool)
        ensures
            r == has_id(*self, id@),
    {
        match self.id() {
            Some(entry_id) => str_eq(entry_id, id),
            None => false,
        }
    }

    /// The description of the entry.
    pub fn describe(&self) -> (r: String)
        ensures
            r@ == entry_text(*self),
    {
        match self {
            SymbolTableEntry::Class(c) => c.describe(),
            SymbolTableEntry::Function(f) => f.describe(),
            SymbolTableEntry::Inherit(i) => i.describe(),
            SymbolTableEntry::Param(p) => p.describe(),
            SymbolTableEntry::Local(l) => l.describe(),
            SymbolTableEntry::Data(d) => d.describe(),
            SymbolTableEntry::Temporary(t) => t.describe(),
        }
    }
}

impl SymbolTable {
    /// The number of temporary names handed out.
    pub open spec fn temporaries_made(&self) -> nat {
        self.temp_var_count as nat
    }

    /// The number of if-else label pairs handed out.
    pub open spec fn if_else_labels_made(&self) -> nat {
        self.if_else_count as nat
    }

    /// The number of while label pairs handed out.
    pub open spec fn while_labels_made(&self) -> nat {
        self.while_count as nat
    }

    /// The table is a new one named `name` in `scope`: no entries, no names handed out.
    pub open spec fn is_new(&self, name: Seq<char>, scope: Option<Seq<char>>) -> bool {
        &&& self.name@ == name
        &&& option_text(self.scope) == scope
        &&& self.values@.len() == 0
        &&& self.temporaries_made() == 0
        &&& self.if_else_labels_made() == 0
        &&& self.while_labels_made() == 0
    }

    /// The counters are as they were in `other`.
    pub open spec fn same_counters(&self, other: SymbolTable) -> bool {
        &&& self.temporaries_made() == other.temporaries_made()
        &&& self.if_else_labels_made() == other.if_else_labels_made()
        &&& self.while_labels_made() == other.while_labels_made()
    }

    /// The title of the table: "table: ", the scope and "::" if any, then the name.
    pub open spec fn title_text(&self) -> Seq<char> {
        "table: "@ + match self.scope {
            Some(s) => s@ + "::"@,
            None => Seq::empty(),
        } + self.name@
    }

    pub fn name(&self) -> (r: &String)
        ensures
            r == &self.name,
    {
        &self.name
    }

    /// A new, empty table named `name` without scope.
    pub fn new(name: &str) -> (r: SymbolTable)
        ensures
            r.is_new(name@, None),
    {
        SymbolTable {
            name: string_of(name),
            scope: None,
            values: Vec::new(),
            temp_var_count: 0,
            if_else_count: 0,
            while_count: 0,
        }
    }

    /// A new, empty table named `name` in `scope`.
    pub fn scoped_new(name: &str, scope: Option<&str>) -> (r: SymbolTable)
        ensures
            r.is_new(
                name@,
                match scope {
                    Some(s) => Some(s@),
                    None => None,
                },
            ),
    {
        let scope = match scope {
            Some(s) => Some(string_of(s)),
            None => None,
        };
        SymbolTable { name: string_of(name), scope, values: Vec::new(), temp_var_count: 0, if_else_count: 0, while_count: 0 }
    }

    /// Adds `entry` at the end of the table and returns a reference to it, through
    /// which it can be changed.
    pub fn add_entry(&mut self, entry: SymbolTableEntry) -> (r: &mut SymbolTableEntry)
        ensures
            *r == entry,
            final(self).values@ == old(self).values@.push(*final(r)),
            final(self).name == old(self).name,
            final(self).scope == old(self).scope,
            final(self).same_counters(*old(self)),
    {
        self.values.push(entry);
        let last = self.values.len() - 1;
        &mut self.values[last]
    }

    /// The title of the table.
    pub(crate) fn title(&self) -> (r: String)
        ensures
            r@ == self.title_text(),
    {
        let mut title = string_of("table: ");
        match &self.scope {
            Some(scope) => {
                push_str(&mut title, scope.as_str());
                push_str(&mut title, "::");
            },
            None => {},
        }
        push_str(&mut title, self.name.as_str());
        assert(title@ =~= self.title_text());
        title
    }

    /// The line of '=' that makes up the horizontal rules of the table.
    pub(crate) fn header_bar(&self, table_width: usize) -> (r: String)
        ensures
            r@ == rule_text(table_width as nat),
    {
        let mut r = String::new();
        let mut i: usize = 0;
        while i < table_width
            invariant
                i <= table_width,
                r@ == rule_text(i as nat),
            decreases table_width - i,
        {
            push_char(&mut r, '=');
            i += 1;
            assert(r@ =~= rule_text(i as nat));
        }
        r
    }

    /// A fresh name for a temporary: "temp" followed by the number of names handed out
    /// before.
    pub fn get_next_temporary(&mut self) -> (r: String)
        requires
            old(self).temporaries_made() < usize::MAX,
        ensures
            r@ == "temp"@ + digits(old(self).temporaries_made()),
            final(self).temporaries_made() == old(self).temporaries_made() + 1,
            final(self).if_else_labels_made() == old(self).if_else_labels_made(),
            final(self).while_labels_made() == old(self).while_labels_made(),
            final(self).name == old(self).name,
            final(self).values == old(self).values,
            final(self).scope == old(self).scope,
    {
        let mut result = string_of("temp");
        push_unsigned(&mut result, self.temp_var_count as u64);
        self.temp_var_count = self.temp_var_count + 1;
        result
    }

    /// A fresh pair of labels for an if-else statement: the table's name, "__else" or
    /// "__endif", and the number of pairs handed out before.
    pub fn get_next_if_else_label(&mut self) -> (r: (String, String))
        requires
            old(self).if_else_labels_made() < usize::MAX,
        ensures
            r.0@ == old(self).name@ + "__else"@ + digits(old(self).if_else_labels_made()),
            r.1@ == old(self).name@ + "__endif"@ + digits(old(self).if_else_labels_made()),
            final(self).if_else_labels_made() == old(self).if_else_labels_made() + 1,
            final(self).temporaries_made() == old(self).temporaries_made(),
            final(self).while_labels_made() == old(self).while_labels_made(),
            final(self).name == old(self).name,
            final(self).values == old(self).values,
            final(self).scope == old(self).scope,
    {
        let mut result1 = self.name.clone();
        push_str(&mut result1, "__else");
        push_unsigned(&mut result1, self.if_else_count as u64);
        let mut result2 = self.name.clone();
        push_str(&mut result2, "__endif");
        push_unsigned(&mut result2, self.if_else_count as u64);
        self.if_else_count = self.if_else_count + 1;
        (result1, result2)
    }

    /// A fresh pair of labels for a while loop: the table's name, "__gowhile" or
    /// "__endwhile", and the number of pairs handed out before.
    pub fn get_next_while_label(&mut self) -> (r: (String, String))
        requires
            old(self).while_labels_made() < usize::MAX,
        ensures
            r.0@ == old(self).name@ + "__gowhile"@ + digits(old(self).while_labels_made()),
            r.1@ == old(self).name@ + "__endwhile"@ + digits(old(self).while_labels_made()),
            final(self).while_labels_made() == old(self).while_labels_made() + 1,
            final(self).temporaries_made() == old(self).temporaries_made(),
            final(self).if_else_labels_made() == old(self).if_else_labels_made(),
            final(self).name == old(self).name,
            final(self).values == old(self).values,
            final(self).scope == old(self).scope,
    {
        let mut result1 = self.name.clone();
        push_str(&mut result1, "__gowhile");
        push_unsigned(&mut result1, self.while_count as u64);
        let mut result2 = self.name.clone();
        push_str(&mut result2, "__endwhile");
        push_unsigned(&mut result2, self.while_count as u64);
        self.while_count = self.while_count + 1;
        (result1, result2)
    }

    /// The position of the first entry with identifier `id`, if any.
    pub fn position(&self, id: &str) -> (r: Option<usize>)
        ensures
            match r {
                Some(i) => i < self.values.len() && first_index(self.values@, id@) == Some(i as int),
                None => first_index(self.values@, id@) is None,
            },
    {
        let mut i: usize = 0;
        assert(self.values@.take(0) =~= Seq::<SymbolTableEntry>::empty());
        while i < self.values.len()
            invariant
                i <= self.values.len(),
                first_index(self.values@.take(i as int), id@) is None,
            decreases self.values.len() - i,
        {
            assert(self.values@.take(i + 1).drop_last() =~= self.values@.take(i as int));
            if self.values[i].has_id(id) {
                proof {
                    lemma_first_index_prefix(self.values@, id@, i + 1);
                }
                return Some(i);
            }
            i += 1;
        }
        assert(self.values@.take(i as int) =~= self.values@);
        None
    }

    /// The first entry with identifier `id`, if any.
    pub fn get(&self, id: &str) -> (r: Option<&SymbolTableEntry>)
        ensures
            match r {
                Some(e) => lookup(self.values@, id@) == Some(*e),
                None => lookup(self.values@, id@) is None,
            },
    {
        match self.position(id) {
            Some(i) => Some(&self.values[i]),
            None => None,
        }
    }

    /// The first entry with identifier `id`, if any, to be changed.
    pub fn get_mut(&mut self, id: &str) -> (r: Option<&mut SymbolTableEntry>)
        ensures
            match first_index(old(self).values@, id@) {
                Some(i) => r is Some && *r->0 == old(self).values@[i] && final(self).values@ == old(
                    self,
                ).values@.update(i, *final(r->0)),
                None => r is None && final(self).values@ == old(self).values@,
            },
            final(self).name == old(self).name,
            final(self).scope == old(self).scope,
            final(self).same_counters(*old(self)),
    {
        match self.position(id) {
            Some(i) => Some(&mut self.values[i]),
            None => None,
        }
    }

    /// Whether an entry has the identifier `id`.
    pub fn contains(&self, id: &str) -> (r: bool)
        ensures
            r == first_index(self.values@, id@) is Some,
    {
        self.position(id).is_some()
    }

    /// The entries with identifier `id`, in order.
    pub fn get_all(&self, id: &str) -> (r: Vec<&SymbolTableEntry>)
        ensures
            referred(r@) == all_with_id(self.values@, id@),
    {
        let mut result: Vec<&SymbolTableEntry> = Vec::new();
        let mut i: usize = 0;
        assert(self.values@.take(0) =~= Seq::<SymbolTableEntry>::empty());
        while i < self.values.len()
            invariant
                i <= self.values.len(),
                referred(result@) == all_with_id(self.values@.take(i as int), id@),
            decreases self.values.len() - i,
        {
            assert(self.values@.take(i + 1).drop_last() =~= self.values@.take(i as int));
            let entry = &self.values[i];
            let ghost before = result@;
            if entry.has_id(id) {
                result.push(entry);
                assert(referred(result@) =~= referred(before).push(*entry));
            }
            i += 1;
        }
        assert(self.values@.take(i as int) =~= self.values@);
        result
    }
}

/// Mutable references to the entries of `entries` with identifier `id`, in order;
/// what is written through them is what `entries` holds afterwards.
fn entries_with_id_mut<'a>(entries: &'a mut [SymbolTableEntry], id: &str) -> (r: Vec<&'a mut SymbolTableEntry>)
    ensures
        referred_mut(r@) == all_with_id(old(entries)@, id@),
        final(entries)@ == with_id_replaced(old(entries)@, id@, Seq::new(r@.len(), |k: int| *final(r@[k]))),
{
    let ghost values = entries@;
    let mut result: Vec<&'a mut SymbolTableEntry> = Vec::new();
    let mut rest = entries;
    let mut i: usize = 0;
    assert(values.take(0) =~= Seq::<SymbolTableEntry>::empty());
    while rest.len() > 0
        invariant
            i + rest.len() == values.len(),
            values == old(entries)@,
            values.len() == old(entries).len(),
            rest@ == values.skip(i as int),
            referred_mut(result@) == all_with_id(values.take(i as int), id@),
            final(entries)@ == with_id_replaced(
                values.take(i as int),
                id@,
                Seq::new(result@.len(), |k: int| *final(result@[k])),
            ) + final(rest)@,
        decreases rest.len(),
    {
        assert(values.take(i + 1).drop_last() =~= values.take(i as int));
        assert(values.take(i + 1).last() == values[i as int]);
        let (head, tail) = rest.split_at_mut(1);
        let entry = head.first_mut().unwrap();
        let ghost before = result@;
        if entry.has_id(id) {
            result.push(entry);
            assert(referred_mut(result@) =~= referred_mut(before).push(values[i as int]));
            assert(Seq::new(result@.len(), |k: int| *final(result@[k])).drop_last() =~= Seq::new(
                before.len(),
                |k: int| *final(before[k]),
            ));
        }
        rest = tail;
        i += 1;
    }
    assert(values.take(i as int) =~= values);
    result
}

impl SymbolTable {
    /// Mutable references to all entries with identifier `id`, in the order they were
    /// added. What is written through them is what the table holds afterwards; the
    /// other entries and the rest of the table stay as they are.
    pub fn get_all_mut(&mut self, id: &str) -> (r: Vec<&mut SymbolTableEntry>)
        ensures
            referred_mut(r@) == all_with_id(old(self).values@, id@),
            final(self).values@ == with_id_replaced(old(self).values@, id@, Seq::new(r@.len(), |k: int| *final(r@[k]))),
            final(self).name == old(self).name,
            final(self).scope == old(self).scope,
            final(self).same_counters(*old(self)),
    {
        entries_with_id_mut(self.values.as_mut_slice(), id)
    }
}

/// Whether the parameters of `f` have the type signatures `parameters`, in order.
fn matches_parameters(f: &Function, parameters: &[String]) -> (r: bool)
    ensures
        r == (parameter_texts(f.parameter_types@) == texts(parameters@)),
{
    if f.parameter_types.len() != parameters.len() {
        assert(parameter_texts(f.parameter_types@).len() != texts(parameters@).len());
        return false;
    }
    let mut i: usize = 0;
    while i < parameters.len()
        invariant
            i <= parameters.len(),
            f.parameter_types.len() == parameters.len(),
            forall|k: int| 0 <= k < i ==> #[trigger] parameter_texts(f.parameter_types@)[k] == texts(parameters@)[k],
        decreases parameters.len() - i,
    {
        let t = f.parameter_types[i].type_string();
        if !str_eq(t.as_str(), parameters[i].as_str()) {
            assert(parameter_texts(f.parameter_types@)[i as int] != texts(parameters@)[i as int]);
            return false;
        }
        i += 1;
    }
    assert(parameter_texts(f.parameter_types@) =~= texts(parameters@));
    true
}

/// Whether the entry is a function that `def` defines.
fn is_declaration_of(e: &SymbolTableEntry, def: &Function) -> (r: bool)
    ensures
        r == declares(*e, *def),
{
    match e {
        SymbolTableEntry::Function(f) => str_eq(f.id.as_str(), def.id.as_str()) && same_types(
            &f.parameter_types,
            &def.parameter_types,
        ),
        _ => false,
    }
}

impl SymbolTable {
    /// The first function with identifier `id` whose parameters have the type signatures
    /// `parameters`: the overload that a call with such arguments selects.
    pub fn get_function(&self, id: &str, parameters: &[String]) -> (r: Option<&Function>)
        ensures
            match r {
                Some(f) => first_overload(self.values@, id@, texts(parameters@)) == Some(*f),
                None => first_overload(self.values@, id@, texts(parameters@)) is None,
            },
    {
        let ghost ps = texts(parameters@);
        let mut i: usize = 0;
        assert(self.values@.take(0) =~= Seq::<SymbolTableEntry>::empty());
        while i < self.values.len()
            invariant
                i <= self.values.len(),
                ps == texts(parameters@),
                first_overload(self.values@.take(i as int), id@, ps) is None,
            decreases self.values.len() - i,
        {
            assert(self.values@.take(i + 1).drop_last() =~= self.values@.take(i as int));
            match &self.values[i] {
                SymbolTableEntry::Function(function) => {
                    if str_eq(function.id.as_str(), id) && matches_parameters(function, parameters) {
                        proof {
                            lemma_first_overload_prefix(self.values@, id@, ps, i + 1);
                        }
                        return Some(function);
                    }
                },
                _ => {},
            }
            i += 1;
        }
        assert(self.values@.take(i as int) =~= self.values@);
        None
    }

    /// The name under which the overload of `id` with `parameters` is known: the
    /// identifier followed by the parameter types.
    pub fn mangle_function(&self, id: &str, parameters: &[String]) -> (r: String)
        ensures
            r@ == id@ + concatenation(texts(parameters@)),
    {
        let mut result = string_of(id);
        let mut i: usize = 0;
        assert(texts(parameters@).take(0) =~= Seq::<Seq<char>>::empty());
        while i < parameters.len()
            invariant
                i <= parameters.len(),
                result@ == id@ + concatenation(texts(parameters@).take(i as int)),
            decreases parameters.len() - i,
        {
            assert(texts(parameters@).take(i + 1).drop_last() =~= texts(parameters@).take(i as int));
            push_str(&mut result, parameters[i].as_str());
            assert(result@ =~= id@ + concatenation(texts(parameters@).take(i + 1)));
            i += 1;
        }
        assert(texts(parameters@).take(i as int) =~= texts(parameters@));
        result
    }

    /// Replaces the first function that `definition` defines by it.
    fn replace_declaration(&mut self, definition: Function)
        requires
            first_declaration(old(self).values@, definition) is Some,
        ensures
            declaration_replaced(*old(self), *final(self), definition),
    {
        let mut i: usize = 0;
        assert(self.values@.take(0) =~= Seq::<SymbolTableEntry>::empty());
        while i < self.values.len()
            invariant
                i <= self.values.len(),
                *self == *old(self),
                first_declaration(self.values@.take(i as int), definition) is None,
                first_declaration(self.values@, definition) is Some,
            decreases self.values.len() - i,
        {
            assert(self.values@.take(i + 1).drop_last() =~= self.values@.take(i as int));
            if is_declaration_of(&self.values[i], &definition) {
                proof {
                    lemma_first_declaration_prefix(self.values@, definition, i + 1);
                }
                self.values.set(i, SymbolTableEntry::Function(definition));
                return;
            }
            i += 1;
        }
        assert(self.values@.take(i as int) =~= self.values@);
    }

    /// Replaces, in the class that a member function definition belongs to, the first
    /// function that the definition defines by it. Nothing changes for a free function,
    /// or where the scope names no class.
    pub fn replace_class_function_declaration(&mut self, definition: Function)
        requires
            match scope_class(old(self).values@, definition) {
                Some((i, c)) => first_declaration(c.symbol_table.values@, definition) is Some,
                None => true,
            },
        ensures
            final(self).name == old(self).name,
            final(self).scope == old(self).scope,
            final(self).same_counters(*old(self)),
            match scope_class(old(self).values@, definition) {
                Some((i, c)) => {
                    &&& final(self).values@.len() == old(self).values@.len()
                    &&& forall|k: int| 0 <= k < old(self).values@.len() && k != i ==> #[trigger] final(self).values@[k] == old(self).values@[k]
                    &&& final(self).values@[i] is Class
                    &&& class_declaration_replaced(c, final(self).values@[i]->Class_0, definition)
                },
                None => final(self).values@ == old(self).values@,
            },
    {
        let scope = match &definition.scope {
            Some(s) => s.clone(),
            None => {
                return;
            },
        };
        let ghost old_values = self.values@;
        match self.position(scope.as_str()) {
            Some(i) => {
                let entry = self.values.remove(i);
                match entry {
                    SymbolTableEntry::Class(mut class) => {
                        class.symbol_table.replace_declaration(definition);
                        self.values.insert(i, SymbolTableEntry::Class(class));
                        assert forall|k: int| 0 <= k < old_values.len() && k != i implies #[trigger] self.values@[k] == old_values[k] by {
                            if k < i {
                                assert(self.values@[k] == old_values.remove(i as int)[k]);
                            } else {
                                assert(self.values@[k] == old_values.remove(i as int)[k - 1]);
                            }
                        }
                    },
                    other => {
                        self.values.insert(i, other);
                        assert(self.values@ =~= old_values);
                    },
                }
            },
            None => {},
        }
    }
}

/// The first matching function in a prefix is the first in the whole list.
pub proof fn lemma_first_overload_prefix(s: Seq<SymbolTableEntry>, id: Seq<char>, ps: Seq<Seq<char>>, k: int)
    requires
        0 <= k <= s.len(),
        first_overload(s.take(k), id, ps) is Some,
    ensures
        first_overload(s, id, ps) == first_overload(s.take(k), id, ps),
    decreases s.len() - k,
{
    if k < s.len() {
        assert(s.take(k + 1).drop_last() =~= s.take(k));
        lemma_first_overload_prefix(s, id, ps, k + 1);
    } else {
        assert(s.take(k) =~= s);
    }
}

/// The first declaration in a prefix is the first in the whole list.
pub proof fn lemma_first_declaration_prefix(s: Seq<SymbolTableEntry>, def: Function, k: int)
    requires
        0 <= k <= s.len(),
        first_declaration(s.take(k), def) is Some,
    ensures
        first_declaration(s, def) == first_declaration(s.take(k), def),
    decreases s.len() - k,
{
    if k < s.len() {
        assert(s.take(k + 1).drop_last() =~= s.take(k));
        lemma_first_declaration_prefix(s, def, k + 1);
    } else {
        assert(s.take(k) =~= s);
    }
}

/// The first entry with an identifier in a prefix is the first in the whole list.
pub proof fn lemma_first_index_prefix(s: Seq<SymbolTableEntry>, id: Seq<char>, k: int)
    requires
        0 <= k <= s.len(),
        first_index(s.take(k), id) is Some,
    ensures
        first_index(s, id) == first_index(s.take(k), id),
    decreases s.len() - k,
{
    if k < s.len() {
        assert(s.take(k + 1).drop_last() =~= s.take(k));
        lemma_first_index_prefix(s, id, k + 1);
    } else {
        assert(s.take(k) =~= s);
    }
}

/// What is found after an entry is added: the entry that was found before, or else
/// the new entry where it has the identifier.
pub proof fn law_lookup_after_add(s: Seq<SymbolTableEntry>, e: SymbolTableEntry, id: Seq<char>)
    ensures
        lookup(s.push(e), id) == match lookup(s, id) {
            Some(x) => Some(x),
            None => if has_id(e, id) {
                Some(e)
            } else {
                None
            },
        },
{
    assert(s.push(e).drop_last() =~= s);
    lemma_first_index(s, id);
    match first_index(s, id) {
        Some(i) => {
            assert(s.push(e)[i] == s[i]);
        },
        None => {},
    }
}

/// The first entry with an identifier is the first of all the entries with it, each of
/// which has it.
pub proof fn law_lookup_first_of_all(s: Seq<SymbolTableEntry>, id: Seq<char>)
    ensures
        lookup(s, id) == if all_with_id(s, id).len() > 0 {
            Some(all_with_id(s, id)[0])
        } else {
            None
        },
        forall|k: int| 0 <= k < all_with_id(s, id).len() ==> has_id(#[trigger] all_with_id(s, id)[k], id),
    decreases s.len(),
{
    if s.len() > 0 {
        let t = s.drop_last();
        law_lookup_first_of_all(t, id);
        law_lookup_after_add(t, s.last(), id);
        assert(t.push(s.last()) =~= s);
        if has_id(s.last(), id) {
            let a = all_with_id(t, id);
            assert forall|k: int| 0 <= k < a.push(s.last()).len() implies has_id(#[trigger] a.push(s.last())[k], id) by {
                if k < a.len() {
                    assert(a.push(s.last())[k] == a[k]);
                }
            }
            if a.len() > 0 {
                assert(a.push(s.last())[0] == a[0]);
            }
        }
    }
}

/// A table contains an identifier exactly where an entry is found for it.
pub proof fn law_contains_iff_found(s: Seq<SymbolTableEntry>, id: Seq<char>)
    ensures
        (first_index(s, id) is Some) == (lookup(s, id) is Some),
{
}

/// Where nothing is written through the references that `get_all_mut` hands out, the
/// entries stay as they were: each entry with the identifier is put back as itself.
pub proof fn law_unwritten_references_leave_entries(s: Seq<SymbolTableEntry>, id: Seq<char>)
    ensures
        with_id_replaced(s, id, all_with_id(s, id)) == s,
    decreases s.len(),
{
    if s.len() > 0 {
        law_unwritten_references_leave_entries(s.drop_last(), id);
        if has_id(s.last(), id) {
            assert(all_with_id(s, id).drop_last() =~= all_with_id(s.drop_last(), id));
        }
        assert(with_id_replaced(s, id, all_with_id(s, id)) =~= s);
    }
}

} // verus!
