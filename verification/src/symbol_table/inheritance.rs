//! Searches along the inheritance hierarchy of the classes of the global table.
use crate::symbol_table::class::Class;
use crate::symbol_table::inherit::texts;
use crate::symbol_table::symbol_table::{
    all_with_id, first_index, has_id, lemma_first_index, lookup, referred, SymbolTable, SymbolTableEntry,
};
use crate::text::str_eq;
use vstd::prelude::*;

verus! {

/// The class that `name` names in the entries `g`: the first entry with that
/// identifier, where it is a class.
pub open spec fn class_named(g: Seq<SymbolTableEntry>, name: Seq<char>) -> Option<Class> {
    match lookup(g, name) {
        Some(SymbolTableEntry::Class(c)) => Some(c),
        _ => None,
    }
}

/// The names listed by the inherit entries of `s`, entry after entry in table order.
pub open spec fn inherited_names(s: Seq<SymbolTableEntry>) -> Seq<Seq<char>>
    decreases s.len(),
{
    if s.len() == 0 {
        Seq::empty()
    } else {
        inherited_names(s.drop_last()) + match s.last() {
            SymbolTableEntry::Inherit(inherit) => texts(inherit.names@),
            _ => Seq::empty(),
        }
    }
}

/// The number of class entries of `g` whose identifier is not in `visited`: what a
/// search that visits each class once at most has left to visit.
pub open spec fn unvisited(g: Seq<SymbolTableEntry>, visited: Seq<Seq<char>>) -> nat
    decreases g.len(),
{
    if g.len() == 0 {
        0
    } else {
        unvisited(g.drop_last(), visited) + match g.last() {
            SymbolTableEntry::Class(c) => if visited.contains(c.id@) {
                0nat
            } else {
                1nat
            },
            _ => 0nat,
        }
    }
}

/// Every name in `a` is in `b`.
pub open spec fn included(a: Seq<Seq<char>>, b: Seq<Seq<char>>) -> bool {
    forall|x: Seq<char>| a.contains(x) ==> b.contains(x)
}

/// The search has moved past `name` since `entry`: `visited` holds what `entry` held and
/// also `name`, which `entry` did not hold.
pub open spec fn moved_past(entry: Seq<Seq<char>>, visited: Seq<Seq<char>>, name: Seq<char>) -> bool {
    included(entry, visited) && visited.contains(name) && !entry.contains(name)
}

/// A cycle is reachable from the names `list`, along a path of classes whose names are
/// `path`: a name of the list is already on the path, or it names a class from whose
/// own inherit list, with that class added to the path, a cycle is reachable.
pub open spec fn cycle_reachable(g: Seq<SymbolTableEntry>, list: Seq<Seq<char>>, path: Seq<Seq<char>>) -> bool
    decreases unvisited(g, path), 1nat, 0nat,
{
    cycle_over(g, list, 0, path)
}

/// `cycle_reachable` for the names of `list` from position `i` on.
pub open spec fn cycle_over(g: Seq<SymbolTableEntry>, list: Seq<Seq<char>>, i: int, path: Seq<Seq<char>>) -> bool
    decreases unvisited(g, path), 0nat, list.len() - i,
{
    if 0 <= i < list.len() {
        if path.contains(list[i]) {
            true
        } else {
            (match class_named(g, list[i]) {
                Some(c) => {
                    proof {
                        lemma_class_named(g, list[i]);
                        lemma_included_push(path, list[i]);
                        lemma_unvisited_strict(g, path, path.push(list[i]), first_index(g, list[i])->0);
                    }
                    cycle_reachable(g, inherited_names(c.symbol_table.values@), path.push(list[i]))
                },
                None => false,
            }) || cycle_over(g, list, i + 1, path)
        }
    } else {
        false
    }
}

/// The inheritance search for entries named `id` from the class `c`: the entries of its
/// own table, then those found from each class it inherits from that was not visited
/// yet. Also gives the visited names after the search.
pub open spec fn inherited_from(g: Seq<SymbolTableEntry>, c: Class, id: Seq<char>, visited: Seq<Seq<char>>) -> (
    Seq<SymbolTableEntry>,
    Seq<Seq<char>>,
)
    decreases unvisited(g, visited), 1nat, 0nat,
{
    inherited_over(
        g,
        texts(c.inheritance_list@),
        0,
        id,
        all_with_id(c.symbol_table.values@, id),
        visited.push(c.id@),
        visited,
        c.id@,
    )
}

/// The inheritance search over the names of `list` from position `i`, with the entries
/// `found` so far; `entry` were the names visited before the class `own` was.
pub open spec fn inherited_over(
    g: Seq<SymbolTableEntry>,
    list: Seq<Seq<char>>,
    i: int,
    id: Seq<char>,
    found: Seq<SymbolTableEntry>,
    visited: Seq<Seq<char>>,
    entry: Seq<Seq<char>>,
    own: Seq<char>,
) -> (Seq<SymbolTableEntry>, Seq<Seq<char>>)
    decreases unvisited(g, entry), 0nat, list.len() - i,
{
    if 0 <= i < list.len() {
        match class_named(g, list[i]) {
            Some(c) => if visited.contains(c.id@) {
                inherited_over(g, list, i + 1, id, found, visited, entry, own)
            } else if moved_past(entry, visited, own) && class_named(g, own) is Some {
                proof {
                    lemma_class_named(g, own);
                    lemma_unvisited_strict(g, entry, visited, first_index(g, own)->0);
                }
                let (more, after) = inherited_from(g, c, id, visited);
                inherited_over(g, list, i + 1, id, found + more, after, entry, own)
            } else {
                (found, visited)
            },
            None => inherited_over(g, list, i + 1, id, found, visited, entry, own),
        }
    } else {
        (found, visited)
    }
}

/// The inheritance search over the names that the class inherits from, starting with
/// only the class itself visited, from position `i` with the entries `found` so far.
pub open spec fn inherited_top(
    g: Seq<SymbolTableEntry>,
    list: Seq<Seq<char>>,
    i: int,
    id: Seq<char>,
    found: Seq<SymbolTableEntry>,
    visited: Seq<Seq<char>>,
) -> Seq<SymbolTableEntry>
    decreases list.len() - i,
{
    if 0 <= i < list.len() {
        match class_named(g, list[i]) {
            Some(c) => if visited.contains(c.id@) {
                inherited_top(g, list, i + 1, id, found, visited)
            } else {
                let (more, after) = inherited_from(g, c, id, visited);
                inherited_top(g, list, i + 1, id, found + more, after)
            },
            None => inherited_top(g, list, i + 1, id, found, visited),
        }
    } else {
        found
    }
}

/// The entries named `id` in the classes that `class` inherits from, directly or not,
/// each class searched once.
pub open spec fn inherited(g: Seq<SymbolTableEntry>, class: Class, id: Seq<char>) -> Seq<SymbolTableEntry> {
    inherited_top(g, texts(class.inheritance_list@), 0, id, Seq::empty(), seq![class.id@])
}

/// A class that a name names is an entry of the table with that identifier.
pub proof fn lemma_class_named(g: Seq<SymbolTableEntry>, name: Seq<char>)
    requires
        class_named(g, name) is Some,
    ensures
        first_index(g, name) is Some,
        0 <= first_index(g, name)->0 < g.len(),
        g[first_index(g, name)->0] == SymbolTableEntry::Class(class_named(g, name)->0),
        class_named(g, name)->0.id@ == name,
{
    lemma_first_index(g, name);
}

/// Visiting more names leaves no more classes to visit.
pub proof fn lemma_unvisited_mono(g: Seq<SymbolTableEntry>, v1: Seq<Seq<char>>, v2: Seq<Seq<char>>)
    requires
        included(v1, v2),
    ensures
        unvisited(g, v2) <= unvisited(g, v1),
    decreases g.len(),
{
    if g.len() > 0 {
        lemma_unvisited_mono(g.drop_last(), v1, v2);
        match g.last() {
            SymbolTableEntry::Class(c) => {
                if v1.contains(c.id@) {
                    assert(v2.contains(c.id@));
                }
            },
            _ => {},
        }
    }
}

/// Visiting the identifier of a class entry that was not visited leaves fewer classes
/// to visit.
pub proof fn lemma_unvisited_strict(g: Seq<SymbolTableEntry>, v1: Seq<Seq<char>>, v2: Seq<Seq<char>>, k: int)
    requires
        included(v1, v2),
        0 <= k < g.len(),
        g[k] is Class,
        !v1.contains(g[k]->Class_0.id@),
        v2.contains(g[k]->Class_0.id@),
    ensures
        unvisited(g, v2) < unvisited(g, v1),
    decreases g.len(),
{
    lemma_unvisited_mono(g.drop_last(), v1, v2);
    if k < g.len() - 1 {
        assert(g.drop_last()[k] == g[k]);
        lemma_unvisited_strict(g.drop_last(), v1, v2, k);
        match g.last() {
            SymbolTableEntry::Class(c) => {
                if v1.contains(c.id@) {
                    assert(v2.contains(c.id@));
                }
            },
            _ => {},
        }
    }
}

/// Inclusion is transitive.
pub proof fn lemma_included_trans(a: Seq<Seq<char>>, b: Seq<Seq<char>>, c: Seq<Seq<char>>)
    requires
        included(a, b),
        included(b, c),
    ensures
        included(a, c),
{
}

/// A list is included in itself followed by more, which holds each of the more.
pub proof fn lemma_included_concat(a: Seq<Seq<char>>, b: Seq<Seq<char>>)
    ensures
        included(a, a + b),
        forall|j: int| 0 <= j < b.len() ==> (a + b).contains(#[trigger] b[j]),
{
    assert forall|x: Seq<char>| a.contains(x) implies (a + b).contains(x) by {
        let j = choose|j: int| 0 <= j < a.len() && a[j] == x;
        assert((a + b)[j] == x);
    }
    assert forall|j: int| 0 <= j < b.len() implies (a + b).contains(#[trigger] b[j]) by {
        assert((a + b)[a.len() + j] == b[j]);
    }
}

/// A list is included in itself with one more name, which it then holds.
pub proof fn lemma_included_push(a: Seq<Seq<char>>, x: Seq<char>)
    ensures
        included(a, a.push(x)),
        a.push(x).contains(x),
{
    lemma_included_concat(a, seq![x]);
    assert(a + seq![x] =~= a.push(x));
    assert(seq![x][0] == x);
}

/// Whether `v` holds a string equal to `s`.
pub fn contains_text(v: &Vec<String>, s: &str) -> (r: bool)
    ensures
        r == texts(v@).contains(s@),
{
    let mut i: usize = 0;
    while i < v.len()
        invariant
            i <= v.len(),
            forall|k: int| 0 <= k < i ==> v@[k]@ != s@,
        decreases v.len() - i,
    {
        if str_eq(v[i].as_str(), s) {
            assert(texts(v@)[i as int] == s@);
            return true;
        }
        i += 1;
    }
    proof {
        if texts(v@).contains(s@) {
            let k = choose|k: int| 0 <= k < texts(v@).len() && texts(v@)[k] == s@;
            assert(v@[k]@ == s@);
        }
    }
    false
}

impl SymbolTable {
    /// The names listed by all inherit entries of the table, entry after entry in the
    /// order they were added; none where there is no such entry.
    pub fn collect_inherits(&self) -> (r: Vec<String>)
        ensures
            texts(r@) == inherited_names(self.values@),
    {
        let mut r: Vec<String> = Vec::new();
        let mut i: usize = 0;
        assert(self.values@.take(0) =~= Seq::<SymbolTableEntry>::empty());
        assert(texts(r@) =~= Seq::<Seq<char>>::empty());
        while i < self.values.len()
            invariant
                i <= self.values.len(),
                texts(r@) == inherited_names(self.values@.take(i as int)),
            decreases self.values.len() - i,
        {
            assert(self.values@.take(i + 1).drop_last() =~= self.values@.take(i as int));
            assert(self.values@.take(i + 1).last() == self.values@[i as int]);
            match &self.values[i] {
                SymbolTableEntry::Inherit(inherit) => {
                    let mut k: usize = 0;
                    let ghost before = texts(r@);
                    while k < inherit.names.len()
                        invariant
                            k <= inherit.names.len(),
                            texts(r@) == before + texts(inherit.names@).take(k as int),
                        decreases inherit.names.len() - k,
                    {
                        let ghost prev = r@;
                        r.push(inherit.names[k].clone());
                        assert(texts(r@) =~= texts(prev).push(inherit.names@[k as int]@));
                        assert(texts(inherit.names@).take(k + 1) =~= texts(inherit.names@).take(k as int).push(
                            inherit.names@[k as int]@,
                        ));
                        k += 1;
                    }
                    assert(texts(inherit.names@).take(k as int) =~= texts(inherit.names@));
                },
                _ => {
                    assert(texts(r@) =~= texts(r@) + Seq::<Seq<char>>::empty());
                },
            }
            i += 1;
        }
        assert(self.values@.take(i as int) =~= self.values@);
        r
    }

    /// Whether a cycle is reachable from the classes that this table inherits from: a
    /// class comes back along one path of inheritance.
    pub fn inherit_list_has_cycles(&self, global_table: &SymbolTable) -> (r: bool)
        ensures
            r == cycle_reachable(global_table.values@, inherited_names(self.values@), Seq::empty()),
    {
        let names = self.collect_inherits();
        let mut path: Vec<String> = Vec::new();
        assert(texts(path@) =~= Seq::<Seq<char>>::empty());
        self.inherit_list_has_cycles_aux(&names, global_table, &mut path)
    }

    /// The cycle search from `inherit_list`, along the path of classes `path`.
    fn inherit_list_has_cycles_aux(
        &self,
        inherit_list: &Vec<String>,
        global_table: &SymbolTable,
        path: &mut Vec<String>,
    ) -> (r: bool)
        ensures
            r == cycle_reachable(global_table.values@, texts(inherit_list@), texts(old(path)@)),
            texts(final(path)@) == texts(old(path)@),
        decreases unvisited(global_table.values@, texts(old(path)@)),
    {
        let ghost g = global_table.values@;
        let ghost list = texts(inherit_list@);
        let ghost p0 = texts(path@);
        let mut i: usize = 0;
        while i < inherit_list.len()
            invariant
                i <= inherit_list.len(),
                g == global_table.values@,
                list == texts(inherit_list@),
                p0 == texts(old(path)@),
                texts(path@) == p0,
                cycle_reachable(g, list, p0) == cycle_over(g, list, i as int, p0),
            decreases inherit_list.len() - i,
        {
            if contains_text(path, inherit_list[i].as_str()) {
                return true;
            }
            match global_table.get(inherit_list[i].as_str()) {
                Some(SymbolTableEntry::Class(class)) => {
                    assert(class_named(g, list[i as int]) == Some(*class));
                    proof {
                        lemma_class_named(g, list[i as int]);
                        lemma_included_push(p0, list[i as int]);
                        lemma_unvisited_strict(g, p0, p0.push(list[i as int]), first_index(g, list[i as int])->0);
                    }
                    let ghost before = path@;
                    path.push(inherit_list[i].clone());
                    assert(texts(path@) =~= p0.push(list[i as int]));
                    let names = class.symbol_table.collect_inherits();
                    let found = class.symbol_table.inherit_list_has_cycles_aux(&names, global_table, path);
                    let ghost pushed = path@;
                    path.pop();
                    assert(texts(path@) =~= texts(pushed).drop_last());
                    if found {
                        return true;
                    }
                },
                _ => {},
            }
            i += 1;
        }
        false
    }

    /// The entries named `id` in the classes that `class` inherits from, directly or
    /// not, in the order of the search; each class is searched once at most.
    pub fn get_all_inherited<'a>(class: &'a Class, id: &str, global_table: &'a SymbolTable) -> (r: Vec<
        &'a SymbolTableEntry,
    >)
        ensures
            referred(r@) == inherited(global_table.values@, *class, id@),
    {
        let ghost g = global_table.values@;
        let ghost list = texts(class.inheritance_list@);
        let mut result: Vec<&SymbolTableEntry> = Vec::new();
        let mut visited: Vec<String> = Vec::new();
        visited.push(class.id.clone());
        assert(texts(visited@) =~= seq![class.id@]);
        assert(referred(result@) =~= Seq::<SymbolTableEntry>::empty());
        let mut i: usize = 0;
        while i < class.inheritance_list.len()
            invariant
                i <= class.inheritance_list.len(),
                g == global_table.values@,
                list == texts(class.inheritance_list@),
                inherited_top(g, list, i as int, id@, referred(result@), texts(visited@)) == inherited(
                    g,
                    *class,
                    id@,
                ),
            decreases class.inheritance_list.len() - i,
        {
            match global_table.get(class.inheritance_list[i].as_str()) {
                Some(SymbolTableEntry::Class(inherited_class)) => {
                    assert(class_named(g, list[i as int]) == Some(*inherited_class));
                    if !contains_text(&visited, inherited_class.id.as_str()) {
                        proof {
                            lemma_class_named(g, list[i as int]);
                        }
                        let ghost before = referred(result@);
                        let mut more = inherited_class.symbol_table.get_all_inherited_aux(
                            inherited_class,
                            id,
                            global_table,
                            &mut visited,
                        );
                        let ghost found = referred(more@);
                        result.append(&mut more);
                        assert(referred(result@) =~= before + found);
                    }
                },
                _ => {},
            }
            i += 1;
        }
        result
    }

    /// The inheritance search for entries named `id` from `class`, a class of the global
    /// table not visited yet, with the names visited so far in `visited`.
    fn get_all_inherited_aux<'a>(
        &'a self,
        class: &'a Class,
        id: &str,
        global_table: &'a SymbolTable,
        visited: &mut Vec<String>,
    ) -> (r: Vec<&'a SymbolTableEntry>)
        requires
            class_named(global_table.values@, class.id@) is Some,
            !texts(old(visited)@).contains(class.id@),
        ensures
            (referred(r@), texts(final(visited)@)) == inherited_from(
                global_table.values@,
                *class,
                id@,
                texts(old(visited)@),
            ),
            included(texts(old(visited)@), texts(final(visited)@)),
        decreases unvisited(global_table.values@, texts(old(visited)@)),
    {
        let ghost g = global_table.values@;
        let ghost list = texts(class.inheritance_list@);
        let ghost v0 = texts(visited@);
        let mut result = class.symbol_table.get_all(id);
        visited.push(class.id.clone());
        assert(texts(visited@) =~= v0.push(class.id@));
        proof {
            lemma_included_push(v0, class.id@);
        }
        let mut i: usize = 0;
        while i < class.inheritance_list.len()
            invariant
                i <= class.inheritance_list.len(),
                g == global_table.values@,
                list == texts(class.inheritance_list@),
                class_named(g, class.id@) is Some,
                v0 == texts(old(visited)@),
                !v0.contains(class.id@),
                included(v0.push(class.id@), texts(visited@)),
                included(v0, v0.push(class.id@)),
                v0.push(class.id@).contains(class.id@),
                inherited_over(g, list, i as int, id@, referred(result@), texts(visited@), v0, class.id@)
                    == inherited_from(g, *class, id@, v0),
            decreases class.inheritance_list.len() - i,
        {
            let ghost before_visited = texts(visited@);
            match global_table.get(class.inheritance_list[i].as_str()) {
                Some(SymbolTableEntry::Class(inherited_class)) => {
                    assert(class_named(g, list[i as int]) == Some(*inherited_class));
                    if !contains_text(visited, inherited_class.id.as_str()) {
                        proof {
                            lemma_included_trans(v0, v0.push(class.id@), before_visited);
                        }
                        assert(moved_past(v0, before_visited, class.id@));
                        proof {
                            lemma_class_named(g, list[i as int]);
                            lemma_class_named(g, class.id@);
                            lemma_unvisited_strict(g, v0, before_visited, first_index(g, class.id@)->0);
                        }
                        let ghost before = referred(result@);
                        let mut more = inherited_class.symbol_table.get_all_inherited_aux(
                            inherited_class,
                            id,
                            global_table,
                            visited,
                        );
                        let ghost found = referred(more@);
                        result.append(&mut more);
                        assert(referred(result@) =~= before + found);
                        proof {
                            lemma_included_trans(v0.push(class.id@), before_visited, texts(visited@));
                        }
                    }
                },
                _ => {},
            }
            i += 1;
        }
        proof {
            lemma_included_trans(v0, v0.push(class.id@), texts(visited@));
        }
        result
    }
}

/// `cycle_over` holds from position `i` where it holds at some position `j` from `i` on.
proof fn lemma_cycle_over_at(g: Seq<SymbolTableEntry>, list: Seq<Seq<char>>, i: int, j: int, path: Seq<Seq<char>>)
    requires
        0 <= i <= j < list.len(),
        path.contains(list[j]) || (class_named(g, list[j]) matches Some(c) && cycle_reachable(
            g,
            inherited_names(c.symbol_table.values@),
            path.push(list[j]),
        )),
    ensures
        cycle_over(g, list, i, path),
    decreases j - i,
{
    if i < j {
        lemma_cycle_over_at(g, list, i + 1, j, path);
    }
}

/// A class that lists its own name among those it inherits from has cyclic inheritance.
pub proof fn law_self_inheritance_is_cyclic(g: Seq<SymbolTableEntry>, c: Class)
    requires
        class_named(g, c.id@) == Some(c),
        inherited_names(c.symbol_table.values@).contains(c.id@),
    ensures
        cycle_reachable(g, inherited_names(c.symbol_table.values@), Seq::empty()),
{
    let list = inherited_names(c.symbol_table.values@);
    let k = choose|k: int| 0 <= k < list.len() && list[k] == c.id@;
    let path = Seq::<Seq<char>>::empty().push(c.id@);
    assert(path.contains(list[k])) by {
        assert(path[0] == list[k]);
    }
    lemma_cycle_over_at(g, list, 0, k, path);
    lemma_cycle_over_at(g, list, 0, k, Seq::empty());
}

/// Every entry of `s` has the identifier `id`.
pub open spec fn all_named(s: Seq<SymbolTableEntry>, id: Seq<char>) -> bool {
    forall|k: int| 0 <= k < s.len() ==> has_id(#[trigger] s[k], id)
}

/// Joining lists of entries that all have an identifier gives such a list.
proof fn lemma_all_named_concat(a: Seq<SymbolTableEntry>, b: Seq<SymbolTableEntry>, id: Seq<char>)
    requires
        all_named(a, id),
        all_named(b, id),
    ensures
        all_named(a + b, id),
{
    assert forall|k: int| 0 <= k < (a + b).len() implies has_id(#[trigger] (a + b)[k], id) by {
        if k < a.len() {
            assert((a + b)[k] == a[k]);
        } else {
            assert((a + b)[k] == b[k - a.len()]);
        }
    }
}

/// The inheritance search from a class finds only entries with the identifier.
proof fn lemma_inherited_from_named(g: Seq<SymbolTableEntry>, c: Class, id: Seq<char>, visited: Seq<Seq<char>>)
    ensures
        all_named(inherited_from(g, c, id, visited).0, id),
    decreases unvisited(g, visited), 1nat, 0nat,
{
    crate::symbol_table::symbol_table::law_lookup_first_of_all(c.symbol_table.values@, id);
    lemma_inherited_over_named(
        g,
        texts(c.inheritance_list@),
        0,
        id,
        all_with_id(c.symbol_table.values@, id),
        visited.push(c.id@),
        visited,
        c.id@,
    );
}

/// The inheritance search over a list adds only entries with the identifier.
proof fn lemma_inherited_over_named(
    g: Seq<SymbolTableEntry>,
    list: Seq<Seq<char>>,
    i: int,
    id: Seq<char>,
    found: Seq<SymbolTableEntry>,
    visited: Seq<Seq<char>>,
    entry: Seq<Seq<char>>,
    own: Seq<char>,
)
    requires
        all_named(found, id),
    ensures
        all_named(inherited_over(g, list, i, id, found, visited, entry, own).0, id),
    decreases unvisited(g, entry), 0nat, list.len() - i,
{
    if 0 <= i < list.len() {
        match class_named(g, list[i]) {
            Some(c) => {
                if visited.contains(c.id@) {
                    lemma_inherited_over_named(g, list, i + 1, id, found, visited, entry, own);
                } else if moved_past(entry, visited, own) && class_named(g, own) is Some {
                    lemma_class_named(g, own);
                    lemma_unvisited_strict(g, entry, visited, first_index(g, own)->0);
                    lemma_inherited_from_named(g, c, id, visited);
                    let (more, after) = inherited_from(g, c, id, visited);
                    lemma_all_named_concat(found, more, id);
                    lemma_inherited_over_named(g, list, i + 1, id, found + more, after, entry, own);
                }
            },
            None => {
                lemma_inherited_over_named(g, list, i + 1, id, found, visited, entry, own);
            },
        }
    }
}

/// The search over the names a class inherits from adds only entries with the
/// identifier.
proof fn lemma_inherited_top_named(
    g: Seq<SymbolTableEntry>,
    list: Seq<Seq<char>>,
    i: int,
    id: Seq<char>,
    found: Seq<SymbolTableEntry>,
    visited: Seq<Seq<char>>,
)
    requires
        all_named(found, id),
    ensures
        all_named(inherited_top(g, list, i, id, found, visited), id),
    decreases list.len() - i,
{
    if 0 <= i < list.len() {
        match class_named(g, list[i]) {
            Some(c) => {
                if visited.contains(c.id@) {
                    lemma_inherited_top_named(g, list, i + 1, id, found, visited);
                } else {
                    lemma_inherited_from_named(g, c, id, visited);
                    let (more, after) = inherited_from(g, c, id, visited);
                    lemma_all_named_concat(found, more, id);
                    lemma_inherited_top_named(g, list, i + 1, id, found + more, after);
                }
            },
            None => {
                lemma_inherited_top_named(g, list, i + 1, id, found, visited);
            },
        }
    }
}

/// Every entry that the inheritance search for `id` finds has the identifier `id`.
pub proof fn law_inherited_entries_named(g: Seq<SymbolTableEntry>, class: Class, id: Seq<char>)
    ensures
        all_named(inherited(g, class, id), id),
{
    lemma_inherited_top_named(g, texts(class.inheritance_list@), 0, id, Seq::empty(), seq![class.id@]);
}

} // verus!
