//! The predictive (LL(1)) parse table of a grammar.
use crate::first::{find_key, ProductionMap};
use crate::grammar::{grammar_follow, model_without, Grammar, GrammarModel};
use crate::grammar_spec::{
    distinct_keys, has_key, key_index, lemma_key_index, options_of, sentence_first_defined,
    sentence_first_set,
};
use crate::symbol::{SpecSymbol, Symbol};
use crate::symbol_set::set_of;
use vstd::prelude::*;

verus! {

/// One row of a parse table: a lookahead symbol and the option to use.
pub type TableRow = Vec<(Symbol, usize)>;

/// For each non terminal, the option of its production to use on each lookahead.
pub struct ParseTable {
    table: Vec<(Symbol, TableRow)>,
}

/// The map that a row holds.
pub open spec fn row_map(row: Seq<(SpecSymbol, usize)>) -> Map<SpecSymbol, usize> {
    Map::new(
        |t: SpecSymbol| exists|k: int| 0 <= k < row.len() && row[k].0 == t,
        |t: SpecSymbol| row[choose|k: int| 0 <= k < row.len() && row[k].0 == t].1,
    )
}

/// No lookahead occurs twice in the row.
pub open spec fn row_distinct(row: Seq<(SpecSymbol, usize)>) -> bool {
    forall|a: int, b: int| 0 <= a < row.len() && 0 <= b < row.len() && a != b ==> row[a].0 != row[b].0
}

/// Option `i` of `x` is predicted on the lookahead `t`: `t` is a terminal or the end
/// of the stream, and it is in the first set of the option, or the option's first set
/// holds the empty sentence and `t` is in the follow set of `x`.
pub open spec fn predicts(m: GrammarModel, x: SpecSymbol, i: int, t: SpecSymbol) -> bool {
    let f = sentence_first_set(model_without(m), options_of(m.productions, x)[i]);
    &&& (t is Terminal || t is Eos)
    &&& (f.contains(t) || (f.contains(SpecSymbol::Epsilon) && grammar_follow(m, x).contains(t)))
}

/// The row of `x` predicts, for each lookahead, the last option that is predicted on it.
pub open spec fn row_of(m: GrammarModel, x: SpecSymbol, row: Map<SpecSymbol, usize>) -> bool {
    let n = options_of(m.productions, x).len();
    &&& forall|t: SpecSymbol| row.dom().contains(t) <==> exists|i: int| 0 <= i < n && #[trigger] predicts(m, x, i, t)
    &&& forall|t: SpecSymbol|
        #[trigger] row.dom().contains(t) ==> {
            &&& row[t] < n
            &&& predicts(m, x, row[t] as int, t)
            &&& forall|w: int| row[t] < w < n ==> !#[trigger] predicts(m, x, w, t)
        }
}

/// What `ParseTable::from_grammar` needs: every option's first set can be computed, and
/// the follow set of every left-hand side with an option whose first set holds the
/// empty sentence.
pub open spec fn table_computable(m: GrammarModel) -> bool {
    forall|i: int, j: int|
        0 <= i < m.productions.len() && 0 <= j < m.productions[i].1.len() ==> {
            &&& sentence_first_defined(model_without(m), #[trigger] m.productions[i].1[j])
            &&& sentence_first_set(model_without(m), m.productions[i].1[j]).contains(SpecSymbol::Epsilon)
                ==> has_key(model_without(m), m.productions[i].0)
        }
}

/// Every option that the table `t` gives is an option of the grammar `m`.
pub open spec fn table_fits(m: GrammarModel, t: ParseTable) -> bool {
    forall|x: SpecSymbol, la: SpecSymbol| #[trigger] t.entry(x, la) is Some ==> has_key(m.productions, x) && t.entry(
        x,
        la,
    )->0 < options_of(m.productions, x).len()
}

/// The position of `t` in the row, if it is there.
fn row_find(row: &TableRow, t: &Symbol) -> (r: Option<usize>)
    ensures
        match r {
            Some(k) => k < row.len() && row.deep_view()[k as int].0 == t@,
            None => forall|k: int| 0 <= k < row.len() ==> row.deep_view()[k].0 != t@,
        },
{
    let mut k: usize = 0;
    while k < row.len()
        invariant
            k <= row.len(),
            forall|j: int| 0 <= j < k ==> row.deep_view()[j].0 != t@,
        decreases row.len() - k,
    {
        if row[k].0 == *t {
            return Some(k);
        }
        k += 1;
    }
    None
}

proof fn lemma_row_map_at(row: Seq<(SpecSymbol, usize)>, k: int)
    requires
        row_distinct(row),
        0 <= k < row.len(),
    ensures
        row_map(row).dom().contains(row[k].0),
        row_map(row)[row[k].0] == row[k].1,
{
    assert(row_map(row).dom().contains(row[k].0));
}

/// Sets the option for lookahead `t` to `index`.
fn row_insert(row: &mut TableRow, t: Symbol, index: usize)
    requires
        row_distinct(old(row).deep_view()),
    ensures
        row_distinct(final(row).deep_view()),
        row_map(final(row).deep_view()) == row_map(old(row).deep_view()).insert(t@, index),
{
    let ghost before = row.deep_view();
    match row_find(row, &t) {
        Some(k) => {
            row.set(k, (t, index));
            assert(row.deep_view() =~= before.update(k as int, (before[k as int].0, index)));
            assert forall|x: SpecSymbol| row_map(row.deep_view()).dom().contains(x) <==> row_map(before).insert(
                before[k as int].0,
                index,
            ).dom().contains(x) by {
                if row_map(before).dom().contains(x) {
                    let j = choose|j: int| 0 <= j < before.len() && before[j].0 == x;
                    assert(row.deep_view()[j].0 == x);
                }
                if row_map(row.deep_view()).dom().contains(x) {
                    let j = choose|j: int| 0 <= j < row.deep_view().len() && row.deep_view()[j].0 == x;
                    assert(before[j].0 == x);
                }
            }
            assert forall|x: SpecSymbol| #[trigger] row_map(row.deep_view()).dom().contains(x) implies row_map(
                row.deep_view(),
            )[x] == row_map(before).insert(before[k as int].0, index)[x] by {
                let j = choose|j: int| 0 <= j < row.deep_view().len() && row.deep_view()[j].0 == x;
                lemma_row_map_at(row.deep_view(), j);
                if j != k {
                    lemma_row_map_at(before, j);
                }
            }
            assert(row_map(row.deep_view()) =~= row_map(before).insert(t@, index));
        },
        None => {
            let ghost tv = t@;
            row.push((t, index));
            assert(row.deep_view() =~= before.push((tv, index)));
            assert forall|x: SpecSymbol| row_map(row.deep_view()).dom().contains(x) <==> row_map(before).insert(
                tv,
                index,
            ).dom().contains(x) by {
                if row_map(before).dom().contains(x) {
                    let j = choose|j: int| 0 <= j < before.len() && before[j].0 == x;
                    assert(row.deep_view()[j].0 == x);
                }
                if x == tv {
                    assert(row.deep_view()[before.len() as int].0 == x);
                }
                if row_map(row.deep_view()).dom().contains(x) {
                    let j = choose|j: int| 0 <= j < row.deep_view().len() && row.deep_view()[j].0 == x;
                    if j < before.len() {
                        assert(before[j].0 == x);
                    }
                }
            }
            assert forall|x: SpecSymbol| #[trigger] row_map(row.deep_view()).dom().contains(x) implies row_map(
                row.deep_view(),
            )[x] == row_map(before).insert(tv, index)[x] by {
                let j = choose|j: int| 0 <= j < row.deep_view().len() && row.deep_view()[j].0 == x;
                lemma_row_map_at(row.deep_view(), j);
                if j < before.len() {
                    lemma_row_map_at(before, j);
                }
            }
            assert(row_map(row.deep_view()) =~= row_map(before).insert(tv, index));
        },
    }
}

/// The lookaheads among `s`, each mapped to `index`.
spec fn lookaheads_to(s: Seq<SpecSymbol>, index: usize) -> Map<SpecSymbol, usize> {
    Map::new(|t: SpecSymbol| s.contains(t) && (t is Terminal || t is Eos), |t: SpecSymbol| index)
}

proof fn lemma_lookaheads_push(b: Map<SpecSymbol, usize>, s: Seq<SpecSymbol>, e: SpecSymbol, index: usize)
    ensures
        b.union_prefer_right(lookaheads_to(s.push(e), index)) == if e is Terminal || e is Eos {
            b.union_prefer_right(lookaheads_to(s, index)).insert(e, index)
        } else {
            b.union_prefer_right(lookaheads_to(s, index))
        },
{
    crate::symbol_set::lemma_push_to_set(s, e);
    assert forall|t: SpecSymbol| s.push(e).contains(t) <==> (s.contains(t) || t == e) by {
        assert(set_of(s.push(e)).contains(t) == s.push(e).contains(t));
        assert(set_of(s).contains(t) == s.contains(t));
    }
    if e is Terminal || e is Eos {
        let l = b.union_prefer_right(lookaheads_to(s.push(e), index));
        let r = b.union_prefer_right(lookaheads_to(s, index)).insert(e, index);
        assert forall|t: SpecSymbol| l.dom().contains(t) <==> r.dom().contains(t) by {
            assert(lookaheads_to(s.push(e), index).dom().contains(t) == (s.push(e).contains(t) && (t is Terminal || t is Eos)));
            assert(lookaheads_to(s, index).dom().contains(t) == (s.contains(t) && (t is Terminal || t is Eos)));
            assert(s.push(e).contains(t) == (s.contains(t) || t == e));
        }
        assert forall|t: SpecSymbol| #[trigger] l.dom().contains(t) implies l[t] == r[t] by {
            if t != e {
                if lookaheads_to(s, index).dom().contains(t) {
                } else {
                    assert(!lookaheads_to(s.push(e), index).dom().contains(t));
                }
            }
        }
        assert(b.union_prefer_right(lookaheads_to(s.push(e), index)) =~= b.union_prefer_right(
            lookaheads_to(s, index),
        ).insert(e, index));
    } else {
        assert(b.union_prefer_right(lookaheads_to(s.push(e), index)) =~= b.union_prefer_right(
            lookaheads_to(s, index),
        ));
    }
}

/// The row of the production at position `pi` of the grammar.
fn build_row(grammar: &Grammar, pi: usize) -> (row: TableRow)
    requires
        pi < grammar@.productions.len(),
        table_computable(grammar@),
        distinct_keys(grammar@.productions),
    ensures
        row_distinct(row.deep_view()),
        row_of(grammar@, grammar@.productions[pi as int].0, row_map(row.deep_view())),
{
    let ghost m = grammar@;
    let productions = grammar.productions();
    let symbol = &productions[pi].0;
    let options = &productions[pi].1;
    let ghost x = m.productions[pi as int].0;
    proof {
        lemma_key_index(m.productions, pi as int);
    }
    let ghost n = options_of(m.productions, x).len();
    let mut row: TableRow = Vec::new();
    let mut index: usize = 0;
    assert(row_map(row.deep_view()) =~= Map::empty());
    while index < options.len()
        invariant
            m == grammar@,
            productions.deep_view() == m.productions,
            pi < m.productions.len(),
            x == m.productions[pi as int].0,
            symbol@ == x,
            options.deep_view() == m.productions[pi as int].1,
            options_of(m.productions, x) == m.productions[pi as int].1,
            n == options.len(),
            table_computable(m),
            index <= options.len(),
            row_distinct(row.deep_view()),
            forall|t: SpecSymbol| row_map(row.deep_view()).dom().contains(t) <==> exists|i: int|
                0 <= i < index && #[trigger] predicts(m, x, i, t),
            forall|t: SpecSymbol|
                #[trigger] row_map(row.deep_view()).dom().contains(t) ==> {
                    &&& row_map(row.deep_view())[t] < index
                    &&& predicts(m, x, row_map(row.deep_view())[t] as int, t)
                    &&& forall|w: int| row_map(row.deep_view())[t] < w < index ==> !#[trigger] predicts(m, x, w, t)
                },
        decreases options.len() - index,
    {
        let ghost f = sentence_first_set(model_without(m), options_of(m.productions, x)[index as int]);
        assert(sentence_first_defined(model_without(m), m.productions[pi as int].1[index as int]));
        let first_set = grammar.sentence_first(&options[index]);
        let ghost before = row_map(row.deep_view());
        let mut k: usize = 0;
        // Lookaheads handled by this option so far.
        while k < first_set.len()
            invariant
                m == grammar@,
                x == m.productions[pi as int].0,
                set_of(first_set.deep_view()) == f,
                f == sentence_first_set(model_without(m), options_of(m.productions, x)[index as int]),
                row_distinct(row.deep_view()),
                k <= first_set.len(),
                row_map(row.deep_view()) == before.union_prefer_right(
                    Map::new(
                        |t: SpecSymbol| first_set.deep_view().take(k as int).contains(t) && (t is Terminal || t is Eos),
                        |t: SpecSymbol| index,
                    ),
                ),
            decreases first_set.len() - k,
        {
            let ghost r0 = row_map(row.deep_view());
            if first_set[k].is_terminal_or_eos() {
                row_insert(&mut row, first_set[k].clone(), index);
            }
            assert(first_set.deep_view().take(k + 1) =~= first_set.deep_view().take(k as int).push(
                first_set.deep_view()[k as int],
            ));
            proof {
                lemma_lookaheads_push(before, first_set.deep_view().take(k as int), first_set.deep_view()[k as int], index);
                assert(lookaheads_to(first_set.deep_view().take(k as int), index) =~= Map::new(
                    |t: SpecSymbol| first_set.deep_view().take(k as int).contains(t) && (t is Terminal || t is Eos),
                    |t: SpecSymbol| index,
                ));
                assert(lookaheads_to(first_set.deep_view().take(k + 1), index) =~= Map::new(
                    |t: SpecSymbol| first_set.deep_view().take(k + 1).contains(t) && (t is Terminal || t is Eos),
                    |t: SpecSymbol| index,
                ));
            }
            k += 1;
        }
        assert(first_set.deep_view().take(k as int) =~= first_set.deep_view());
        let ghost after_first = row_map(row.deep_view());
        let has_epsilon = crate::symbol_set::contains_symbol(&first_set, &Symbol::Epsilon);
        if has_epsilon {
            assert(has_key(model_without(m), x));
            let follow = grammar.follow(symbol);
            let mut k2: usize = 0;
            while k2 < follow.len()
                invariant
                    m == grammar@,
                    x == m.productions[pi as int].0,
                    set_of(follow.deep_view()) == grammar_follow(m, x),
                    row_distinct(row.deep_view()),
                    k2 <= follow.len(),
                    row_map(row.deep_view()) == after_first.union_prefer_right(
                        Map::new(
                            |t: SpecSymbol| follow.deep_view().take(k2 as int).contains(t) && (t is Terminal || t is Eos),
                            |t: SpecSymbol| index,
                        ),
                    ),
                decreases follow.len() - k2,
            {
                if follow[k2].is_terminal_or_eos() {
                    row_insert(&mut row, follow[k2].clone(), index);
                }
                assert(follow.deep_view().take(k2 + 1) =~= follow.deep_view().take(k2 as int).push(
                    follow.deep_view()[k2 as int],
                ));
                proof {
                    lemma_lookaheads_push(after_first, follow.deep_view().take(k2 as int), follow.deep_view()[k2 as int], index);
                    assert(lookaheads_to(follow.deep_view().take(k2 as int), index) =~= Map::new(
                        |t: SpecSymbol| follow.deep_view().take(k2 as int).contains(t) && (t is Terminal || t is Eos),
                        |t: SpecSymbol| index,
                    ));
                    assert(lookaheads_to(follow.deep_view().take(k2 + 1), index) =~= Map::new(
                        |t: SpecSymbol| follow.deep_view().take(k2 + 1).contains(t) && (t is Terminal || t is Eos),
                        |t: SpecSymbol| index,
                    ));
                }
                k2 += 1;
            }
            assert(follow.deep_view().take(k2 as int) =~= follow.deep_view());
        }
        proof {
            let rm = row_map(row.deep_view());
            assert forall|t: SpecSymbol| rm.dom().contains(t) <==> (before.dom().contains(t) || predicts(m, x, index as int, t)) by {
            }
            assert forall|t: SpecSymbol| predicts(m, x, index as int, t) implies rm.dom().contains(t) && rm[t] == index by {
            }
            assert forall|t: SpecSymbol| rm.dom().contains(t) && !predicts(m, x, index as int, t) implies rm[t] == before[t] by {
            }
            assert forall|t: SpecSymbol| rm.dom().contains(t) <==> exists|i: int|
                0 <= i < index + 1 && #[trigger] predicts(m, x, i, t) by {
                if rm.dom().contains(t) && !predicts(m, x, index as int, t) {
                    assert(before.dom().contains(t));
                    let i = choose|i: int| 0 <= i < index && #[trigger] predicts(m, x, i, t);
                }
                if exists|i: int| 0 <= i < index + 1 && #[trigger] predicts(m, x, i, t) {
                    let i = choose|i: int| 0 <= i < index + 1 && #[trigger] predicts(m, x, i, t);
                    if i < index {
                        assert(before.dom().contains(t));
                    }
                }
            }
        }
        index += 1;
    }
    row
}

impl ParseTable {
    #[verifier::type_invariant]
    spec fn wf(self) -> bool {
        &&& forall|a: int, b: int|
            0 <= a < self.table.len() && 0 <= b < self.table.len() && a != b ==> self.table.deep_view()[a].0
                != self.table.deep_view()[b].0
        &&& forall|a: int| 0 <= a < self.table.len() ==> row_distinct(#[trigger] self.table.deep_view()[a].1)
    }

    /// The option that the table gives for `non_terminal` on `terminal`, if any.
    pub closed spec fn entry(&self, non_terminal: SpecSymbol, terminal: SpecSymbol) -> Option<usize> {
        let t = self.table.deep_view();
        if exists|a: int| 0 <= a < t.len() && t[a].0 == non_terminal {
            let a = choose|a: int| 0 <= a < t.len() && t[a].0 == non_terminal;
            let row = row_map(t[a].1);
            if row.dom().contains(terminal) {
                Some(row[terminal])
            } else {
                None
            }
        } else {
            None
        }
    }

    /// Whether the table has a row for `non_terminal`.
    pub closed spec fn has_row(&self, non_terminal: SpecSymbol) -> bool {
        exists|a: int| 0 <= a < self.table.len() && self.table.deep_view()[a].0 == non_terminal
    }

    /// The row of `non_terminal`, as a map.
    pub closed spec fn row(&self, non_terminal: SpecSymbol) -> Map<SpecSymbol, usize> {
        let t = self.table.deep_view();
        row_map(t[choose|a: int| 0 <= a < t.len() && t[a].0 == non_terminal].1)
    }

    /// An empty table.
    pub fn new() -> (r: ParseTable)
        ensures
            forall|x: SpecSymbol| !r.has_row(x),
            forall|x: SpecSymbol, t: SpecSymbol| r.entry(x, t) is None,
    {
        ParseTable { table: Vec::new() }
    }

    /// The parse table of `grammar`: each left-hand side has a row that maps each
    /// lookahead to the last option predicted on it.
    pub fn from_grammar(grammar: &Grammar) -> (r: ParseTable)
        requires
            table_computable(grammar@),
        ensures
            built_from(grammar@, r),
            forall|x: SpecSymbol| r.has_row(x) <==> has_key(grammar@.productions, x),
            forall|x: SpecSymbol| #[trigger] has_key(grammar@.productions, x) ==> row_of(grammar@, x, r.row(x)),
            forall|x: SpecSymbol, t: SpecSymbol| #[trigger] r.entry(x, t) == if r.has_row(x) && r.row(x).dom().contains(t) {
                Some(r.row(x)[t])
            } else {
                None
            },
            table_fits(grammar@, r),
    {
        let ghost m = grammar@;
        let productions = grammar.productions();
        let mut table: Vec<(Symbol, TableRow)> = Vec::new();
        let mut i: usize = 0;
        while i < productions.len()
            invariant
                m == grammar@,
                productions.deep_view() == m.productions,
                distinct_keys(m.productions),
                table_computable(m),
                i <= productions.len(),
                table.len() == i,
                forall|a: int| 0 <= a < i ==> #[trigger] table.deep_view()[a].0 == m.productions[a].0,
                forall|a: int| 0 <= a < i ==> row_distinct(#[trigger] table.deep_view()[a].1),
                forall|a: int| 0 <= a < i ==> row_of(m, m.productions[a].0, row_map(#[trigger] table.deep_view()[a].1)),
            decreases productions.len() - i,
        {
            let row = build_row(grammar, i);
            let ghost before = table.deep_view();
            table.push((productions[i].0.clone(), row));
            assert(table.deep_view() =~= before.push(table.deep_view()[i as int]));
            i += 1;
        }
        let ghost td = table.deep_view();
        let r = ParseTable { table };
        proof {
            let t = r.table.deep_view();
            assert(t == td);
            assert forall|x: SpecSymbol| r.has_row(x) <==> has_key(m.productions, x) by {
                if has_key(m.productions, x) {
                    let a = choose|a: int| 0 <= a < m.productions.len() && m.productions[a].0 == x;
                    assert(t[a].0 == x);
                }
            }
            assert forall|x: SpecSymbol| #[trigger] has_key(m.productions, x) implies row_of(m, x, r.row(x)) by {
                let a0 = choose|a: int| 0 <= a < m.productions.len() && m.productions[a].0 == x;
                assert(td[a0].0 == m.productions[a0].0);
                let c = choose|a: int| 0 <= a < t.len() && t[a].0 == x;
                assert(td[c].0 == m.productions[c].0);
                assert(c == a0);
                assert(row_of(m, m.productions[a0].0, row_map(td[a0].1)));
            }
            assert forall|x: SpecSymbol, la: SpecSymbol| #[trigger] r.entry(x, la) is Some implies has_key(
                m.productions,
                x,
            ) && r.entry(x, la)->0 < options_of(m.productions, x).len() by {
                assert(r.has_row(x));
                assert(row_of(m, x, r.row(x)));
                assert(r.row(x).dom().contains(la));
            }
        }
        r
    }

    /// The parse table of `grammar`, as `from_grammar` makes it; `None` where the first
    /// set of an option cannot be computed, or holds the empty sentence while its
    /// left-hand side has no follow set.
    pub fn try_from_grammar(grammar: &Grammar) -> (r: Option<ParseTable>)
        ensures
            match r {
                Some(t) => {
                    &&& table_computable(grammar@)
                    &&& forall|x: SpecSymbol| t.has_row(x) <==> has_key(grammar@.productions, x)
                    &&& forall|x: SpecSymbol| #[trigger] has_key(grammar@.productions, x) ==> row_of(grammar@, x, t.row(x))
                    &&& forall|x: SpecSymbol, la: SpecSymbol| #[trigger] t.entry(x, la) == if t.has_row(x) && t.row(x).dom().contains(la) {
                        Some(t.row(x)[la])
                    } else {
                        None
                    }
                    &&& table_fits(grammar@, t)
                },
                None => !table_computable(grammar@),
            },
    {
        let ghost m = grammar@;
        let productions = grammar.productions();
        let mut i: usize = 0;
        while i < productions.len()
            invariant
                m == grammar@,
                productions.deep_view() == m.productions,
                i <= productions.len(),
                forall|a: int, b: int|
                    0 <= a < i && 0 <= b < m.productions[a].1.len() ==> {
                        &&& sentence_first_defined(model_without(m), #[trigger] m.productions[a].1[b])
                        &&& sentence_first_set(model_without(m), m.productions[a].1[b]).contains(SpecSymbol::Epsilon)
                            ==> has_key(model_without(m), m.productions[a].0)
                    },
            decreases productions.len() - i,
        {
            let options = &productions[i].1;
            let mut j: usize = 0;
            while j < options.len()
                invariant
                    m == grammar@,
                    productions.deep_view() == m.productions,
                    i < productions.len(),
                    options.deep_view() == m.productions[i as int].1,
                    j <= options.len(),
                    forall|a: int, b: int|
                        0 <= a < i && 0 <= b < m.productions[a].1.len() ==> {
                            &&& sentence_first_defined(model_without(m), #[trigger] m.productions[a].1[b])
                            &&& sentence_first_set(model_without(m), m.productions[a].1[b]).contains(SpecSymbol::Epsilon)
                                ==> has_key(model_without(m), m.productions[a].0)
                        },
                    forall|b: int|
                        0 <= b < j ==> {
                            &&& sentence_first_defined(model_without(m), #[trigger] m.productions[i as int].1[b])
                            &&& sentence_first_set(model_without(m), m.productions[i as int].1[b]).contains(
                                SpecSymbol::Epsilon,
                            ) ==> has_key(model_without(m), m.productions[i as int].0)
                        },
                decreases options.len() - j,
            {
                assert(options.deep_view()[j as int] == m.productions[i as int].1[j as int]);
                match grammar.sentence_first_checked(&options[j]) {
                    Some(f) => {
                        if crate::symbol_set::contains_symbol(&f, &Symbol::Epsilon) && !grammar.has_follow(&productions[i].0) {
                            return None;
                        }
                    },
                    None => {
                        return None;
                    },
                }
                j += 1;
            }
            i += 1;
        }
        Some(ParseTable::from_grammar(grammar))
    }

    /// Whether the table has an option for `non_terminal` on `terminal`.
    pub fn contains(&self, non_terminal: &Symbol, terminal: &Symbol) -> (r: bool)
        ensures
            r == (self.entry(non_terminal@, terminal@) is Some),
    {
        proof {
            use_type_invariant(self);
        }
        match self.find_row(non_terminal) {
            Some(a) => {
                let found = row_find(&self.table[a].1, terminal);
                proof {
                    let t = self.table.deep_view();
                    let c = choose|c: int| 0 <= c < t.len() && t[c].0 == non_terminal@;
                    assert(c == a);
                    match found {
                        Some(k) => {
                            lemma_row_map_at(t[a as int].1, k as int);
                        },
                        None => {
                            if row_map(t[a as int].1).dom().contains(terminal@) {
                                let k = choose|k: int| 0 <= k < t[a as int].1.len() && t[a as int].1[k].0 == terminal@;
                            }
                        },
                    }
                }
                found.is_some()
            },
            None => false,
        }
    }

    /// The option that the table gives for `non_terminal` on `terminal`.
    pub fn get(&self, non_terminal: &Symbol, terminal: &Symbol) -> (r: usize)
        requires
            self.entry(non_terminal@, terminal@) is Some,
        ensures
            Some(r) == self.entry(non_terminal@, terminal@),
    {
        proof {
            use_type_invariant(self);
        }
        let a = self.find_row(non_terminal).unwrap();
        proof {
            let t = self.table.deep_view();
            let c = choose|c: int| 0 <= c < t.len() && t[c].0 == non_terminal@;
            assert(c == a);
            let k = choose|k: int| 0 <= k < t[a as int].1.len() && t[a as int].1[k].0 == terminal@;
        }
        let k = row_find(&self.table[a].1, terminal).unwrap();
        proof {
            lemma_row_map_at(self.table.deep_view()[a as int].1, k as int);
        }
        self.table[a].1[k].1
    }

    /// The lookaheads on which the table has an option for `non_terminal`, each once:
    /// what a parser expects when that symbol is on top of its stack.
    pub fn expected(&self, non_terminal: &Symbol) -> (r: Vec<Symbol>)
        ensures
            r.deep_view().no_duplicates(),
            forall|t: SpecSymbol| r.deep_view().contains(t) <==> (self.entry(non_terminal@, t) is Some),
    {
        proof {
            use_type_invariant(self);
        }
        let mut r: Vec<Symbol> = Vec::new();
        match self.find_row(non_terminal) {
            Some(a) => {
                let ghost t = self.table.deep_view();
                let ghost row = t[a as int].1;
                proof {
                    let c = choose|c: int| 0 <= c < t.len() && t[c].0 == non_terminal@;
                    assert(c == a);
                }
                let mut k: usize = 0;
                while k < self.table[a].1.len()
                    invariant
                        a < self.table.len(),
                        t == self.table.deep_view(),
                        row == t[a as int].1,
                        row.len() == self.table[a as int].1.len(),
                        row_distinct(row),
                        k <= row.len(),
                        r.deep_view() == Seq::new(k as nat, |j: int| row[j].0),
                    decreases row.len() - k,
                {
                    let ghost before = r.deep_view();
                    assert(self.table@[a as int].1.deep_view() == row);
                    assert(self.table@[a as int].1@[k as int].0@ == row[k as int].0);
                    let sym = self.table[a].1[k].0.clone();
                    let ghost sv = sym@;
                    r.push(sym);
                    assert(r.deep_view() =~= before.push(sv));
                    assert(r.deep_view() =~= Seq::new((k + 1) as nat, |j: int| row[j].0));
                    k += 1;
                }
                proof {
                    let v = r.deep_view();
                    assert forall|i: int, j: int| 0 <= i < j < v.len() implies v[i] != v[j] by {
                        assert(v[i] == row[i].0 && v[j] == row[j].0);
                    }
                    assert forall|x: SpecSymbol| v.contains(x) <==> (self.entry(non_terminal@, x) is Some) by {
                        if v.contains(x) {
                            let i = choose|i: int| 0 <= i < v.len() && v[i] == x;
                            lemma_row_map_at(row, i);
                        }
                        if self.entry(non_terminal@, x) is Some {
                            let i = choose|i: int| 0 <= i < row.len() && row[i].0 == x;
                            assert(v[i] == x);
                        }
                    }
                }
            },
            None => {
                assert(r.deep_view() =~= Seq::<SpecSymbol>::empty());
            },
        }
        r
    }

    /// The rows of the table: each non terminal once, with the lookaheads of its row and
    /// their options.
    pub fn rows(&self) -> (r: &Vec<(Symbol, TableRow)>)
        ensures
            forall|x: SpecSymbol| #[trigger] self.has_row(x) <==> exists|a: int| 0 <= a < r.len() && r.deep_view()[a].0 == x,
            forall|a: int, b: int| 0 <= a < r.len() && 0 <= b < r.len() && a != b ==> r.deep_view()[a].0 != r.deep_view()[b].0,
            forall|a: int| 0 <= a < r.len() ==> #[trigger] self.row(r.deep_view()[a].0) == row_map(r.deep_view()[a].1),
            forall|a: int| 0 <= a < r.len() ==> row_distinct(#[trigger] r.deep_view()[a].1),
    {
        proof {
            use_type_invariant(self);
            let t = self.table.deep_view();
            assert forall|a: int| 0 <= a < t.len() implies #[trigger] self.row(t[a].0) == row_map(t[a].1) by {
                let c = choose|c: int| 0 <= c < t.len() && t[c].0 == t[a].0;
                assert(c == a);
            }
        }
        &self.table
    }

    /// The position of the row of `non_terminal`.
    fn find_row(&self, non_terminal: &Symbol) -> (r: Option<usize>)
        ensures
            match r {
                Some(a) => a < self.table.len() && self.table.deep_view()[a as int].0 == non_terminal@,
                None => !self.has_row(non_terminal@),
            },
    {
        let mut a: usize = 0;
        while a < self.table.len()
            invariant
                a <= self.table.len(),
                forall|j: int| 0 <= j < a ==> self.table.deep_view()[j].0 != non_terminal@,
            decreases self.table.len() - a,
        {
            if self.table[a].0 == *non_terminal {
                return Some(a);
            }
            a += 1;
        }
        None
    }
}

/// What `ParseTable::from_grammar` gives for the grammar `m`: a row for each left-hand
/// side, each the row of its symbol, and the entries that the rows hold.
pub open spec fn built_from(m: GrammarModel, t: ParseTable) -> bool {
    &&& forall|x: SpecSymbol| t.has_row(x) <==> has_key(m.productions, x)
    &&& forall|x: SpecSymbol| #[trigger] has_key(m.productions, x) ==> row_of(m, x, t.row(x))
    &&& forall|x: SpecSymbol, la: SpecSymbol| #[trigger] t.entry(x, la) == if t.has_row(x) && t.row(x).dom().contains(la) {
        Some(t.row(x)[la])
    } else {
        None
    }
}

/// A table built from a grammar has an entry for `x` on the lookahead `la` exactly where
/// `x` has a production with an option predicted on `la`; the entry is the last such
/// option.
pub proof fn law_table_predicts(m: GrammarModel, t: ParseTable, x: SpecSymbol, la: SpecSymbol)
    requires
        built_from(m, t),
    ensures
        (t.entry(x, la) is Some) <==> (has_key(m.productions, x) && exists|i: int|
            0 <= i < options_of(m.productions, x).len() && #[trigger] predicts(m, x, i, la)),
        t.entry(x, la) matches Some(k) ==> {
            &&& k < options_of(m.productions, x).len()
            &&& predicts(m, x, k as int, la)
            &&& forall|w: int| k < w < options_of(m.productions, x).len() ==> !#[trigger] predicts(m, x, w, la)
        },
{
    assert(t.entry(x, la) == if t.has_row(x) && t.row(x).dom().contains(la) {
        Some(t.row(x)[la])
    } else {
        None
    });
    if has_key(m.productions, x) {
        assert(row_of(m, x, t.row(x)));
        if t.row(x).dom().contains(la) {
            assert(t.row(x).dom().contains(la));
        }
    }
}

} // verus!
