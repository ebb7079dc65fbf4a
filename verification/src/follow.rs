//! Computation of follow sets.
use crate::first::{copy_sentence, sentence_first_checked, ProductionMap, Sentence};
use crate::grammar_spec::{
    depth_bound, distinct_keys, entries_follow, expand_loop, expand_once, follow_defined,
    follow_table, keys_of, merged_from, option_follow, options_follow, position_follow,
    positions_follow, remove_non_terminals_spec, strip_actions, table_sets,
    unexpanded_follow_spec, unexpanded_table, MAX_FOLLOW_EXPANSIONS,
};
use crate::first::strip_sentence;
use crate::symbol::{SpecSymbol, Symbol};
use crate::symbol_set::{
    computed, contains_symbol, distinct_result, insert_symbol, joined_with, lemma_push_to_set, same_set,
    set_of, union_into, union_into_except_epsilon,
};
use vstd::prelude::*;

verus! {

/// The symbols of `f` from position `k` on.
pub fn suffix(f: &Sentence, k: usize) -> (r: Sentence)
    requires
        k <= f.len(),
    ensures
        r.deep_view() == f.deep_view().skip(k as int),
{
    let mut r: Vec<Symbol> = Vec::new();
    let mut i: usize = k;
    while i < f.len()
        invariant
            k <= i <= f.len(),
            r.deep_view() == f.deep_view().subrange(k as int, i as int),
        decreases f.len() - i,
    {
        let ghost before = r.deep_view();
        let x = f[i].clone();
        r.push(x);
        assert(r.deep_view() =~= before.push(f.deep_view()[i as int]));
        assert(f.deep_view().subrange(k as int, i + 1) =~= f.deep_view().subrange(k as int, i as int).push(
            f.deep_view()[i as int],
        ));
        i += 1;
    }
    assert(f.deep_view().subrange(k as int, i as int) =~= f.deep_view().skip(k as int));
    r
}

/// What the option `f` (without semantic actions) of `x` adds, position by position, to
/// the follow set of `s`; `None` where a first set fails.
fn positions_follow_exec(p: &ProductionMap, x: &Symbol, f: &Sentence, s: &Symbol) -> (r: Option<Vec<Symbol>>)
    requires
        distinct_keys(p.deep_view()),
    ensures
        computed(r) == positions_follow(p.deep_view(), x@, f.deep_view(), 0, s@, depth_bound(p.deep_view())),
        distinct_result(r),
{
    let ghost pd = p.deep_view();
    let ghost fd = f.deep_view();
    let ghost fu = depth_bound(pd);
    let mut result: Vec<Symbol> = Vec::new();
    let mut n: usize = 0;
    assert(set_of(result.deep_view()) =~= Set::empty());
    proof {
        match positions_follow(pd, x@, fd, 0, s@, fu) {
            Some(a) => {
                assert(Set::<SpecSymbol>::empty().union(a) =~= a);
            },
            None => {},
        }
    }
    while n < f.len()
        invariant
            pd == p.deep_view(),
            fd == f.deep_view(),
            fu == depth_bound(pd),
            distinct_keys(pd),
            n <= f.len(),
            positions_follow(pd, x@, fd, 0, s@, fu) == joined_with(
                set_of(result.deep_view()),
                positions_follow(pd, x@, fd, n as int, s@, fu),
            ),
            result.deep_view().no_duplicates(),
        decreases f.len() - n,
    {
        let ghost before = set_of(result.deep_view());
        if n + 1 < f.len() && f[n] == *s {
            let rest = suffix(f, n + 1);
            let a = match sentence_first_checked(p, &rest) {
                Some(a) => a,
                None => {
                    return None;
                },
            };
            union_into_except_epsilon(&mut result, &a);
            if contains_symbol(&a, &Symbol::Epsilon) {
                insert_symbol(&mut result, x.clone());
            }
        }
        proof {
            let pos = position_follow(pd, x@, fd, n as int, s@, fu).unwrap();
            assert(set_of(result.deep_view()) =~= before.union(pos));
            match positions_follow(pd, x@, fd, n + 1, s@, fu) {
                Some(later) => {
                    assert(before.union(pos.union(later)) =~= before.union(pos).union(later));
                },
                None => {},
            }
        }
        n += 1;
    }
    assert(positions_follow(pd, x@, fd, n as int, s@, fu) == Some(Set::<SpecSymbol>::empty()));
    assert(set_of(result.deep_view()).union(Set::empty()) =~= set_of(result.deep_view()));
    Some(result)
}

/// What option `o` of `x` adds to the follow set of `s`; `None` where it fails.
fn option_follow_exec(p: &ProductionMap, x: &Symbol, o: &Sentence, s: &Symbol) -> (r: Option<Vec<Symbol>>)
    requires
        distinct_keys(p.deep_view()),
    ensures
        computed(r) == option_follow(p.deep_view(), x@, o.deep_view(), s@, depth_bound(p.deep_view())),
        distinct_result(r),
{
    if o.len() == 0 {
        return None;
    }
    let f = strip_sentence(o);
    let mut result = match positions_follow_exec(p, x, &f, s) {
        Some(result) => result,
        None => {
            return None;
        },
    };
    let ghost before = set_of(result.deep_view());
    if o[o.len() - 1] == *s {
        insert_symbol(&mut result, x.clone());
        assert(before.insert(x@) =~= before.union(set![x@]));
    } else {
        assert(before.union(Set::empty()) =~= before);
    }
    Some(result)
}

/// What the options `opts` of `x` add to the follow set of `s`; `None` where one fails.
fn options_follow_exec(p: &ProductionMap, x: &Symbol, opts: &Vec<Sentence>, s: &Symbol) -> (r: Option<
    Vec<Symbol>,
>)
    requires
        distinct_keys(p.deep_view()),
    ensures
        computed(r) == options_follow(p.deep_view(), x@, opts.deep_view(), s@, depth_bound(p.deep_view())),
        distinct_result(r),
{
    let ghost pd = p.deep_view();
    let ghost od = opts.deep_view();
    let ghost fu = depth_bound(pd);
    let mut result: Vec<Symbol> = Vec::new();
    let mut j: usize = 0;
    assert(od.skip(0) =~= od);
    assert(set_of(result.deep_view()) =~= Set::empty());
    proof {
        match options_follow(pd, x@, od, s@, fu) {
            Some(a) => {
                assert(Set::<SpecSymbol>::empty().union(a) =~= a);
            },
            None => {},
        }
    }
    while j < opts.len()
        invariant
            pd == p.deep_view(),
            od == opts.deep_view(),
            fu == depth_bound(pd),
            distinct_keys(pd),
            j <= opts.len(),
            options_follow(pd, x@, od, s@, fu) == joined_with(
                set_of(result.deep_view()),
                options_follow(pd, x@, od.skip(j as int), s@, fu),
            ),
            result.deep_view().no_duplicates(),
        decreases opts.len() - j,
    {
        assert(od.skip(j as int)[0] == od[j as int]);
        assert(od.skip(j as int).skip(1) =~= od.skip(j + 1));
        let c = match option_follow_exec(p, x, &opts[j], s) {
            Some(c) => c,
            None => {
                return None;
            },
        };
        let ghost before = set_of(result.deep_view());
        union_into(&mut result, &c);
        proof {
            match options_follow(pd, x@, od.skip(j + 1), s@, fu) {
                Some(later) => {
                    assert(set_of(result.deep_view()).union(later) =~= before.union(
                        set_of(c.deep_view()).union(later),
                    ));
                },
                None => {},
            }
        }
        j += 1;
    }
    assert(od.skip(j as int) =~= Seq::<Seq<SpecSymbol>>::empty());
    assert(set_of(result.deep_view()).union(Set::empty()) =~= set_of(result.deep_view()));
    Some(result)
}

/// The follow set of `s` in the productions `productions` (whose start symbol is
/// `start_symbol`) before the follow sets of the non terminals that it holds are
/// merged into it; `None` where a first set that it needs fails.
pub fn unexpanded_follow_checked(productions: &ProductionMap, start_symbol: &Symbol, s: &Symbol) -> (r: Option<
    Vec<Symbol>,
>)
    requires
        distinct_keys(productions.deep_view()),
    ensures
        computed(r) == unexpanded_follow_spec(productions.deep_view(), start_symbol@, s@),
        distinct_result(r),
{
    let p = productions;
    let ghost pd = p.deep_view();
    let ghost fu = depth_bound(pd);
    let mut result: Vec<Symbol> = Vec::new();
    if *s == *start_symbol {
        result.push(Symbol::Eos);
        assert(result.deep_view() =~= Seq::<SpecSymbol>::empty().push(SpecSymbol::Eos));
    } else {
        assert(result.deep_view() =~= Seq::<SpecSymbol>::empty());
    }
    let ghost initial = set_of(result.deep_view());
    let mut i: usize = 0;
    assert(pd.skip(0) =~= pd);
    assert(set_of(result.deep_view()) =~= initial.union(Set::empty()));
    proof {
        match entries_follow(pd, pd, s@, fu) {
            Some(e) => {
                assert(Set::<SpecSymbol>::empty().union(e) =~= e);
            },
            None => {},
        }
    }
    let ghost mut acc: Set<SpecSymbol> = Set::empty();
    while i < p.len()
        invariant
            pd == p.deep_view(),
            fu == depth_bound(pd),
            distinct_keys(pd),
            i <= p.len(),
            pd == productions.deep_view(),
            entries_follow(pd, pd, s@, fu) == joined_with(acc, entries_follow(pd, pd.skip(i as int), s@, fu)),
            set_of(result.deep_view()) == initial.union(acc),
            result.deep_view().no_duplicates(),
        decreases p.len() - i,
    {
        assert(pd.skip(i as int)[0] == pd[i as int]);
        assert(pd.skip(i as int).skip(1) =~= pd.skip(i + 1));
        let c = match options_follow_exec(p, &p[i].0, &p[i].1, s) {
            Some(c) => c,
            None => {
                assert(pd[i as int].0 == p@[i as int].0@ && pd[i as int].1 == p@[i as int].1.deep_view());
                assert(entries_follow(pd, pd.skip(i as int), s@, fu) is None);
                assert(entries_follow(pd, pd, s@, fu) is None);
                assert(unexpanded_follow_spec(pd, start_symbol@, s@) is None);
                return None;
            },
        };
        union_into(&mut result, &c);
        proof {
            let a = set_of(c.deep_view());
            match entries_follow(pd, pd.skip(i + 1), s@, fu) {
                Some(b) => {
                    assert(acc.union(a.union(b)) =~= acc.union(a).union(b));
                },
                None => {},
            }
            assert(initial.union(acc).union(a) =~= initial.union(acc.union(a)));
            acc = acc.union(a);
        }
        i += 1;
    }
    assert(pd.skip(i as int) =~= Seq::<(SpecSymbol, Seq<Seq<SpecSymbol>>)>::empty());
    assert(acc.union(Set::empty()) =~= acc);
    proof {
        let e = entries_follow(pd, pd, s@, fu).unwrap();
        if s@ == start_symbol@ {
            lemma_push_to_set(Seq::<SpecSymbol>::empty(), SpecSymbol::Eos);
            assert(set_of(Seq::<SpecSymbol>::empty()) =~= Set::empty());
            assert(initial.union(acc) =~= e.insert(SpecSymbol::Eos));
        } else {
            assert(set_of(Seq::<SpecSymbol>::empty()) =~= Set::empty());
            assert(initial.union(acc) =~= e);
        }
    }
    Some(result)
}

/// The follow set of `s` in the productions `productions` (whose start symbol is
/// `start_symbol`) before the follow sets of the non terminals that it holds are
/// merged into it.
pub fn unexpanded_follow(productions: &ProductionMap, start_symbol: &Symbol, s: &Symbol) -> (r: Vec<
    Symbol,
>)
    requires
        distinct_keys(productions.deep_view()),
        unexpanded_follow_spec(productions.deep_view(), start_symbol@, s@) is Some,
    ensures
        set_of(r.deep_view()) == unexpanded_follow_spec(productions.deep_view(), start_symbol@, s@).unwrap(),
        r.deep_view().no_duplicates(),
{
    unexpanded_follow_checked(productions, start_symbol, s).unwrap()
}

/// The position of `s` in `v`, if it is there.
fn index_of(v: &Vec<Symbol>, s: &Symbol) -> (r: Option<usize>)
    ensures
        match r {
            Some(j) => j < v.len() && v.deep_view()[j as int] == s@,
            None => !v.deep_view().contains(s@),
        },
{
    let mut j: usize = 0;
    while j < v.len()
        invariant
            j <= v.len(),
            forall|k: int| 0 <= k < j ==> v.deep_view()[k] != s@,
        decreases v.len() - j,
    {
        if v[j] == *s {
            return Some(j);
        }
        j += 1;
    }
    None
}

/// A copy of a table of symbol vectors.
fn copy_table(t: &Vec<Vec<Symbol>>) -> (r: Vec<Vec<Symbol>>)
    ensures
        r.deep_view() == t.deep_view(),
{
    let mut r: Vec<Vec<Symbol>> = Vec::new();
    let mut i: usize = 0;
    while i < t.len()
        invariant
            i <= t.len(),
            r.deep_view() == t.deep_view().take(i as int),
        decreases t.len() - i,
    {
        let ghost before = r.deep_view();
        let row = copy_sentence(&t[i]);
        r.push(row);
        assert(r.deep_view() =~= before.push(t.deep_view()[i as int]));
        assert(t.deep_view().take(i + 1) =~= t.deep_view().take(i as int).push(t.deep_view()[i as int]));
        i += 1;
    }
    assert(t.deep_view().take(i as int) =~= t.deep_view());
    r
}

/// Adding `e` to the symbols looked at adds the row of `e` where `e` is a non terminal
/// other than the row's own symbol that has a row.
proof fn lemma_merged_step(
    keys: Seq<SpecSymbol>,
    t: Seq<Set<SpecSymbol>>,
    i: int,
    elems: Seq<SpecSymbol>,
    e: SpecSymbol,
    found: Option<int>,
)
    requires
        keys.no_duplicates(),
        keys.len() == t.len(),
        0 <= i < t.len(),
        match found {
            Some(j) => 0 <= j < keys.len() && keys[j] == e,
            None => !keys.contains(e),
        },
    ensures
        merged_from(keys, t, i, set_of(elems.push(e))) == merged_from(keys, t, i, set_of(elems)).union(
            if e is NonTerminal && e != keys[i] && found is Some {
                t[found->0]
            } else {
                Set::empty()
            },
        ),
{
    lemma_push_to_set(elems, e);
    let add = if e is NonTerminal && e != keys[i] && found is Some {
        t[found->0]
    } else {
        Set::empty()
    };
    assert forall|x: SpecSymbol|
        merged_from(keys, t, i, set_of(elems.push(e))).contains(x) <==> merged_from(
            keys,
            t,
            i,
            set_of(elems),
        ).union(add).contains(x) by {
        if merged_from(keys, t, i, set_of(elems.push(e))).contains(x) {
            let j = choose|j: int|
                0 <= j < keys.len() && j < t.len() && set_of(elems.push(e)).contains(#[trigger] keys[j])
                    && keys[j] is NonTerminal && keys[j] != keys[i] && t[j].contains(x);
            if !set_of(elems).contains(keys[j]) {
                assert(keys[j] == e);
                match found {
                    Some(j0) => {
                        assert(j == j0);
                    },
                    None => {
                        assert(keys.contains(e));
                    },
                }
            }
        }
        if add.contains(x) {
            let j0 = found->0;
            assert(set_of(elems.push(e)).contains(keys[j0]));
        }
    }
    assert(merged_from(keys, t, i, set_of(elems.push(e))) =~= merged_from(keys, t, i, set_of(elems)).union(
        add,
    ));
}

/// One round of expansion of the follow table `t`, whose rows belong to the symbols `keys`.
fn expand_follow_once(keys: &Vec<Symbol>, t: &Vec<Vec<Symbol>>) -> (r: Vec<Vec<Symbol>>)
    requires
        keys.deep_view().no_duplicates(),
        keys.len() == t.len(),
        forall|k: int| 0 <= k < t.len() ==> (#[trigger] t.deep_view()[k]).no_duplicates(),
    ensures
        r.len() == t.len(),
        table_sets(r.deep_view()) == expand_once(keys.deep_view(), table_sets(t.deep_view())),
        forall|k: int| 0 <= k < r.len() ==> (#[trigger] r.deep_view()[k]).no_duplicates(),
{
    let ghost kd = keys.deep_view();
    let ghost tt = table_sets(t.deep_view());
    let mut result: Vec<Vec<Symbol>> = Vec::new();
    let mut i: usize = 0;
    while i < t.len()
        invariant
            kd == keys.deep_view(),
            tt == table_sets(t.deep_view()),
            kd.no_duplicates(),
            keys.len() == t.len(),
            forall|k: int| 0 <= k < t.len() ==> (#[trigger] t.deep_view()[k]).no_duplicates(),
            i <= t.len(),
            result.len() == i,
            forall|k: int| 0 <= k < i ==> set_of(#[trigger] result.deep_view()[k]) == expand_once(kd, tt)[k],
            forall|k: int| 0 <= k < i ==> (#[trigger] result.deep_view()[k]).no_duplicates(),
        decreases t.len() - i,
    {
        let row = &t[i];
        let ghost rd = t.deep_view()[i as int];
        let mut acc = copy_sentence(row);
        let mut m: usize = 0;
        assert(rd.take(0) =~= Seq::<SpecSymbol>::empty());
        assert(merged_from(kd, tt, i as int, set_of(rd.take(0))) =~= Set::empty());
        assert(set_of(acc.deep_view()) =~= tt[i as int].union(Set::empty()));
        while m < row.len()
            invariant
                kd == keys.deep_view(),
                tt == table_sets(t.deep_view()),
                kd.no_duplicates(),
                keys.len() == t.len(),
                i < t.len(),
                row == &t[i as int],
                rd == t.deep_view()[i as int],
                rd == row.deep_view(),
                m <= row.len(),
                set_of(acc.deep_view()) == tt[i as int].union(merged_from(kd, tt, i as int, set_of(rd.take(m as int)))),
                acc.deep_view().no_duplicates(),
            decreases row.len() - m,
        {
            let e = &row[m];
            let ghost found: Option<int> = None;
            let ghost before = set_of(acc.deep_view());
            if e.is_non_terminal() && *e != keys[i] {
                match index_of(keys, e) {
                    Some(j) => {
                        union_into(&mut acc, &t[j]);
                        proof {
                            found = Some(j as int);
                        }
                    },
                    None => {},
                }
            }
            proof {
                if found is None {
                    if !(e@ is NonTerminal && e@ != kd[i as int]) {
                        if kd.contains(e@) {
                            let j0 = choose|j0: int| 0 <= j0 < kd.len() && kd[j0] == e@;
                            found = Some(j0);
                        }
                    }
                }
                assert(rd.take(m + 1) =~= rd.take(m as int).push(rd[m as int]));
                lemma_merged_step(kd, tt, i as int, rd.take(m as int), rd[m as int], found);
                let add = if e@ is NonTerminal && e@ != kd[i as int] && found is Some {
                    tt[found->0]
                } else {
                    Set::empty()
                };
                assert(set_of(acc.deep_view()) == before.union(add));
                assert(tt[i as int].union(merged_from(kd, tt, i as int, set_of(rd.take(m as int)))).union(add)
                    =~= tt[i as int].union(merged_from(kd, tt, i as int, set_of(rd.take(m as int))).union(add)));
            }
            m += 1;
        }
        assert(rd.take(m as int) =~= rd);
        let ghost before_rows = result.deep_view();
        result.push(acc);
        assert(result.deep_view() =~= before_rows.push(result.deep_view()[i as int]));
        i += 1;
    }
    assert(table_sets(result.deep_view()) =~= expand_once(kd, tt));
    result
}

/// Whether two tables hold the same sets, row by row.
fn same_table(a: &Vec<Vec<Symbol>>, b: &Vec<Vec<Symbol>>) -> (r: bool)
    ensures
        r == (table_sets(a.deep_view()) == table_sets(b.deep_view())),
{
    if a.len() != b.len() {
        assert(table_sets(a.deep_view()).len() != table_sets(b.deep_view()).len());
        return false;
    }
    let mut i: usize = 0;
    while i < a.len()
        invariant
            a.len() == b.len(),
            i <= a.len(),
            forall|k: int| 0 <= k < i ==> set_of(#[trigger] a.deep_view()[k]) == set_of(b.deep_view()[k]),
        decreases a.len() - i,
    {
        if !same_set(&a[i], &b[i]) {
            assert(table_sets(a.deep_view())[i as int] != table_sets(b.deep_view())[i as int]);
            return false;
        }
        i += 1;
    }
    assert(table_sets(a.deep_view()) =~= table_sets(b.deep_view()));
    true
}

/// The rows of `t` without their non terminals.
fn remove_non_terminals(t: &Vec<Vec<Symbol>>) -> (r: Vec<Vec<Symbol>>)
    requires
        forall|k: int| 0 <= k < t.len() ==> (#[trigger] t.deep_view()[k]).no_duplicates(),
    ensures
        r.len() == t.len(),
        table_sets(r.deep_view()) == remove_non_terminals_spec(table_sets(t.deep_view())),
        forall|k: int| 0 <= k < r.len() ==> (#[trigger] r.deep_view()[k]).no_duplicates(),
{
    let ghost tt = table_sets(t.deep_view());
    let mut result: Vec<Vec<Symbol>> = Vec::new();
    let mut i: usize = 0;
    while i < t.len()
        invariant
            tt == table_sets(t.deep_view()),
            i <= t.len(),
            result.len() == i,
            forall|k: int| 0 <= k < i ==> set_of(#[trigger] result.deep_view()[k]) == remove_non_terminals_spec(tt)[k],
            forall|k: int| 0 <= k < i ==> (#[trigger] result.deep_view()[k]).no_duplicates(),
            forall|k: int| 0 <= k < t.len() ==> (#[trigger] t.deep_view()[k]).no_duplicates(),
        decreases t.len() - i,
    {
        let row = &t[i];
        let ghost rd = row.deep_view();
        let mut kept: Vec<Symbol> = Vec::new();
        let mut m: usize = 0;
        assert(rd == t.deep_view()[i as int]);
        assert(rd.no_duplicates());
        assert(set_of(kept.deep_view()) =~= set_of(rd.take(0)).filter(|x: SpecSymbol| !(x is NonTerminal)));
        while m < row.len()
            invariant
                rd == row.deep_view(),
                rd.no_duplicates(),
                m <= row.len(),
                set_of(kept.deep_view()) == set_of(rd.take(m as int)).filter(|x: SpecSymbol| !(x is NonTerminal)),
                kept.deep_view().no_duplicates(),
                forall|k: int| 0 <= k < kept.len() ==> rd.take(m as int).contains(#[trigger] kept.deep_view()[k]),
            decreases row.len() - m,
        {
            assert(rd.take(m + 1) =~= rd.take(m as int).push(rd[m as int]));
            proof {
                lemma_push_to_set(rd.take(m as int), rd[m as int]);
            }
            if !row[m].is_non_terminal() {
                let ghost before = kept.deep_view();
                kept.push(row[m].clone());
                assert(kept.deep_view() =~= before.push(rd[m as int]));
                proof {
                    lemma_push_to_set(before, rd[m as int]);
                    assert(!before.contains(rd[m as int])) by {
                        if before.contains(rd[m as int]) {
                            let k = choose|k: int| 0 <= k < before.len() && before[k] == rd[m as int];
                            assert(rd.take(m as int).contains(before[k]));
                            let q = choose|q: int| 0 <= q < m && rd.take(m as int)[q] == before[k];
                            assert(rd[q] == rd[m as int]);
                        }
                    }
                }
                assert(set_of(kept.deep_view()) =~= set_of(rd.take(m + 1)).filter(|x: SpecSymbol| !(x is NonTerminal)));
                assert forall|k: int| 0 <= k < kept.len() implies rd.take(m + 1).contains(#[trigger] kept.deep_view()[k]) by {
                    if k < before.len() {
                        assert(rd.take(m as int).contains(before[k]));
                        let q = choose|q: int| 0 <= q < m && rd.take(m as int)[q] == before[k];
                        assert(rd.take(m + 1)[q] == before[k]);
                    } else {
                        assert(rd.take(m + 1)[m as int] == rd[m as int]);
                    }
                }
            } else {
                assert(set_of(kept.deep_view()) =~= set_of(rd.take(m + 1)).filter(|x: SpecSymbol| !(x is NonTerminal)));
                assert forall|k: int| 0 <= k < kept.len() implies rd.take(m + 1).contains(#[trigger] kept.deep_view()[k]) by {
                    let q = choose|q: int| 0 <= q < m && rd.take(m as int)[q] == kept.deep_view()[k];
                    assert(rd.take(m + 1)[q] == kept.deep_view()[k]);
                }
            }
            m += 1;
        }
        assert(rd.take(m as int) =~= rd);
        let ghost before_rows = result.deep_view();
        result.push(kept);
        assert(result.deep_view() =~= before_rows.push(result.deep_view()[i as int]));
        i += 1;
    }
    assert(table_sets(result.deep_view()) =~= remove_non_terminals_spec(tt));
    result
}

/// Expansion of the follow table `t` until a round changes nothing or the limit of
/// rounds is met, then removal of the non terminals.
fn expand_follow(keys: &Vec<Symbol>, t: &Vec<Vec<Symbol>>) -> (r: Vec<Vec<Symbol>>)
    requires
        keys.deep_view().no_duplicates(),
        keys.len() == t.len(),
        forall|k: int| 0 <= k < t.len() ==> (#[trigger] t.deep_view()[k]).no_duplicates(),
    ensures
        r.len() == t.len(),
        table_sets(r.deep_view()) == remove_non_terminals_spec(
            expand_loop(
                keys.deep_view(),
                table_sets(t.deep_view()),
                expand_once(keys.deep_view(), table_sets(t.deep_view())),
                0,
            ),
        ),
        forall|k: int| 0 <= k < r.len() ==> (#[trigger] r.deep_view()[k]).no_duplicates(),
{
    let ghost kd = keys.deep_view();
    let ghost goal = expand_loop(kd, table_sets(t.deep_view()), expand_once(kd, table_sets(t.deep_view())), 0);
    let mut current = copy_table(t);
    let mut next = expand_follow_once(keys, &current);
    let mut iterations: usize = 0;
    while !same_table(&current, &next) && iterations < MAX_FOLLOW_EXPANSIONS
        invariant
            kd == keys.deep_view(),
            kd.no_duplicates(),
            keys.len() == t.len(),
            current.len() == t.len(),
            next.len() == t.len(),
            forall|k: int| 0 <= k < current.len() ==> (#[trigger] current.deep_view()[k]).no_duplicates(),
            forall|k: int| 0 <= k < next.len() ==> (#[trigger] next.deep_view()[k]).no_duplicates(),
            table_sets(next.deep_view()) == expand_once(kd, table_sets(current.deep_view())),
            iterations <= MAX_FOLLOW_EXPANSIONS,
            expand_loop(kd, table_sets(current.deep_view()), table_sets(next.deep_view()), iterations as nat) == goal,
        decreases MAX_FOLLOW_EXPANSIONS - iterations,
    {
        current = next;
        next = expand_follow_once(keys, &current);
        iterations += 1;
    }
    remove_non_terminals(&next)
}

/// The follow set of every left-hand side of `p`, in order; `None` where a first set
/// that they need fails.
pub fn follow_sets(p: &ProductionMap, start_symbol: &Symbol) -> (r: Option<Vec<Vec<Symbol>>>)
    requires
        distinct_keys(p.deep_view()),
    ensures
        match r {
            Some(t) => {
                &&& follow_defined(p.deep_view(), start_symbol@)
                &&& t.len() == p.len()
                &&& table_sets(t.deep_view()) == follow_table(p.deep_view(), start_symbol@)
                &&& forall|k: int| 0 <= k < t.len() ==> (#[trigger] t.deep_view()[k]).no_duplicates()
            },
            None => !follow_defined(p.deep_view(), start_symbol@),
        },
{
    let ghost pd = p.deep_view();
    let mut keys: Vec<Symbol> = Vec::new();
    let mut rows: Vec<Vec<Symbol>> = Vec::new();
    let mut i: usize = 0;
    while i < p.len()
        invariant
            pd == p.deep_view(),
            distinct_keys(pd),
            i <= p.len(),
            keys.len() == i,
            rows.len() == i,
            forall|k: int| 0 <= k < i ==> #[trigger] keys.deep_view()[k] == pd[k].0,
            forall|k: int| 0 <= k < i ==> unexpanded_follow_spec(pd, start_symbol@, pd[k].0) == Some(
                set_of(#[trigger] rows.deep_view()[k]),
            ),
            forall|k: int| 0 <= k < i ==> (#[trigger] rows.deep_view()[k]).no_duplicates(),
        decreases p.len() - i,
    {
        let row = match unexpanded_follow_checked(p, start_symbol, &p[i].0) {
            Some(row) => row,
            None => {
                assert(unexpanded_follow_spec(pd, start_symbol@, pd[i as int].0) is None);
                return None;
            },
        };
        let ghost kb = keys.deep_view();
        let ghost rb = rows.deep_view();
        keys.push(p[i].0.clone());
        rows.push(row);
        assert(keys.deep_view() =~= kb.push(pd[i as int].0));
        assert(rows.deep_view() =~= rb.push(rows.deep_view()[i as int]));
        i += 1;
    }
    assert(follow_defined(pd, start_symbol@)) by {
        assert forall|k: int| 0 <= k < pd.len() implies #[trigger] unexpanded_follow_spec(pd, start_symbol@, pd[k].0) is Some by {
            assert(unexpanded_follow_spec(pd, start_symbol@, pd[k].0) == Some(set_of(rows.deep_view()[k])));
        }
    }
    assert(keys.deep_view() =~= keys_of(pd));
    assert(table_sets(rows.deep_view()) =~= unexpanded_table(pd, start_symbol@));
    Some(expand_follow(&keys, &rows))
}

} // verus!
