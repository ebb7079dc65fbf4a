//! The rounds that merge follow sets into each other settle: each round that changes
//! something adds a symbol to some follow set, and the follow sets only hold symbols
//! that the unexpanded ones hold.
use crate::grammar::lemma_expand_loop_len;
use crate::grammar_spec::{
    depth_bound, expand_loop, expand_once, keys_of, strip_actions, unexpanded_follow_spec, unexpanded_table,
    without_semantics, SpecProductions, SpecSentence, MAX_FOLLOW_EXPANSIONS,
};
use crate::grammar::{grammar_follow, law_follow_closure, option_of, valid_grammar, GrammarModel};
use crate::grammar_spec::{has_key, options_of, sentence_first_set};
use crate::symbol::SpecSymbol;
use vstd::prelude::*;

verus! {

proof fn lemma_position_follow_finite(p: SpecProductions, x: SpecSymbol, f: SpecSentence, n: int, s: SpecSymbol, fuel: nat)
    ensures
        crate::grammar_spec::position_follow(p, x, f, n, s, fuel) matches Some(y) ==> y.finite(),
{
    if 0 <= n && n + 1 < f.len() && f[n] == s {
        if strip_actions(f.skip(n + 1)).len() > 0 {
            crate::grammar_spec::lemma_option_first_finite(p, strip_actions(f.skip(n + 1)), fuel);
        }
    }
}

proof fn lemma_positions_follow_finite(p: SpecProductions, x: SpecSymbol, f: SpecSentence, n: int, s: SpecSymbol, fuel: nat)
    ensures
        crate::grammar_spec::positions_follow(p, x, f, n, s, fuel) matches Some(y) ==> y.finite(),
    decreases f.len() - n,
{
    if !(n < 0 || n >= f.len()) {
        lemma_position_follow_finite(p, x, f, n, s, fuel);
        lemma_positions_follow_finite(p, x, f, n + 1, s, fuel);
    }
}

proof fn lemma_options_follow_finite(p: SpecProductions, x: SpecSymbol, opts: Seq<SpecSentence>, s: SpecSymbol, fuel: nat)
    ensures
        crate::grammar_spec::options_follow(p, x, opts, s, fuel) matches Some(y) ==> y.finite(),
    decreases opts.len(),
{
    if opts.len() > 0 {
        lemma_positions_follow_finite(p, x, strip_actions(opts[0]), 0, s, fuel);
        lemma_options_follow_finite(p, x, opts.skip(1), s, fuel);
    }
}

proof fn lemma_entries_follow_finite(p: SpecProductions, entries: SpecProductions, s: SpecSymbol, fuel: nat)
    ensures
        crate::grammar_spec::entries_follow(p, entries, s, fuel) matches Some(y) ==> y.finite(),
    decreases entries.len(),
{
    if entries.len() > 0 {
        lemma_options_follow_finite(p, entries[0].0, entries[0].1, s, fuel);
        lemma_entries_follow_finite(p, entries.skip(1), s, fuel);
    }
}

/// All the symbols that the rows of `t` hold.
pub open spec fn table_union(t: Seq<Set<SpecSymbol>>) -> Set<SpecSymbol>
    decreases t.len(),
{
    if t.len() == 0 {
        Set::empty()
    } else {
        table_union(t.drop_last()).union(t.last())
    }
}

/// Every row of `t` is part of `universe`.
pub open spec fn rows_within(t: Seq<Set<SpecSymbol>>, universe: Set<SpecSymbol>) -> bool {
    forall|i: int| 0 <= i < t.len() ==> (#[trigger] t[i]).subset_of(universe)
}

/// How many symbols of `universe` the rows of `t` lack, all rows counted.
pub open spec fn missing(t: Seq<Set<SpecSymbol>>, universe: Set<SpecSymbol>) -> int
    decreases t.len(),
{
    if t.len() == 0 {
        0
    } else {
        missing(t.drop_last(), universe) + (universe.len() - t.last().len())
    }
}

proof fn lemma_table_union(t: Seq<Set<SpecSymbol>>)
    requires
        forall|i: int| 0 <= i < t.len() ==> (#[trigger] t[i]).finite(),
    ensures
        table_union(t).finite(),
        rows_within(t, table_union(t)),
    decreases t.len(),
{
    if t.len() > 0 {
        lemma_table_union(t.drop_last());
        assert forall|i: int| 0 <= i < t.len() implies (#[trigger] t[i]).subset_of(table_union(t)) by {
            if i < t.len() - 1 {
                assert(t.drop_last()[i] == t[i]);
            }
        }
    }
}

proof fn lemma_missing_bounds(t: Seq<Set<SpecSymbol>>, universe: Set<SpecSymbol>)
    requires
        universe.finite(),
        rows_within(t, universe),
    ensures
        0 <= missing(t, universe) <= t.len() * universe.len(),
    decreases t.len(),
{
    if t.len() > 0 {
        assert(rows_within(t.drop_last(), universe)) by {
            assert forall|i: int| 0 <= i < t.drop_last().len() implies (#[trigger] t.drop_last()[i]).subset_of(universe) by {
                assert(t.drop_last()[i] == t[i]);
            }
        }
        lemma_missing_bounds(t.drop_last(), universe);
        assert(t.last().subset_of(universe));
        vstd::set_lib::lemma_len_subset(t.last(), universe);
        let n = t.len();
        let c = universe.len();
        assert((n - 1) * c + c == n * c) by (nonlinear_arith);
    }
}

/// Growing rows within a finite universe leave fewer symbols missing, strictly fewer
/// where some row grows.
proof fn lemma_missing_decreases(a: Seq<Set<SpecSymbol>>, b: Seq<Set<SpecSymbol>>, universe: Set<SpecSymbol>)
    requires
        universe.finite(),
        a.len() == b.len(),
        rows_within(b, universe),
        forall|i: int| 0 <= i < a.len() ==> (#[trigger] a[i]).subset_of(b[i]),
    ensures
        missing(b, universe) <= missing(a, universe),
        a != b ==> missing(b, universe) < missing(a, universe),
    decreases a.len(),
{
    if a.len() > 0 {
        let n = a.len() - 1;
        assert(rows_within(b.drop_last(), universe)) by {
            assert forall|i: int| 0 <= i < b.drop_last().len() implies (#[trigger] b.drop_last()[i]).subset_of(universe) by {
                assert(b.drop_last()[i] == b[i]);
            }
        }
        assert forall|i: int| 0 <= i < a.drop_last().len() implies (#[trigger] a.drop_last()[i]).subset_of(b.drop_last()[i]) by {
            assert(a.drop_last()[i] == a[i]);
            assert(b.drop_last()[i] == b[i]);
        }
        lemma_missing_decreases(a.drop_last(), b.drop_last(), universe);
        assert(b[n].subset_of(universe));
        assert(a[n].subset_of(b[n]));
        vstd::set_lib::lemma_len_subset(b[n], universe);
        vstd::set_lib::lemma_len_subset(a[n], b[n]);
        assert(a.last() == a[n] && b.last() == b[n]);
        assert(missing(a, universe) == missing(a.drop_last(), universe) + (universe.len() - a[n].len()));
        assert(missing(b, universe) == missing(b.drop_last(), universe) + (universe.len() - b[n].len()));
        if a != b && a.drop_last() == b.drop_last() {
            assert(a[n] != b[n]) by {
                if a[n] == b[n] {
                    assert(a =~= b) by {
                        assert forall|i: int| 0 <= i < a.len() implies a[i] == b[i] by {
                            if i < n {
                                assert(a.drop_last()[i] == b.drop_last()[i]);
                            }
                        }
                    }
                }
            }
            if a[n].len() == b[n].len() {
                vstd::set_lib::lemma_subset_equality(a[n], b[n]);
            }
            assert(a[n].len() < b[n].len());
        }
        if a != b && a.drop_last() != b.drop_last() {
            assert(missing(b.drop_last(), universe) < missing(a.drop_last(), universe));
        }
    } else {
        assert(a =~= b);
    }
}

/// A round of expansion keeps every row and stays within the symbols the rows held.
proof fn lemma_expand_once_within(keys: Seq<SpecSymbol>, t: Seq<Set<SpecSymbol>>, universe: Set<SpecSymbol>)
    requires
        rows_within(t, universe),
    ensures
        expand_once(keys, t).len() == t.len(),
        rows_within(expand_once(keys, t), universe),
        forall|i: int| 0 <= i < t.len() ==> (#[trigger] t[i]).subset_of(expand_once(keys, t)[i]),
{
    let e = expand_once(keys, t);
    assert forall|i: int| 0 <= i < e.len() implies (#[trigger] e[i]).subset_of(universe) by {
        assert forall|y: SpecSymbol| e[i].contains(y) implies universe.contains(y) by {
            if !t[i].contains(y) {
                let j = choose|j: int|
                    0 <= j < keys.len() && j < t.len() && t[i].contains(#[trigger] keys[j]) && keys[j] is NonTerminal
                        && keys[j] != keys[i] && t[j].contains(y);
                assert(t[j].subset_of(universe));
            } else {
                assert(t[i].subset_of(universe));
            }
        }
    }
}

/// The rounds of expansion settle where the symbols missing from the rows, plus the
/// rounds made, stay below the limit of rounds.
proof fn lemma_expand_loop_settles(
    keys: Seq<SpecSymbol>,
    cur: Seq<Set<SpecSymbol>>,
    next: Seq<Set<SpecSymbol>>,
    it: nat,
    universe: Set<SpecSymbol>,
)
    requires
        universe.finite(),
        rows_within(cur, universe),
        next == expand_once(keys, cur),
        missing(cur, universe) + it < MAX_FOLLOW_EXPANSIONS,
    ensures
        expand_once(keys, expand_loop(keys, cur, next, it)) == expand_loop(keys, cur, next, it),
    decreases MAX_FOLLOW_EXPANSIONS - it,
{
    lemma_expand_once_within(keys, cur, universe);
    lemma_missing_bounds(cur, universe);
    if cur != next && it < MAX_FOLLOW_EXPANSIONS {
        lemma_missing_decreases(cur, next, universe);
        lemma_expand_loop_settles(keys, next, expand_once(keys, next), it + 1, universe);
    }
}

/// The symbols that the unexpanded follow sets of `p` hold.
pub open spec fn follow_universe(p: SpecProductions, start: SpecSymbol) -> Set<SpecSymbol> {
    table_union(unexpanded_table(without_semantics(p), start))
}

/// The rounds of expansion of the follow sets settle before their limit wherever the
/// number of productions times the number of symbols that the unexpanded follow sets
/// hold stays below that limit.
pub proof fn law_follow_settles(p: SpecProductions, start: SpecSymbol)
    requires
        valid_grammar(p, start),
        without_semantics(p).len() * follow_universe(p, start).len() < MAX_FOLLOW_EXPANSIONS,
    ensures
        crate::grammar_spec::follow_settled(without_semantics(p), start),
{
    let w = without_semantics(p);
    let u = unexpanded_table(w, start);
    assert forall|i: int| 0 <= i < u.len() implies (#[trigger] u[i]).finite() by {
        assert(unexpanded_follow_spec(w, start, w[i].0) is Some);
        lemma_entries_follow_finite(w, w, w[i].0, depth_bound(w));
    }
    lemma_table_union(u);
    lemma_missing_bounds(u, table_union(u));
    lemma_expand_loop_settles(keys_of(w), u, expand_once(keys_of(w), u), 0, table_union(u));
}

/// Where the option `j` of `a` (semantic actions removed) holds `b` at position `n` and
/// nothing follows that position or all that follows can derive the empty sentence,
/// the follow set of `b` holds the follow set of `a`, for every grammar whose number of
/// productions times the number of symbols of its unexpanded follow sets stays below
/// the limit of rounds of expansion.
pub proof fn law_follow_includes(p: SpecProductions, start: SpecSymbol, a: SpecSymbol, b: SpecSymbol, j: int, n: int)
    requires
        valid_grammar(p, start),
        without_semantics(p).len() * follow_universe(p, start).len() < MAX_FOLLOW_EXPANSIONS,
        has_key(without_semantics(p), a),
        has_key(without_semantics(p), b),
        a is NonTerminal,
        0 <= j < options_of(without_semantics(p), a).len(),
        0 <= n < option_of(p, a, j).len(),
        option_of(p, a, j)[n] == b,
        n + 1 == option_of(p, a, j).len() || sentence_first_set(
            without_semantics(p),
            option_of(p, a, j).skip(n + 1),
        ).contains(SpecSymbol::Epsilon),
    ensures
        forall|y: SpecSymbol|
            #[trigger] grammar_follow(GrammarModel { start, productions: p }, a).contains(y) ==> grammar_follow(
                GrammarModel { start, productions: p },
                b,
            ).contains(y),
{
    law_follow_settles(p, start);
    law_follow_closure(p, start, a, b, j, n);
}

} // verus!
