//! A grammar with its follow sets, and queries of its first and follow sets.
use crate::first::{
    find_key, first, first_checked, sentence_first, sentence_first_checked, strip_sentence,
    ProductionMap, Sentence,
};
use crate::follow::follow_sets;
use crate::grammar_spec::{
    chain_first, depth_bound, distinct_keys, expand_loop, expand_once, first_defined, first_fuel,
    first_set, follow_defined, follow_table, has_key, key_index, keys_of, lemma_key_index, options_of,
    sentence_first_defined, sentence_first_fuel, sentence_first_set, strip_actions, strip_options,
    table_sets, unexpanded_follow_spec, unexpanded_table, without_semantics, SpecProductions, SpecSentence,
    MAX_FOLLOW_EXPANSIONS,
};
use crate::symbol::{SpecSymbol, Symbol};
use crate::symbol_set::{computed, distinct_result, set_of};
use vstd::prelude::*;

verus! {

/// A grammar: a start symbol and productions, with the follow set of every left-hand
/// side computed once.
pub struct Grammar {
    start: Symbol,
    productions: ProductionMap,
    /// The follow sets of the left-hand sides of `production_without_semantics`, in order.
    follow_sets: Vec<Vec<Symbol>>,
    production_without_semantics: ProductionMap,
}

/// The model of a [`Grammar`]: what it was made from.
pub struct GrammarModel {
    pub start: SpecSymbol,
    pub productions: SpecProductions,
}

/// The productions that the first and follow sets are computed on.
pub open spec fn model_without(m: GrammarModel) -> SpecProductions {
    without_semantics(m.productions)
}

/// The follow set of the left-hand side `s`.
pub open spec fn grammar_follow(m: GrammarModel, s: SpecSymbol) -> Set<SpecSymbol> {
    follow_table(model_without(m), m.start)[key_index(model_without(m), s)]
}

/// What `Grammar::new` needs of its productions and start symbol: no two productions share
/// a left-hand side, the start symbol has a production, no option is empty, every non
/// terminal of an option has a production, and the follow sets can be computed.
pub open spec fn valid_grammar(p: SpecProductions, start: SpecSymbol) -> bool {
    &&& distinct_keys(p)
    &&& has_key(p, start)
    &&& forall|i: int, j: int| 0 <= i < p.len() && 0 <= j < p[i].1.len() ==> #[trigger] p[i].1[j].len() > 0
    &&& forall|i: int, j: int, k: int|
        0 <= i < p.len() && 0 <= j < p[i].1.len() && 0 <= k < p[i].1[j].len() && (
        #[trigger] p[i].1[j][k]) is NonTerminal ==> has_key(p, p[i].1[j][k])
    &&& follow_defined(without_semantics(p), start)
}

impl View for Grammar {
    type V = GrammarModel;

    closed spec fn view(&self) -> GrammarModel {
        GrammarModel { start: self.start@, productions: self.productions.deep_view() }
    }
}

/// The left-hand sides of the productions without semantics are among those of the
/// productions, in the same order, and carry their options without semantic actions.
pub proof fn lemma_without_semantics(p: SpecProductions)
    ensures
        forall|i: int|
            #![trigger without_semantics(p)[i]]
            0 <= i < without_semantics(p).len() ==> exists|j: int|
                #![trigger p[j]]
                0 <= j < p.len() && without_semantics(p)[i].0 == p[j].0 && !(p[j].0 is SemanticAction)
                    && without_semantics(p)[i].1 == strip_options(p[j].1),
        forall|j: int|
            0 <= j < p.len() && !(p[j].0 is SemanticAction) ==> has_key(without_semantics(p), #[trigger] p[j].0),
        distinct_keys(p) ==> distinct_keys(without_semantics(p)),
    decreases p.len(),
{
    if p.len() > 0 {
        let rest = p.skip(1);
        lemma_without_semantics(rest);
        let w = without_semantics(p);
        let wr = without_semantics(rest);
        if p[0].0 is SemanticAction {
            assert(w == wr);
            assert forall|i: int| #![trigger w[i]] 0 <= i < w.len() implies exists|j: int|
                #![trigger p[j]]
                0 <= j < p.len() && w[i].0 == p[j].0 && !(p[j].0 is SemanticAction) && w[i].1
                    == strip_options(p[j].1) by {
                let j = choose|j: int|
                    #![trigger rest[j]]
                    0 <= j < rest.len() && wr[i].0 == rest[j].0 && !(rest[j].0 is SemanticAction)
                        && wr[i].1 == strip_options(rest[j].1);
                assert(p[j + 1] == rest[j]);
            }
            assert forall|j: int| 0 <= j < p.len() && !(p[j].0 is SemanticAction) implies has_key(
                w,
                #[trigger] p[j].0,
            ) by {
                assert(j > 0);
                assert(rest[j - 1] == p[j]);
            }
        } else {
            let head = (p[0].0, strip_options(p[0].1));
            assert(w == seq![head] + wr);
            assert forall|i: int| #![trigger w[i]] 0 <= i < w.len() implies exists|j: int|
                #![trigger p[j]]
                0 <= j < p.len() && w[i].0 == p[j].0 && !(p[j].0 is SemanticAction) && w[i].1
                    == strip_options(p[j].1) by {
                if i == 0 {
                    assert(w[0].0 == p[0].0);
                    assert(w[0].1 == strip_options(p[0].1));
                } else {
                    assert(w[i] == wr[i - 1]);
                    let j = choose|j: int|
                        #![trigger rest[j]]
                        0 <= j < rest.len() && wr[i - 1].0 == rest[j].0 && !(
                        rest[j].0 is SemanticAction) && wr[i - 1].1 == strip_options(rest[j].1);
                    assert(p[j + 1] == rest[j]);
                }
            }
            assert forall|j: int| 0 <= j < p.len() && !(p[j].0 is SemanticAction) implies has_key(
                w,
                #[trigger] p[j].0,
            ) by {
                if j == 0 {
                    assert(w[0].0 == p[0].0);
                } else {
                    assert(rest[j - 1] == p[j]);
                    assert(has_key(wr, rest[j - 1].0));
                    let i = choose|i: int| 0 <= i < wr.len() && wr[i].0 == rest[j - 1].0;
                    assert(w[i + 1] == wr[i]);
                }
            }
            if distinct_keys(p) {
                assert(distinct_keys(rest)) by {
                    assert forall|a: int, b: int|
                        0 <= a < rest.len() && 0 <= b < rest.len() && a != b implies rest[a].0 != rest[b].0 by {
                        assert(rest[a] == p[a + 1]);
                        assert(rest[b] == p[b + 1]);
                    }
                }
                assert forall|a: int, b: int|
                    0 <= a < w.len() && 0 <= b < w.len() && a != b implies w[a].0 != w[b].0 by {
                    if a == 0 && b > 0 {
                        assert(w[b] == wr[b - 1]);
                        let j = choose|j: int|
                            #![trigger rest[j]]
                            0 <= j < rest.len() && wr[b - 1].0 == rest[j].0 && !(
                            rest[j].0 is SemanticAction) && wr[b - 1].1 == strip_options(rest[j].1);
                        assert(rest[j] == p[j + 1]);
                    } else if b == 0 && a > 0 {
                        assert(w[a] == wr[a - 1]);
                        let j = choose|j: int|
                            #![trigger rest[j]]
                            0 <= j < rest.len() && wr[a - 1].0 == rest[j].0 && !(
                            rest[j].0 is SemanticAction) && wr[a - 1].1 == strip_options(rest[j].1);
                        assert(rest[j] == p[j + 1]);
                    } else if a > 0 && b > 0 {
                        assert(w[a] == wr[a - 1]);
                        assert(w[b] == wr[b - 1]);
                    }
                }
            }
        }
    }
}

/// The options of a production, without their semantic actions.
fn strip_options_exec(opts: &Vec<Sentence>) -> (r: Vec<Sentence>)
    ensures
        r.deep_view() == strip_options(opts.deep_view()),
{
    let mut r: Vec<Sentence> = Vec::new();
    let mut j: usize = 0;
    while j < opts.len()
        invariant
            j <= opts.len(),
            r.deep_view() == strip_options(opts.deep_view()).take(j as int),
        decreases opts.len() - j,
    {
        let ghost before = r.deep_view();
        let f = strip_sentence(&opts[j]);
        r.push(f);
        assert(r.deep_view() =~= before.push(strip_options(opts.deep_view())[j as int]));
        assert(strip_options(opts.deep_view()).take(j + 1) =~= strip_options(opts.deep_view()).take(
            j as int,
        ).push(strip_options(opts.deep_view())[j as int]));
        j += 1;
    }
    assert(strip_options(opts.deep_view()).take(j as int) =~= strip_options(opts.deep_view()));
    r
}

/// The productions whose left-hand side is not a semantic action, without their
/// semantic actions.
fn remove_semantics(p: &ProductionMap) -> (r: ProductionMap)
    ensures
        r.deep_view() == without_semantics(p.deep_view()),
{
    let ghost pd = p.deep_view();
    let mut r: ProductionMap = Vec::new();
    let mut i: usize = 0;
    assert(pd.skip(0) =~= pd);
    assert(without_semantics(pd) =~= r.deep_view() + without_semantics(pd.skip(0)));
    while i < p.len()
        invariant
            pd == p.deep_view(),
            i <= p.len(),
            without_semantics(pd) == r.deep_view() + without_semantics(pd.skip(i as int)),
        decreases p.len() - i,
    {
        assert(pd.skip(i as int)[0] == pd[i as int]);
        assert(pd.skip(i as int).skip(1) =~= pd.skip(i + 1));
        if !p[i].0.is_action() {
            let ghost before = r.deep_view();
            let opts = strip_options_exec(&p[i].1);
            r.push((p[i].0.clone(), opts));
            assert(r.deep_view() =~= before + seq![(pd[i as int].0, strip_options(pd[i as int].1))]);
            assert(before + (seq![(pd[i as int].0, strip_options(pd[i as int].1))] + without_semantics(
                pd.skip(i + 1),
            )) =~= r.deep_view() + without_semantics(pd.skip(i + 1)));
        }
        i += 1;
    }
    assert(pd.skip(i as int) =~= Seq::<(SpecSymbol, Seq<Seq<SpecSymbol>>)>::empty());
    assert(r.deep_view() + Seq::<(SpecSymbol, Seq<Seq<SpecSymbol>>)>::empty() =~= r.deep_view());
    r
}

/// A copy of the productions.
fn copy_productions(p: &ProductionMap) -> (r: ProductionMap)
    ensures
        r.deep_view() == p.deep_view(),
{
    let mut r: ProductionMap = Vec::new();
    let mut i: usize = 0;
    while i < p.len()
        invariant
            i <= p.len(),
            r.deep_view() == p.deep_view().take(i as int),
        decreases p.len() - i,
    {
        let ghost before = r.deep_view();
        let mut opts: Vec<Sentence> = Vec::new();
        let mut j: usize = 0;
        while j < p[i].1.len()
            invariant
                i < p.len(),
                j <= p[i as int].1.len(),
                opts.deep_view() == p[i as int].1.deep_view().take(j as int),
            decreases p[i as int].1.len() - j,
        {
            let ghost ob = opts.deep_view();
            let s = crate::first::copy_sentence(&p[i].1[j]);
            opts.push(s);
            assert(opts.deep_view() =~= ob.push(p[i as int].1.deep_view()[j as int]));
            assert(p[i as int].1.deep_view().take(j + 1) =~= p[i as int].1.deep_view().take(j as int).push(
                p[i as int].1.deep_view()[j as int],
            ));
            j += 1;
        }
        assert(p[i as int].1.deep_view().take(j as int) =~= p[i as int].1.deep_view());
        r.push((p[i].0.clone(), opts));
        assert(r.deep_view() =~= before.push(p.deep_view()[i as int]));
        assert(p.deep_view().take(i + 1) =~= p.deep_view().take(i as int).push(p.deep_view()[i as int]));
        i += 1;
    }
    assert(p.deep_view().take(i as int) =~= p.deep_view());
    r
}

/// Whether no two productions of `p` share a left-hand side.
fn keys_distinct(p: &ProductionMap) -> (r: bool)
    ensures
        r == distinct_keys(p.deep_view()),
{
    let ghost pd = p.deep_view();
    let mut i: usize = 0;
    while i < p.len()
        invariant
            pd == p.deep_view(),
            i <= p.len(),
            forall|a: int, b: int| 0 <= a < i && 0 <= b < p.len() && a != b ==> pd[a].0 != pd[b].0,
        decreases p.len() - i,
    {
        let mut j: usize = 0;
        while j < p.len()
            invariant
                pd == p.deep_view(),
                i < p.len(),
                j <= p.len(),
                forall|a: int, b: int| 0 <= a < i && 0 <= b < p.len() && a != b ==> pd[a].0 != pd[b].0,
                forall|b: int| 0 <= b < j && b != i ==> pd[i as int].0 != pd[b].0,
            decreases p.len() - j,
        {
            if j != i && p[i].0 == p[j].0 {
                assert(pd[i as int].0 == p@[i as int].0@ && pd[j as int].0 == p@[j as int].0@);
                return false;
            }
            j += 1;
        }
        i += 1;
    }
    true
}

/// Every option of `p` holds a symbol.
pub open spec fn options_nonempty(p: SpecProductions) -> bool {
    forall|i: int, j: int| 0 <= i < p.len() && 0 <= j < p[i].1.len() ==> #[trigger] p[i].1[j].len() > 0
}

/// Every non terminal in an option of `p` has a production.
pub open spec fn non_terminals_defined(p: SpecProductions) -> bool {
    forall|i: int, j: int, k: int|
        0 <= i < p.len() && 0 <= j < p[i].1.len() && 0 <= k < p[i].1[j].len() && (
        #[trigger] p[i].1[j][k]) is NonTerminal ==> has_key(p, p[i].1[j][k])
}

/// Whether every option of `p` holds a symbol and every non terminal in them has a
/// production.
fn options_well_formed(p: &ProductionMap) -> (r: bool)
    ensures
        r == (options_nonempty(p.deep_view()) && non_terminals_defined(p.deep_view())),
{
    let ghost pd = p.deep_view();
    let mut i: usize = 0;
    while i < p.len()
        invariant
            pd == p.deep_view(),
            i <= p.len(),
            forall|a: int, b: int| 0 <= a < i && 0 <= b < pd[a].1.len() ==> #[trigger] pd[a].1[b].len() > 0,
            forall|a: int, b: int, c: int|
                0 <= a < i && 0 <= b < pd[a].1.len() && 0 <= c < pd[a].1[b].len() && (
                #[trigger] pd[a].1[b][c]) is NonTerminal ==> has_key(pd, pd[a].1[b][c]),
        decreases p.len() - i,
    {
        let mut j: usize = 0;
        while j < p[i].1.len()
            invariant
                pd == p.deep_view(),
                i < p.len(),
                j <= pd[i as int].1.len(),
                forall|a: int, b: int| 0 <= a < i && 0 <= b < pd[a].1.len() ==> #[trigger] pd[a].1[b].len() > 0,
                forall|a: int, b: int, c: int|
                    0 <= a < i && 0 <= b < pd[a].1.len() && 0 <= c < pd[a].1[b].len() && (
                    #[trigger] pd[a].1[b][c]) is NonTerminal ==> has_key(pd, pd[a].1[b][c]),
                forall|b: int| 0 <= b < j ==> #[trigger] pd[i as int].1[b].len() > 0,
                forall|b: int, c: int|
                    0 <= b < j && 0 <= c < pd[i as int].1[b].len() && (#[trigger] pd[i as int].1[b][c]) is NonTerminal
                        ==> has_key(pd, pd[i as int].1[b][c]),
            decreases pd[i as int].1.len() - j,
        {
            let option = &p[i].1[j];
            if option.len() == 0 {
                assert(pd[i as int].1[j as int].len() == 0);
                return false;
            }
            let mut k: usize = 0;
            while k < option.len()
                invariant
                    pd == p.deep_view(),
                    i < p.len(),
                    j < pd[i as int].1.len(),
                    option.deep_view() == pd[i as int].1[j as int],
                    k <= option.len(),
                    forall|c: int| 0 <= c < k && (#[trigger] pd[i as int].1[j as int][c]) is NonTerminal ==> has_key(
                        pd,
                        pd[i as int].1[j as int][c],
                    ),
                decreases option.len() - k,
            {
                if option[k].is_non_terminal() && find_key(p, &option[k]).is_none() {
                    assert(pd[i as int].1[j as int][k as int] == option@[k as int]@);
                    return false;
                }
                k += 1;
            }
            j += 1;
        }
        i += 1;
    }
    true
}

impl Grammar {
    #[verifier::type_invariant]
    spec fn wf(self) -> bool {
        let w = without_semantics(self.productions.deep_view());
        &&& distinct_keys(self.productions.deep_view())
        &&& self.production_without_semantics.deep_view() == w
        &&& distinct_keys(w)
        &&& self.follow_sets.len() == w.len()
        &&& table_sets(self.follow_sets.deep_view()) == follow_table(w, self.start@)
        &&& forall|k: int| 0 <= k < self.follow_sets.len() ==> (#[trigger] self.follow_sets.deep_view()[k]).no_duplicates()
    }

    /// Makes a grammar of `productions` whose start symbol is `start_symbol`, and
    /// computes its follow sets.
    pub fn new(productions: &ProductionMap, start_symbol: &Symbol) -> (g: Grammar)
        requires
            valid_grammar(productions.deep_view(), start_symbol@),
        ensures
            g@ == (GrammarModel { start: start_symbol@, productions: productions.deep_view() }),
    {
        let without = remove_semantics(productions);
        proof {
            lemma_without_semantics(productions.deep_view());
        }
        let follow = follow_sets(&without, start_symbol).unwrap();
        Grammar {
            start: start_symbol.clone(),
            productions: copy_productions(productions),
            follow_sets: follow,
            production_without_semantics: without,
        }
    }

    /// Makes a grammar of `productions` whose start symbol is `start_symbol`, and
    /// computes its follow sets; `None` where the productions do not make a grammar
    /// (`valid_grammar` says what they must be).
    pub fn try_new(productions: &ProductionMap, start_symbol: &Symbol) -> (r: Option<Grammar>)
        ensures
            match r {
                Some(g) => valid_grammar(productions.deep_view(), start_symbol@) && g@ == (GrammarModel {
                    start: start_symbol@,
                    productions: productions.deep_view(),
                }),
                None => !valid_grammar(productions.deep_view(), start_symbol@),
            },
    {
        if !keys_distinct(productions) {
            return None;
        }
        if find_key(productions, start_symbol).is_none() {
            return None;
        }
        if !options_well_formed(productions) {
            return None;
        }
        let without = remove_semantics(productions);
        proof {
            lemma_without_semantics(productions.deep_view());
        }
        match follow_sets(&without, start_symbol) {
            Some(follow) => Some(
                Grammar {
                    start: start_symbol.clone(),
                    productions: copy_productions(productions),
                    follow_sets: follow,
                    production_without_semantics: without,
                },
            ),
            None => None,
        }
    }

    /// The start symbol.
    pub fn start(&self) -> (r: &Symbol)
        ensures
            r@ == self@.start,
    {
        &self.start
    }

    /// The productions, semantic actions included.
    pub fn productions(&self) -> (r: &ProductionMap)
        ensures
            r.deep_view() == self@.productions,
            distinct_keys(self@.productions),
    {
        proof {
            use_type_invariant(self);
        }
        &self.productions
    }

    /// The follow set of the left-hand side `s`.
    pub fn follow(&self, s: &Symbol) -> (r: &Vec<Symbol>)
        requires
            has_key(model_without(self@), s@),
        ensures
            set_of(r.deep_view()) == grammar_follow(self@, s@),
            r.deep_view().no_duplicates(),
    {
        proof {
            use_type_invariant(self);
        }
        let k = find_key(&self.production_without_semantics, s).unwrap();
        proof {
            lemma_key_index(self.production_without_semantics.deep_view(), k as int);
            assert(table_sets(self.follow_sets.deep_view())[k as int] == set_of(self.follow_sets.deep_view()[k as int]));
        }
        &self.follow_sets[k]
    }

    /// The first set of `s`.
    pub fn first(&self, s: &Symbol) -> (r: Vec<Symbol>)
        requires
            first_defined(model_without(self@), s@),
        ensures
            set_of(r.deep_view()) == first_set(model_without(self@), s@),
            r.deep_view().no_duplicates(),
    {
        proof {
            use_type_invariant(self);
        }
        first(&self.production_without_semantics, s)
    }

    /// The first set of `s`; `None` where its computation fails.
    pub fn first_checked(&self, s: &Symbol) -> (r: Option<Vec<Symbol>>)
        ensures
            computed(r) == first_fuel(model_without(self@), s@, depth_bound(model_without(self@))),
            distinct_result(r),
    {
        proof {
            use_type_invariant(self);
        }
        first_checked(&self.production_without_semantics, s)
    }

    /// The first set of `sentence`; `None` where its computation fails.
    pub fn sentence_first_checked(&self, sentence: &Sentence) -> (r: Option<Vec<Symbol>>)
        ensures
            computed(r) == sentence_first_fuel(
                model_without(self@),
                sentence.deep_view(),
                depth_bound(model_without(self@)),
            ),
            distinct_result(r),
    {
        proof {
            use_type_invariant(self);
        }
        sentence_first_checked(&self.production_without_semantics, sentence)
    }

    /// Whether `s` has a follow set: whether it is the left-hand side of a production
    /// that is not a semantic action.
    pub fn has_follow(&self, s: &Symbol) -> (r: bool)
        ensures
            r == has_key(model_without(self@), s@),
    {
        proof {
            use_type_invariant(self);
        }
        find_key(&self.production_without_semantics, s).is_some()
    }

    /// The first set of `sentence`.
    pub fn sentence_first(&self, sentence: &Sentence) -> (r: Vec<Symbol>)
        requires
            sentence_first_defined(model_without(self@), sentence.deep_view()),
        ensures
            set_of(r.deep_view()) == sentence_first_set(model_without(self@), sentence.deep_view()),
            r.deep_view().no_duplicates(),
    {
        proof {
            use_type_invariant(self);
        }
        sentence_first(&self.production_without_semantics, sentence)
    }

    /// Option number `option` of the production of `non_terminal`.
    pub fn production(&self, non_terminal: &Symbol, option: usize) -> (r: &Sentence)
        requires
            has_key(self@.productions, non_terminal@),
            option < options_of(self@.productions, non_terminal@).len(),
        ensures
            r.deep_view() == options_of(self@.productions, non_terminal@)[option as int],
    {
        proof {
            use_type_invariant(self);
        }
        let k = find_key(&self.productions, non_terminal).unwrap();
        proof {
            lemma_key_index(self.productions.deep_view(), k as int);
        }
        &self.productions[k].1[option]
    }
}

/// One round of expansion keeps what every row held.
proof fn lemma_expand_once_grows(keys: Seq<SpecSymbol>, t: Seq<Set<SpecSymbol>>, i: int, x: SpecSymbol)
    requires
        0 <= i < t.len(),
        t[i].contains(x),
    ensures
        expand_once(keys, t).len() == t.len(),
        expand_once(keys, t)[i].contains(x),
{
}

/// The rounds of expansion keep what every row of the last round held, and the number
/// of rows.
proof fn lemma_expand_loop_grows(
    keys: Seq<SpecSymbol>,
    cur: Seq<Set<SpecSymbol>>,
    next: Seq<Set<SpecSymbol>>,
    it: nat,
    i: int,
    x: SpecSymbol,
)
    requires
        0 <= i < next.len(),
        next[i].contains(x),
    ensures
        expand_loop(keys, cur, next, it).len() == next.len(),
        expand_loop(keys, cur, next, it)[i].contains(x),
    decreases MAX_FOLLOW_EXPANSIONS - it,
{
    if cur != next && it < MAX_FOLLOW_EXPANSIONS {
        lemma_expand_once_grows(keys, next, i, x);
        lemma_expand_loop_grows(keys, next, expand_once(keys, next), it + 1, i, x);
    }
}

/// The rounds of expansion keep the number of rows.
pub proof fn lemma_expand_loop_len(keys: Seq<SpecSymbol>, cur: Seq<Set<SpecSymbol>>, next: Seq<Set<SpecSymbol>>, it: nat)
    ensures
        expand_loop(keys, cur, next, it).len() == next.len(),
    decreases MAX_FOLLOW_EXPANSIONS - it,
{
    if cur != next && it < MAX_FOLLOW_EXPANSIONS {
        lemma_expand_loop_len(keys, next, expand_once(keys, next), it + 1);
    }
}

/// The follow set of the start symbol holds the end of the stream.
pub proof fn law_start_followed_by_end(p: SpecProductions, start: SpecSymbol)
    requires
        valid_grammar(p, start),
        !(start is SemanticAction),
    ensures
        grammar_follow(GrammarModel { start, productions: p }, start).contains(SpecSymbol::Eos),
{
    let w = without_semantics(p);
    lemma_without_semantics(p);
    let j = choose|j: int| 0 <= j < p.len() && p[j].0 == start;
    assert(has_key(w, p[j].0));
    let k = key_index(w, start);
    let u = unexpanded_table(w, start);
    assert(unexpanded_follow_spec(w, start, w[k].0) is Some);
    assert(u[k].contains(SpecSymbol::Eos));
    lemma_expand_once_grows(keys_of(w), u, k, SpecSymbol::Eos);
    lemma_expand_loop_grows(keys_of(w), u, expand_once(keys_of(w), u), 0, k, SpecSymbol::Eos);
}

/// Follow sets hold no non terminal.
pub proof fn law_follow_without_non_terminals(p: SpecProductions, start: SpecSymbol, s: SpecSymbol, x: SpecSymbol)
    requires
        valid_grammar(p, start),
        has_key(without_semantics(p), s),
        grammar_follow(GrammarModel { start, productions: p }, s).contains(x),
    ensures
        !(x is NonTerminal),
{
    let w = without_semantics(p);
    lemma_without_semantics(p);
    let k = key_index(w, s);
    let u = unexpanded_table(w, start);
    lemma_expand_loop_len(keys_of(w), u, expand_once(keys_of(w), u), 0);
}

/// The first set of a terminal, of the end of the stream or of the empty sentence is
/// that symbol alone.
pub proof fn law_first_of_terminal(p: SpecProductions, s: SpecSymbol)
    requires
        s is Terminal || s is Eos || s is Epsilon,
    ensures
        first_defined(p, s),
        first_set(p, s) == set![s],
{
}

/// The first set of a sentence of one symbol (not a semantic action) is that of the
/// symbol.
pub proof fn law_sentence_first_of_one(p: SpecProductions, s: SpecSymbol)
    requires
        !(s is SemanticAction),
    ensures
        sentence_first_defined(p, seq![s]) == first_defined(p, s),
        first_defined(p, s) ==> sentence_first_set(p, seq![s]) == first_set(p, s),
{
    let f = seq![s];
    assert(f.skip(1) =~= Seq::<SpecSymbol>::empty());
    assert(strip_actions(f.skip(1)) =~= Seq::<SpecSymbol>::empty());
    assert(strip_actions(f) =~= f);
    assert(chain_first(p, f, 0, depth_bound(p)) == Some(Set::<SpecSymbol>::empty()));
    match first_fuel(p, s, depth_bound(p)) {
        Some(h) => {
            assert(h.union(Set::<SpecSymbol>::empty()) =~= h);
        },
        None => {},
    }
}

/// The option `j` of the production of `a`, its semantic actions removed.
pub open spec fn option_of(p: SpecProductions, a: SpecSymbol, j: int) -> SpecSentence {
    options_of(without_semantics(p), a)[j]
}

/// What the production `i` of `entries` adds to the follow set of `s` is part of what
/// they all add.
proof fn lemma_entries_follow_part(p: SpecProductions, entries: SpecProductions, s: SpecSymbol, fuel: nat, i: int)
    requires
        crate::grammar_spec::entries_follow(p, entries, s, fuel) is Some,
        0 <= i < entries.len(),
    ensures
        crate::grammar_spec::options_follow(p, entries[i].0, entries[i].1, s, fuel) matches Some(x) && x.subset_of(
            crate::grammar_spec::entries_follow(p, entries, s, fuel)->0,
        ),
    decreases i,
{
    if i > 0 {
        lemma_entries_follow_part(p, entries.skip(1), s, fuel, i - 1);
        assert(entries.skip(1)[i - 1] == entries[i]);
    }
}

/// What the option `j` of `x` adds to the follow set of `s` is part of what its options
/// add.
proof fn lemma_options_follow_part(p: SpecProductions, x: SpecSymbol, opts: Seq<SpecSentence>, s: SpecSymbol, fuel: nat, j: int)
    requires
        crate::grammar_spec::options_follow(p, x, opts, s, fuel) is Some,
        0 <= j < opts.len(),
    ensures
        crate::grammar_spec::option_follow(p, x, opts[j], s, fuel) matches Some(y) && y.subset_of(
            crate::grammar_spec::options_follow(p, x, opts, s, fuel)->0,
        ),
    decreases j,
{
    if j > 0 {
        lemma_options_follow_part(p, x, opts.skip(1), s, fuel, j - 1);
        assert(opts.skip(1)[j - 1] == opts[j]);
    }
}

/// What position `n` of `f` adds to the follow set of `s` is part of what the positions
/// from `m` on add.
proof fn lemma_positions_follow_part(
    p: SpecProductions,
    x: SpecSymbol,
    f: SpecSentence,
    m: int,
    n: int,
    s: SpecSymbol,
    fuel: nat,
)
    requires
        crate::grammar_spec::positions_follow(p, x, f, m, s, fuel) is Some,
        0 <= m <= n < f.len(),
    ensures
        crate::grammar_spec::position_follow(p, x, f, n, s, fuel) matches Some(y) && y.subset_of(
            crate::grammar_spec::positions_follow(p, x, f, m, s, fuel)->0,
        ),
    decreases n - m,
{
    if m < n {
        lemma_positions_follow_part(p, x, f, m + 1, n, s, fuel);
    }
}

/// The follow set of `b` holds what the unexpanded follow set of `b` holds, but its
/// non terminals.
proof fn lemma_follow_holds_unexpanded(p: SpecProductions, start: SpecSymbol, b: SpecSymbol, x: SpecSymbol)
    requires
        valid_grammar(p, start),
        has_key(without_semantics(p), b),
        unexpanded_table(without_semantics(p), start)[key_index(without_semantics(p), b)].contains(x),
    ensures
        crate::grammar_spec::expanded_table(without_semantics(p), start).len() == without_semantics(p).len(),
        crate::grammar_spec::expanded_table(without_semantics(p), start)[key_index(without_semantics(p), b)].contains(x),
        !(x is NonTerminal) ==> grammar_follow(GrammarModel { start, productions: p }, b).contains(x),
{
    let w = without_semantics(p);
    let u = unexpanded_table(w, start);
    let kb = key_index(w, b);
    lemma_expand_once_grows(keys_of(w), u, kb, x);
    lemma_expand_loop_grows(keys_of(w), u, expand_once(keys_of(w), u), 0, kb, x);
}

/// Where the option `j` of `a` (semantic actions removed) holds `b` at position `n`,
/// what follows that position has a first set, and the follow set of `b` holds that
/// first set without the empty sentence. Where, moreover, nothing follows the position
/// or all that follows can derive the empty sentence, the follow set of `b` holds the
/// follow set of `a`, once the rounds of expansion of the follow sets have settled.
pub proof fn law_follow_closure(p: SpecProductions, start: SpecSymbol, a: SpecSymbol, b: SpecSymbol, j: int, n: int)
    requires
        valid_grammar(p, start),
        has_key(without_semantics(p), a),
        has_key(without_semantics(p), b),
        a is NonTerminal,
        0 <= j < options_of(without_semantics(p), a).len(),
        0 <= n < option_of(p, a, j).len(),
        option_of(p, a, j)[n] == b,
    ensures
        sentence_first_defined(without_semantics(p), option_of(p, a, j).skip(n + 1)),
        forall|x: SpecSymbol|
            #[trigger] sentence_first_set(without_semantics(p), option_of(p, a, j).skip(n + 1)).contains(x) && x
                != SpecSymbol::Epsilon ==> grammar_follow(GrammarModel { start, productions: p }, b).contains(x),
        crate::grammar_spec::follow_settled(without_semantics(p), start) && (n + 1 == option_of(p, a, j).len()
            || sentence_first_set(without_semantics(p), option_of(p, a, j).skip(n + 1)).contains(
            SpecSymbol::Epsilon,
        )) ==> forall|y: SpecSymbol|
            #[trigger] grammar_follow(GrammarModel { start, productions: p }, a).contains(y) ==> grammar_follow(
                GrammarModel { start, productions: p },
                b,
            ).contains(y),
{
    let w = without_semantics(p);
    let m = GrammarModel { start, productions: p };
    let fuel = depth_bound(w);
    lemma_without_semantics(p);
    let ka = key_index(w, a);
    let kb = key_index(w, b);
    lemma_key_index(w, ka);
    lemma_key_index(w, kb);
    let o = option_of(p, a, j);
    let rest = o.skip(n + 1);
    // The option holds no semantic action.
    let jj = choose|jj: int|
        #![trigger p[jj]]
        0 <= jj < p.len() && w[ka].0 == p[jj].0 && !(p[jj].0 is SemanticAction) && w[ka].1 == strip_options(p[jj].1);
    assert(o == strip_actions(p[jj].1[j]));
    crate::grammar_spec::lemma_strip_actions_plain(p[jj].1[j]);
    crate::grammar_spec::lemma_strip_actions_of_plain(o);
    // What the position adds to the unexpanded follow set of `b`.
    assert(unexpanded_follow_spec(w, start, w[kb].0) is Some);
    let e = crate::grammar_spec::entries_follow(w, w, b, fuel)->0;
    lemma_entries_follow_part(w, w, b, fuel, ka);
    lemma_options_follow_part(w, a, w[ka].1, b, fuel, j);
    let of = crate::grammar_spec::option_follow(w, a, o, b, fuel)->0;
    let pf = crate::grammar_spec::positions_follow(w, a, o, 0, b, fuel)->0;
    let u = unexpanded_table(w, start);
    assert(e.subset_of(u[kb]));
    assert(of.subset_of(u[kb]));
    assert(pf.subset_of(u[kb]));
    if n + 1 < o.len() {
        lemma_positions_follow_part(w, a, o, 0, n, b, fuel);
        assert(sentence_first_defined(w, rest));
    } else {
        assert(rest =~= Seq::<SpecSymbol>::empty());
        assert(strip_actions(rest) =~= Seq::<SpecSymbol>::empty());
        assert(sentence_first_fuel(w, rest, fuel) == Some(Set::<SpecSymbol>::empty()));
        assert(o.last() == b);
        assert(u[kb].contains(a));
    }
    let f = sentence_first_set(w, rest);
    if rest.len() > 0 {
        crate::grammar_spec::lemma_option_first_plain(w, strip_actions(rest), fuel);
    }
    assert forall|x: SpecSymbol| #[trigger] f.contains(x) && x != SpecSymbol::Epsilon implies grammar_follow(
        m,
        b,
    ).contains(x) by {
        assert(u[kb].contains(x));
        lemma_follow_holds_unexpanded(p, start, b, x);
    }
    if crate::grammar_spec::follow_settled(w, start) && (n + 1 == o.len() || f.contains(SpecSymbol::Epsilon)) {
        assert(u[kb].contains(a));
        lemma_follow_holds_unexpanded(p, start, b, a);
        let t = crate::grammar_spec::expanded_table(w, start);
        let keys = keys_of(w);
        assert forall|y: SpecSymbol| #[trigger] grammar_follow(m, a).contains(y) implies grammar_follow(m, b).contains(
            y,
        ) by {
            if a != b {
                assert(t[ka].contains(y));
                assert(keys[ka] == a);
                assert(t[kb].contains(keys[ka]));
                assert(crate::grammar_spec::merged_from(keys, t, kb, t[kb]).contains(y));
                assert(expand_once(keys, t)[kb].contains(y));
            }
        }
    }
}

/// A symbol that a follow set may hold before its non terminals are removed: neither
/// the empty sentence nor a semantic action.
pub open spec fn follow_symbol(x: SpecSymbol) -> bool {
    !(x is Epsilon) && !(x is SemanticAction)
}

/// Every symbol of `x` may stand in a follow set.
pub open spec fn follow_symbols(x: Set<SpecSymbol>) -> bool {
    forall|y: SpecSymbol| #[trigger] x.contains(y) ==> follow_symbol(y)
}

/// Every row of `t` holds only symbols that may stand in a follow set.
pub open spec fn rows_follow_symbols(t: Seq<Set<SpecSymbol>>) -> bool {
    forall|i: int| 0 <= i < t.len() ==> follow_symbols(#[trigger] t[i])
}

proof fn lemma_sentence_first_plain(p: SpecProductions, r: SpecSentence, fuel: nat)
    ensures
        sentence_first_fuel(p, r, fuel) matches Some(a) ==> crate::grammar_spec::no_non_terminal(a),
{
    if strip_actions(r).len() > 0 {
        crate::grammar_spec::lemma_option_first_plain(p, strip_actions(r), fuel);
    }
}

proof fn lemma_position_follow_symbols(p: SpecProductions, x: SpecSymbol, f: SpecSentence, n: int, s: SpecSymbol, fuel: nat)
    requires
        follow_symbol(x),
    ensures
        crate::grammar_spec::position_follow(p, x, f, n, s, fuel) matches Some(y) ==> follow_symbols(y),
{
    if 0 <= n && n + 1 < f.len() && f[n] == s {
        lemma_sentence_first_plain(p, f.skip(n + 1), fuel);
    }
}

proof fn lemma_positions_follow_symbols(p: SpecProductions, x: SpecSymbol, f: SpecSentence, n: int, s: SpecSymbol, fuel: nat)
    requires
        follow_symbol(x),
    ensures
        crate::grammar_spec::positions_follow(p, x, f, n, s, fuel) matches Some(y) ==> follow_symbols(y),
    decreases f.len() - n,
{
    if !(n < 0 || n >= f.len()) {
        lemma_position_follow_symbols(p, x, f, n, s, fuel);
        lemma_positions_follow_symbols(p, x, f, n + 1, s, fuel);
    }
}

proof fn lemma_options_follow_symbols(p: SpecProductions, x: SpecSymbol, opts: Seq<SpecSentence>, s: SpecSymbol, fuel: nat)
    requires
        follow_symbol(x),
    ensures
        crate::grammar_spec::options_follow(p, x, opts, s, fuel) matches Some(y) ==> follow_symbols(y),
    decreases opts.len(),
{
    if opts.len() > 0 {
        lemma_positions_follow_symbols(p, x, strip_actions(opts[0]), 0, s, fuel);
        lemma_options_follow_symbols(p, x, opts.skip(1), s, fuel);
    }
}

proof fn lemma_entries_follow_symbols(p: SpecProductions, entries: SpecProductions, s: SpecSymbol, fuel: nat)
    requires
        forall|i: int| 0 <= i < entries.len() ==> follow_symbol(#[trigger] entries[i].0),
    ensures
        crate::grammar_spec::entries_follow(p, entries, s, fuel) matches Some(y) ==> follow_symbols(y),
    decreases entries.len(),
{
    if entries.len() > 0 {
        assert(follow_symbol(entries[0].0));
        lemma_options_follow_symbols(p, entries[0].0, entries[0].1, s, fuel);
        assert forall|i: int| 0 <= i < entries.skip(1).len() implies follow_symbol(#[trigger] entries.skip(1)[i].0) by {
            assert(entries.skip(1)[i] == entries[i + 1]);
        }
        lemma_entries_follow_symbols(p, entries.skip(1), s, fuel);
    }
}

proof fn lemma_expand_loop_symbols(keys: Seq<SpecSymbol>, cur: Seq<Set<SpecSymbol>>, next: Seq<Set<SpecSymbol>>, it: nat)
    requires
        rows_follow_symbols(next),
    ensures
        rows_follow_symbols(expand_loop(keys, cur, next, it)),
    decreases MAX_FOLLOW_EXPANSIONS - it,
{
    if cur != next && it < MAX_FOLLOW_EXPANSIONS {
        let e = expand_once(keys, next);
        assert forall|i: int| 0 <= i < e.len() implies follow_symbols(#[trigger] e[i]) by {
            assert forall|y: SpecSymbol| #[trigger] e[i].contains(y) implies follow_symbol(y) by {
                if !next[i].contains(y) {
                    let j = choose|j: int|
                        0 <= j < keys.len() && j < next.len() && next[i].contains(#[trigger] keys[j])
                            && keys[j] is NonTerminal && keys[j] != keys[i] && next[j].contains(y);
                    assert(follow_symbols(next[j]));
                }
            }
        }
        lemma_expand_loop_symbols(keys, next, e, it + 1);
    }
}

/// Follow sets hold terminals and the end of the stream only, where no production has
/// the empty sentence as its left-hand side.
pub proof fn law_follow_terminals(p: SpecProductions, start: SpecSymbol, s: SpecSymbol, x: SpecSymbol)
    requires
        valid_grammar(p, start),
        forall|i: int| 0 <= i < p.len() ==> !(#[trigger] p[i].0 is Epsilon),
        has_key(without_semantics(p), s),
        grammar_follow(GrammarModel { start, productions: p }, s).contains(x),
    ensures
        x is Terminal || x is Eos,
{
    let w = without_semantics(p);
    let fuel = depth_bound(w);
    lemma_without_semantics(p);
    assert forall|i: int| 0 <= i < w.len() implies follow_symbol(#[trigger] w[i].0) by {
        let j = choose|j: int| #![trigger p[j]] 0 <= j < p.len() && w[i].0 == p[j].0 && !(p[j].0 is SemanticAction)
            && w[i].1 == strip_options(p[j].1);
        assert(!(p[j].0 is Epsilon));
    }
    let u = unexpanded_table(w, start);
    assert forall|i: int| 0 <= i < u.len() implies follow_symbols(#[trigger] u[i]) by {
        assert(unexpanded_follow_spec(w, start, w[i].0) is Some);
        lemma_entries_follow_symbols(w, w, w[i].0, fuel);
    }
    let e = expand_once(keys_of(w), u);
    assert forall|i: int| 0 <= i < e.len() implies follow_symbols(#[trigger] e[i]) by {
        assert forall|y: SpecSymbol| #[trigger] e[i].contains(y) implies follow_symbol(y) by {
            if !u[i].contains(y) {
                let j = choose|j: int|
                    0 <= j < keys_of(w).len() && j < u.len() && u[i].contains(#[trigger] keys_of(w)[j])
                        && keys_of(w)[j] is NonTerminal && keys_of(w)[j] != keys_of(w)[i] && u[j].contains(y);
                assert(follow_symbols(u[j]));
            }
        }
    }
    lemma_expand_loop_symbols(keys_of(w), u, e, 0);
    lemma_expand_loop_len(keys_of(w), u, e, 0);
    let t = crate::grammar_spec::expanded_table(w, start);
    let k = key_index(w, s);
    assert(t[k].contains(x));
    assert(follow_symbols(t[k]));
}

} // verus!
