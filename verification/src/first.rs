//! Computation of first sets.
use crate::grammar_spec::{
    all_nullable, chain_first, depth_bound, distinct_keys, first_defined, first_fuel, first_set,
    has_key, lemma_key_index, option_first, options_first, sentence_first_defined,
    sentence_first_fuel, sentence_first_set, strip_actions,
};
use crate::symbol::{SpecSymbol, Symbol};
use crate::symbol_set::{
    computed, contains_symbol, distinct_result, insert_symbol, joined_with, set_of, union_into,
    union_into_except_epsilon,
};
use vstd::prelude::*;

verus! {

/// A right-hand side of a production.
pub type Sentence = Vec<Symbol>;

/// The productions of a grammar: each left-hand side with its options.
pub type ProductionMap = Vec<(Symbol, Vec<Sentence>)>;

/// The position of the production of `s`, if there is one.
pub fn find_key(p: &ProductionMap, s: &Symbol) -> (r: Option<usize>)
    ensures
        match r {
            Some(i) => i < p.len() && p.deep_view()[i as int].0 == s@,
            None => !has_key(p.deep_view(), s@),
        },
{
    let mut i: usize = 0;
    while i < p.len()
        invariant
            i <= p.len(),
            forall|j: int| 0 <= j < i ==> p.deep_view()[j].0 != s@,
        decreases p.len() - i,
    {
        if p[i].0 == *s {
            return Some(i);
        }
        i += 1;
    }
    None
}

/// A copy of a sentence.
pub fn copy_sentence(s: &Sentence) -> (r: Sentence)
    ensures
        r.deep_view() == s.deep_view(),
{
    let mut r: Vec<Symbol> = Vec::new();
    let mut i: usize = 0;
    while i < s.len()
        invariant
            i <= s.len(),
            r.deep_view() == s.deep_view().take(i as int),
        decreases s.len() - i,
    {
        let ghost before = r.deep_view();
        let x = s[i].clone();
        r.push(x);
        assert(r.deep_view() =~= before.push(s.deep_view()[i as int]));
        assert(s.deep_view().take(i + 1) =~= s.deep_view().take(i as int).push(s.deep_view()[i as int]));
        i += 1;
    }
    assert(s.deep_view().take(i as int) =~= s.deep_view());
    r
}

/// The sentence without its semantic actions.
pub fn strip_sentence(s: &Sentence) -> (r: Sentence)
    ensures
        r.deep_view() == strip_actions(s.deep_view()),
{
    let ghost sd = s.deep_view();
    let mut r: Vec<Symbol> = Vec::new();
    let mut i: usize = 0;
    assert(sd.skip(0) =~= sd);
    while i < s.len()
        invariant
            i <= s.len(),
            sd == s.deep_view(),
            strip_actions(sd) == r.deep_view() + strip_actions(sd.skip(i as int)),
        decreases s.len() - i,
    {
        assert(sd.skip(i as int).skip(1) =~= sd.skip(i + 1));
        assert(sd.skip(i as int)[0] == sd[i as int]);
        if !s[i].is_action() {
            let ghost before = r.deep_view();
            r.push(s[i].clone());
            assert(r.deep_view() =~= before + seq![sd[i as int]]);
            assert(before + (seq![sd[i as int]] + strip_actions(sd.skip(i + 1))) =~= r.deep_view()
                + strip_actions(sd.skip(i + 1)));
        }
        i += 1;
    }
    assert(sd.skip(i as int) =~= Seq::<SpecSymbol>::empty());
    assert(r.deep_view() + Seq::<SpecSymbol>::empty() =~= r.deep_view());
    r
}

/// The first set of `s`, with at most `fuel` nested non terminals; `None` where the
/// computation fails.
fn first_rec(p: &ProductionMap, s: &Symbol, fuel: usize) -> (r: Option<Vec<Symbol>>)
    requires
        distinct_keys(p.deep_view()),
    ensures
        computed(r) == first_fuel(p.deep_view(), s@, fuel as nat),
        distinct_result(r),
    decreases fuel, 0int, 0int,
{
    match s {
        Symbol::NonTerminal(_) => {
            if fuel == 0 {
                return None;
            }
            match find_key(p, s) {
                Some(k) => {
                    proof {
                        lemma_key_index(p.deep_view(), k as int);
                    }
                    options_first_exec(p, &p[k].1, fuel - 1)
                },
                None => None,
            }
        },
        Symbol::SemanticAction(_) => {
            let r: Vec<Symbol> = Vec::new();
            assert(set_of(r.deep_view()) =~= Set::empty());
            Some(r)
        },
        _ => {
            let mut r: Vec<Symbol> = Vec::new();
            r.push(s.clone());
            assert(r.deep_view() =~= Seq::<SpecSymbol>::empty().push(s@));
            proof {
                crate::symbol_set::lemma_push_to_set(Seq::<SpecSymbol>::empty(), s@);
                assert(set_of(Seq::<SpecSymbol>::empty()) =~= Set::empty());
                assert(Set::<SpecSymbol>::empty().insert(s@) =~= set![s@]);
            }
            Some(r)
        },
    }
}

/// The union of the contributions of the options `opts`.
fn options_first_exec(p: &ProductionMap, opts: &Vec<Sentence>, fuel: usize) -> (r: Option<Vec<Symbol>>)
    requires
        distinct_keys(p.deep_view()),
    ensures
        computed(r) == options_first(p.deep_view(), opts.deep_view(), fuel as nat),
        distinct_result(r),
    decreases fuel, 3int, 0int,
{
    let ghost pd = p.deep_view();
    let ghost od = opts.deep_view();
    let mut result: Vec<Symbol> = Vec::new();
    let mut j: usize = 0;
    assert(od.skip(0) =~= od);
    assert(set_of(result.deep_view()) =~= Set::empty());
    proof {
        match options_first(pd, od, fuel as nat) {
            Some(x) => {
                assert(Set::<SpecSymbol>::empty().union(x) =~= x);
            },
            None => {},
        }
    }
    while j < opts.len()
        invariant
            j <= opts.len(),
            pd == p.deep_view(),
            od == opts.deep_view(),
            distinct_keys(pd),
            options_first(pd, od, fuel as nat) == joined_with(
                set_of(result.deep_view()),
                options_first(pd, od.skip(j as int), fuel as nat),
            ),
            result.deep_view().no_duplicates(),
        decreases opts.len() - j,
    {
        assert(od.skip(j as int)[0] == od[j as int]);
        assert(od.skip(j as int).skip(1) =~= od.skip(j + 1));
        let f = strip_sentence(&opts[j]);
        match option_first_exec(p, &f, fuel) {
            Some(c) => {
                let ghost before = set_of(result.deep_view());
                union_into(&mut result, &c);
                proof {
                    match options_first(pd, od.skip(j + 1), fuel as nat) {
                        Some(later) => {
                            assert(set_of(result.deep_view()).union(later) =~= before.union(
                                set_of(c.deep_view()).union(later),
                            ));
                        },
                        None => {},
                    }
                }
            },
            None => {
                return None;
            },
        }
        j += 1;
    }
    assert(od.skip(j as int) =~= Seq::<Seq<SpecSymbol>>::empty());
    assert(set_of(result.deep_view()).union(Set::empty()) =~= set_of(result.deep_view()));
    Some(result)
}

/// The contribution of the option `f` (without semantic actions).
fn option_first_exec(p: &ProductionMap, f: &Sentence, fuel: usize) -> (r: Option<Vec<Symbol>>)
    requires
        distinct_keys(p.deep_view()),
    ensures
        computed(r) == option_first(p.deep_view(), f.deep_view(), fuel as nat),
        distinct_result(r),
    decreases fuel, 2int, 0int,
{
    if f.len() == 0 {
        return None;
    }
    let (h, c, nullable) = match lead_and_chain(p, f, fuel) {
        Some(x) => x,
        None => {
            return None;
        },
    };
    let mut result: Vec<Symbol> = Vec::new();
    union_into_except_epsilon(&mut result, &h);
    union_into(&mut result, &c);
    if nullable {
        insert_symbol(&mut result, Symbol::Epsilon);
    }
    let ghost eps: Set<SpecSymbol> = if nullable {
        set![SpecSymbol::Epsilon]
    } else {
        Set::empty()
    };
    assert(set_of(result.deep_view()) =~= Set::empty().union(set_of(h.deep_view()).remove(
        SpecSymbol::Epsilon,
    )).union(set_of(c.deep_view())).union(eps));
    assert(Set::<SpecSymbol>::empty().union(set_of(h.deep_view()).remove(SpecSymbol::Epsilon))
        =~= set_of(h.deep_view()).remove(SpecSymbol::Epsilon));
    Some(result)
}

/// For a non-empty sentence `f` without semantic actions: the first set of its leading
/// symbol, the chained first sets of the symbols after it, and whether every symbol's
/// first set holds the empty sentence; `None` where one of the first sets fails.
fn lead_and_chain(p: &ProductionMap, f: &Sentence, fuel: usize) -> (r: Option<(Vec<Symbol>, Vec<Symbol>, bool)>)
    requires
        distinct_keys(p.deep_view()),
        f.len() > 0,
    ensures
        match r {
            Some((h, c, n)) => {
                &&& first_fuel(p.deep_view(), f.deep_view()[0], fuel as nat) == Some(set_of(h.deep_view()))
                &&& chain_first(p.deep_view(), f.deep_view(), 0, fuel as nat) == Some(set_of(c.deep_view()))
                &&& n == all_nullable(p.deep_view(), f.deep_view(), 0, fuel as nat)
                &&& h.deep_view().no_duplicates()
                &&& c.deep_view().no_duplicates()
            },
            None => first_fuel(p.deep_view(), f.deep_view()[0], fuel as nat) is None || chain_first(
                p.deep_view(),
                f.deep_view(),
                0,
                fuel as nat,
            ) is None,
        },
    decreases fuel, 1int, 0int,
{
    let ghost pd = p.deep_view();
    let ghost fd = f.deep_view();
    let ghost fu = fuel as nat;
    let h = match first_rec(p, &f[0], fuel) {
        Some(h) => h,
        None => {
            return None;
        },
    };
    let lead = copy_sentence(&h);
    let mut chain: Vec<Symbol> = Vec::new();
    let mut cur = h;
    let mut i: usize = 0;
    let mut stopped = false;
    let ghost mut acc: Set<SpecSymbol> = Set::empty();
    assert(set_of(chain.deep_view()) =~= Set::empty());
    proof {
        match chain_first(pd, fd, 0, fu) {
            Some(x) => {
                assert(acc.union(x) =~= x);
            },
            None => {},
        }
    }
    while i + 1 < f.len() && !stopped
        invariant
            pd == p.deep_view(),
            fd == f.deep_view(),
            fu == fuel as nat,
            distinct_keys(pd),
            0 <= i < f.len(),
            first_fuel(pd, fd[0], fu) == Some(set_of(lead.deep_view())),
            lead.deep_view().no_duplicates(),
            first_fuel(pd, fd[i as int], fu) == Some(set_of(cur.deep_view())),
            chain_first(pd, fd, 0, fu) == joined_with(acc, chain_first(pd, fd, i as int, fu)),
            set_of(chain.deep_view()) == acc,
            chain.deep_view().no_duplicates(),
            all_nullable(pd, fd, 0, fu) == all_nullable(pd, fd, i as int, fu),
            stopped ==> i + 1 < f.len() && !set_of(cur.deep_view()).contains(SpecSymbol::Epsilon),
        decreases f.len() - i, if stopped { 0int } else { 1int },
    {
        if contains_symbol(&cur, &Symbol::Epsilon) {
            let next = match first_rec(p, &f[i + 1], fuel) {
                Some(next) => next,
                None => {
                    return None;
                },
            };
            union_into_except_epsilon(&mut chain, &next);
            proof {
                let a = set_of(next.deep_view()).remove(SpecSymbol::Epsilon);
                match chain_first(pd, fd, i + 1, fu) {
                    Some(b) => {
                        assert(chain_first(pd, fd, i as int, fu) == Some(a.union(b)));
                        assert(acc.union(a.union(b)) =~= acc.union(a).union(b));
                    },
                    None => {},
                }
                acc = acc.union(a);
            }
            cur = next;
            i += 1;
        } else {
            stopped = true;
        }
    }
    assert(chain_first(pd, fd, i as int, fu) == Some(Set::<SpecSymbol>::empty()));
    assert(acc.union(Set::<SpecSymbol>::empty()) =~= acc);
    let nullable = !stopped && contains_symbol(&cur, &Symbol::Epsilon);
    proof {
        if !stopped {
            assert(all_nullable(pd, fd, i + 1, fu));
        }
        assert(all_nullable(pd, fd, i as int, fu) == nullable);
    }
    Some((lead, chain, nullable))
}

/// The first set of `s` in the productions `p`; `None` where its computation fails.
pub fn first_checked(p: &ProductionMap, s: &Symbol) -> (r: Option<Vec<Symbol>>)
    requires
        distinct_keys(p.deep_view()),
    ensures
        computed(r) == first_fuel(p.deep_view(), s@, depth_bound(p.deep_view())),
        distinct_result(r),
{
    first_rec(p, s, p.len())
}

/// The first set of `s` in the productions `p`.
pub fn first(p: &ProductionMap, s: &Symbol) -> (r: Vec<Symbol>)
    requires
        distinct_keys(p.deep_view()),
        first_defined(p.deep_view(), s@),
    ensures
        set_of(r.deep_view()) == first_set(p.deep_view(), s@),
        r.deep_view().no_duplicates(),
{
    first_checked(p, s).unwrap()
}

/// The first set of the sentence `sentence` in the productions `p`; `None` where its
/// computation fails.
pub fn sentence_first_checked(p: &ProductionMap, sentence: &Sentence) -> (r: Option<Vec<Symbol>>)
    requires
        distinct_keys(p.deep_view()),
    ensures
        computed(r) == sentence_first_fuel(p.deep_view(), sentence.deep_view(), depth_bound(p.deep_view())),
        distinct_result(r),
{
    let f = strip_sentence(sentence);
    if f.len() == 0 {
        let r: Vec<Symbol> = Vec::new();
        assert(set_of(r.deep_view()) =~= Set::empty());
        return Some(r);
    }
    option_first_exec(p, &f, p.len())
}

/// The first set of the sentence `sentence` in the productions `p`.
pub fn sentence_first(p: &ProductionMap, sentence: &Sentence) -> (r: Vec<Symbol>)
    requires
        distinct_keys(p.deep_view()),
        sentence_first_defined(p.deep_view(), sentence.deep_view()),
    ensures
        set_of(r.deep_view()) == sentence_first_set(p.deep_view(), sentence.deep_view()),
        r.deep_view().no_duplicates(),
{
    sentence_first_checked(p, sentence).unwrap()
}

} // verus!
