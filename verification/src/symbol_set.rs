//! Finite sets of symbols, held as vectors without duplicates.
use crate::symbol::{SpecSymbol, Symbol};
use vstd::prelude::*;

verus! {

/// The set of symbols that a vector holds.
pub open spec fn set_of(v: Seq<SpecSymbol>) -> Set<SpecSymbol> {
    v.to_set()
}

/// The set that a computation gave, or `None` where it failed.
pub open spec fn computed(r: Option<Vec<Symbol>>) -> Option<Set<SpecSymbol>> {
    match r {
        Some(v) => Some(set_of(v.deep_view())),
        None => None,
    }
}

/// A computed vector holds no symbol twice.
pub open spec fn distinct_result(r: Option<Vec<Symbol>>) -> bool {
    match r {
        Some(v) => v.deep_view().no_duplicates(),
        None => true,
    }
}

/// `a` joined with the set `o`, where `o` was computed.
pub open spec fn joined_with(a: Set<SpecSymbol>, o: Option<Set<SpecSymbol>>) -> Option<Set<SpecSymbol>> {
    match o {
        Some(b) => Some(a.union(b)),
        None => None,
    }
}

/// Pushing onto a sequence adds the element to its set.
pub proof fn lemma_push_to_set(s: Seq<SpecSymbol>, x: SpecSymbol)
    ensures
        set_of(s.push(x)) == set_of(s).insert(x),
{
    assert forall|y: SpecSymbol| set_of(s.push(x)).contains(y) <==> set_of(s).insert(x).contains(y) by {
        if s.contains(y) {
            let i = choose|i: int| 0 <= i < s.len() && s[i] == y;
            assert(s.push(x)[i] == y);
        }
        if y == x {
            assert(s.push(x)[s.len() as int] == y);
        }
        if s.push(x).contains(y) {
            let i = choose|i: int| 0 <= i < s.len() + 1 && s.push(x)[i] == y;
            if i < s.len() {
                assert(s[i] == y);
            }
        }
    }
    assert(set_of(s.push(x)) =~= set_of(s).insert(x));
}

/// Whether `v` holds `s`.
pub fn contains_symbol(v: &Vec<Symbol>, s: &Symbol) -> (r: bool)
    ensures
        r == v.deep_view().contains(s@),
{
    let mut i: usize = 0;
    while i < v.len()
        invariant
            i <= v.len(),
            forall|j: int| 0 <= j < i ==> v.deep_view()[j] != s@,
        decreases v.len() - i,
    {
        if v[i] == *s {
            assert(v.deep_view()[i as int] == s@);
            return true;
        }
        i += 1;
    }
    false
}

/// Adds `s` to the set held by `v`, unless it is there already.
pub fn insert_symbol(v: &mut Vec<Symbol>, s: Symbol)
    ensures
        set_of(final(v).deep_view()) == set_of(old(v).deep_view()).insert(s@),
        old(v).deep_view().no_duplicates() ==> final(v).deep_view().no_duplicates(),
{
    if !contains_symbol(v, &s) {
        let ghost before = v.deep_view();
        let ghost sv = s@;
        v.push(s);
        assert(v.deep_view() =~= before.push(sv));
        proof { lemma_push_to_set(before, sv); }
    } else {
        assert(set_of(v.deep_view()) =~= set_of(v.deep_view()).insert(s@));
    }
}

/// Adds every symbol of `src` to the set held by `dst`.
pub fn union_into(dst: &mut Vec<Symbol>, src: &Vec<Symbol>)
    ensures
        set_of(final(dst).deep_view()) == set_of(old(dst).deep_view()).union(set_of(src.deep_view())),
        old(dst).deep_view().no_duplicates() ==> final(dst).deep_view().no_duplicates(),
{
    let ghost start = dst.deep_view();
    let mut i: usize = 0;
    while i < src.len()
        invariant
            i <= src.len(),
            set_of(dst.deep_view()) == set_of(start).union(set_of(src.deep_view().take(i as int))),
            start.no_duplicates() ==> dst.deep_view().no_duplicates(),
        decreases src.len() - i,
    {
        let ghost prev = dst.deep_view();
        insert_symbol(dst, src[i].clone());
        assert(src.deep_view().take(i + 1) =~= src.deep_view().take(i as int).push(src.deep_view()[i as int]));
        proof { lemma_push_to_set(src.deep_view().take(i as int), src.deep_view()[i as int]); }
        i += 1;
    }
    assert(src.deep_view().take(i as int) =~= src.deep_view());
}

/// Adds every symbol of `src` but the empty sentence to the set held by `dst`.
pub fn union_into_except_epsilon(dst: &mut Vec<Symbol>, src: &Vec<Symbol>)
    ensures
        set_of(final(dst).deep_view()) == set_of(old(dst).deep_view()).union(
            set_of(src.deep_view()).remove(SpecSymbol::Epsilon),
        ),
        old(dst).deep_view().no_duplicates() ==> final(dst).deep_view().no_duplicates(),
{
    let ghost start = dst.deep_view();
    let mut i: usize = 0;
    while i < src.len()
        invariant
            i <= src.len(),
            set_of(dst.deep_view()) == set_of(start).union(
                set_of(src.deep_view().take(i as int)).remove(SpecSymbol::Epsilon),
            ),
            start.no_duplicates() ==> dst.deep_view().no_duplicates(),
        decreases src.len() - i,
    {
        assert(src.deep_view().take(i + 1) =~= src.deep_view().take(i as int).push(src.deep_view()[i as int]));
        proof { lemma_push_to_set(src.deep_view().take(i as int), src.deep_view()[i as int]); }
        if !src[i].is_epsilon() {
            insert_symbol(dst, src[i].clone());
        }
        assert(set_of(src.deep_view().take(i + 1)).remove(SpecSymbol::Epsilon) =~= (if src.deep_view()[i as int] is Epsilon {
            set_of(src.deep_view().take(i as int)).remove(SpecSymbol::Epsilon)
        } else {
            set_of(src.deep_view().take(i as int)).remove(SpecSymbol::Epsilon).insert(src.deep_view()[i as int])
        }));
        i += 1;
    }
    assert(src.deep_view().take(i as int) =~= src.deep_view());
}

/// Whether `a` and `b` hold the same set of symbols.
pub fn same_set(a: &Vec<Symbol>, b: &Vec<Symbol>) -> (r: bool)
    ensures
        r == (set_of(a.deep_view()) == set_of(b.deep_view())),
{
    let mut i: usize = 0;
    while i < a.len()
        invariant
            i <= a.len(),
            forall|j: int| 0 <= j < i ==> b.deep_view().contains(#[trigger] a.deep_view()[j]),
        decreases a.len() - i,
    {
        if !contains_symbol(b, &a[i]) {
            assert(!set_of(b.deep_view()).contains(a.deep_view()[i as int]));
            assert(set_of(a.deep_view()).contains(a.deep_view()[i as int]));
            return false;
        }
        i += 1;
    }
    let mut k: usize = 0;
    while k < b.len()
        invariant
            k <= b.len(),
            forall|j: int| 0 <= j < a.len() ==> b.deep_view().contains(#[trigger] a.deep_view()[j]),
            forall|j: int| 0 <= j < k ==> a.deep_view().contains(#[trigger] b.deep_view()[j]),
        decreases b.len() - k,
    {
        if !contains_symbol(a, &b[k]) {
            assert(!set_of(a.deep_view()).contains(b.deep_view()[k as int]));
            assert(set_of(b.deep_view()).contains(b.deep_view()[k as int]));
            return false;
        }
        k += 1;
    }
    assert(set_of(a.deep_view()) =~= set_of(b.deep_view()));
    true
}

} // verus!
