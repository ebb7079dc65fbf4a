//! The mathematical model of a grammar's first and follow sets.
//!
//! The first-set computation recurses through non terminals without memory, so it
//! only ends on grammars where no non terminal reaches itself through the leading,
//! nullable symbols of its options. The recursion is modelled with a bound on its
//! depth (`fuel`): a computation that needs more nested non terminals than the
//! grammar has reaches one of them twice, and since every step is a function of the
//! symbol alone, it would repeat that cycle forever.
use crate::symbol::SpecSymbol;
use crate::symbol_set::set_of;
use vstd::prelude::*;

verus! {

pub type SpecSentence = Seq<SpecSymbol>;

/// Left-hand symbols, each with its options (right-hand sentences).
pub type SpecProductions = Seq<(SpecSymbol, Seq<SpecSentence>)>;

/// The most rounds of follow set expansion that are made.
pub const MAX_FOLLOW_EXPANSIONS: usize = 1000000;

/// A sentence without its semantic actions.
pub open spec fn strip_actions(s: SpecSentence) -> SpecSentence
    decreases s.len(),
{
    if s.len() == 0 {
        s
    } else if s[0] is SemanticAction {
        strip_actions(s.skip(1))
    } else {
        seq![s[0]] + strip_actions(s.skip(1))
    }
}

/// Every option with its semantic actions removed.
pub open spec fn strip_options(opts: Seq<SpecSentence>) -> Seq<SpecSentence> {
    Seq::new(opts.len(), |j: int| strip_actions(opts[j]))
}

/// The productions whose left-hand side is not a semantic action, with the semantic
/// actions removed from their options.
pub open spec fn without_semantics(p: SpecProductions) -> SpecProductions
    decreases p.len(),
{
    if p.len() == 0 {
        p
    } else if p[0].0 is SemanticAction {
        without_semantics(p.skip(1))
    } else {
        seq![(p[0].0, strip_options(p[0].1))] + without_semantics(p.skip(1))
    }
}

/// Whether `s` is the left-hand side of a production.
pub open spec fn has_key(p: SpecProductions, s: SpecSymbol) -> bool {
    exists|i: int| 0 <= i < p.len() && p[i].0 == s
}

/// No left-hand side occurs twice (the productions form a map).
pub open spec fn distinct_keys(p: SpecProductions) -> bool {
    forall|i: int, j: int| 0 <= i < p.len() && 0 <= j < p.len() && i != j ==> p[i].0 != p[j].0
}

/// The position of the production of `s`.
pub open spec fn key_index(p: SpecProductions, s: SpecSymbol) -> int {
    choose|i: int| 0 <= i < p.len() && p[i].0 == s
}

/// The options of the production of `s`.
pub open spec fn options_of(p: SpecProductions, s: SpecSymbol) -> Seq<SpecSentence> {
    p[key_index(p, s)].1
}

/// The left-hand sides, in order.
pub open spec fn keys_of(p: SpecProductions) -> Seq<SpecSymbol> {
    Seq::new(p.len(), |i: int| p[i].0)
}

pub proof fn lemma_key_index(p: SpecProductions, i: int)
    requires
        distinct_keys(p),
        0 <= i < p.len(),
    ensures
        has_key(p, p[i].0),
        key_index(p, p[i].0) == i,
        options_of(p, p[i].0) == p[i].1,
{
    assert(has_key(p, p[i].0));
}

/// The first set of `s` computed with at most `fuel` nested non terminals; `None` where
/// the computation fails (a non terminal without production, an option without
/// symbols) or needs more nesting.
pub open spec fn first_fuel(p: SpecProductions, s: SpecSymbol, fuel: nat) -> Option<Set<SpecSymbol>>
    decreases fuel, 0int, 0int,
{
    match s {
        SpecSymbol::NonTerminal(_) => {
            if fuel == 0 || !has_key(p, s) {
                None
            } else {
                options_first(p, options_of(p, s), (fuel - 1) as nat)
            }
        },
        SpecSymbol::SemanticAction(_) => Some(Set::empty()),
        _ => Some(set![s]),
    }
}

/// The union of the contributions of every option.
pub open spec fn options_first(p: SpecProductions, opts: Seq<SpecSentence>, fuel: nat) -> Option<
    Set<SpecSymbol>,
>
    decreases fuel, 3int, opts.len(),
{
    if opts.len() == 0 {
        Some(Set::empty())
    } else {
        match (option_first(p, strip_actions(opts[0]), fuel), options_first(p, opts.skip(1), fuel)) {
            (Some(a), Some(b)) => Some(a.union(b)),
            _ => None,
        }
    }
}

/// The contribution of one option `f` (without semantic actions) to the first set of
/// its left-hand side: the first set of its leading symbol without the empty sentence,
/// the first sets of the symbols that follow a run of symbols that derive the empty
/// sentence, and the empty sentence itself where every symbol derives it.
pub open spec fn option_first(p: SpecProductions, f: SpecSentence, fuel: nat) -> Option<Set<SpecSymbol>>
    decreases fuel, 2int, 0int,
{
    if f.len() == 0 {
        None
    } else {
        match (first_fuel(p, f[0], fuel), chain_first(p, f, 0, fuel)) {
            (Some(h), Some(c)) => Some(
                h.remove(SpecSymbol::Epsilon).union(c).union(
                    if all_nullable(p, f, 0, fuel) {
                        set![SpecSymbol::Epsilon]
                    } else {
                        Set::empty()
                    },
                ),
            ),
            _ => None,
        }
    }
}

/// The first sets of `f[i + 1]`, `f[i + 2]`, ... without the empty sentence, as long as
/// the symbol before each derives the empty sentence.
pub open spec fn chain_first(p: SpecProductions, f: SpecSentence, i: int, fuel: nat) -> Option<
    Set<SpecSymbol>,
>
    decreases fuel, 1int, f.len() - i,
{
    if i < 0 || i + 1 >= f.len() {
        Some(Set::empty())
    } else {
        match first_fuel(p, f[i], fuel) {
            Some(fi) => {
                if fi.contains(SpecSymbol::Epsilon) {
                    match (first_fuel(p, f[i + 1], fuel), chain_first(p, f, i + 1, fuel)) {
                        (Some(a), Some(b)) => Some(a.remove(SpecSymbol::Epsilon).union(b)),
                        _ => None,
                    }
                } else {
                    Some(Set::empty())
                }
            },
            None => None,
        }
    }
}

/// Whether the first set of every symbol of `f` from `i` on holds the empty sentence.
pub open spec fn all_nullable(p: SpecProductions, f: SpecSentence, i: int, fuel: nat) -> bool
    decreases fuel, 1int, f.len() - i,
{
    if i < 0 || i >= f.len() {
        true
    } else {
        match first_fuel(p, f[i], fuel) {
            Some(fi) => fi.contains(SpecSymbol::Epsilon) && all_nullable(p, f, i + 1, fuel),
            None => false,
        }
    }
}

/// The first set of a sentence: that of its leading symbol and those of the symbols
/// that follow a run of symbols whose first sets hold the empty sentence, all without
/// the empty sentence, which the set holds only where every symbol's first set holds it.
pub open spec fn sentence_first_fuel(p: SpecProductions, s: SpecSentence, fuel: nat) -> Option<
    Set<SpecSymbol>,
> {
    let f = strip_actions(s);
    if f.len() == 0 {
        Some(Set::empty())
    } else {
        option_first(p, f, fuel)
    }
}

/// The nesting that a terminating first-set computation can need.
pub open spec fn depth_bound(p: SpecProductions) -> nat {
    p.len() as nat
}

/// The first-set computation of `s` ends without failing.
pub open spec fn first_defined(p: SpecProductions, s: SpecSymbol) -> bool {
    first_fuel(p, s, depth_bound(p)) is Some
}

/// The first set of `s`.
pub open spec fn first_set(p: SpecProductions, s: SpecSymbol) -> Set<SpecSymbol> {
    first_fuel(p, s, depth_bound(p)).unwrap()
}

/// The first-set computation of sentence `s` ends without failing.
pub open spec fn sentence_first_defined(p: SpecProductions, s: SpecSentence) -> bool {
    sentence_first_fuel(p, s, depth_bound(p)) is Some
}

/// The first set of sentence `s`.
pub open spec fn sentence_first_set(p: SpecProductions, s: SpecSentence) -> Set<SpecSymbol> {
    sentence_first_fuel(p, s, depth_bound(p)).unwrap()
}

// ---------------------------------------------------------------------------
// Follow sets
/// What the occurrence of `s` at position `n` of the option `f` (without semantic
/// actions) of `x` adds to the follow set of `s`: the first set of the rest of the
/// option without the empty sentence, and `x` itself where that set holds the empty
/// sentence. The last position has no rest and adds nothing.
pub open spec fn position_follow(
    p: SpecProductions,
    x: SpecSymbol,
    f: SpecSentence,
    n: int,
    s: SpecSymbol,
    fuel: nat,
) -> Option<Set<SpecSymbol>> {
    if 0 <= n && n + 1 < f.len() && f[n] == s {
        match sentence_first_fuel(p, f.skip(n + 1), fuel) {
            Some(a) => Some(
                a.remove(SpecSymbol::Epsilon).union(
                    if a.contains(SpecSymbol::Epsilon) {
                        set![x]
                    } else {
                        Set::empty()
                    },
                ),
            ),
            None => None,
        }
    } else {
        Some(Set::empty())
    }
}

/// The union of `position_follow` over the positions from `n` on.
pub open spec fn positions_follow(
    p: SpecProductions,
    x: SpecSymbol,
    f: SpecSentence,
    n: int,
    s: SpecSymbol,
    fuel: nat,
) -> Option<Set<SpecSymbol>>
    decreases f.len() - n,
{
    if n < 0 || n >= f.len() {
        Some(Set::empty())
    } else {
        match (position_follow(p, x, f, n, s, fuel), positions_follow(p, x, f, n + 1, s, fuel)) {
            (Some(a), Some(b)) => Some(a.union(b)),
            _ => None,
        }
    }
}

/// What option `o` of `x` adds to the follow set of `s`; where `o` ends with `s`
/// (semantic actions counted), `x` itself. An option without symbols fails.
pub open spec fn option_follow(
    p: SpecProductions,
    x: SpecSymbol,
    o: SpecSentence,
    s: SpecSymbol,
    fuel: nat,
) -> Option<Set<SpecSymbol>> {
    if o.len() == 0 {
        None
    } else {
        match positions_follow(p, x, strip_actions(o), 0, s, fuel) {
            Some(a) => Some(
                a.union(
                    if o.last() == s {
                        set![x]
                    } else {
                        Set::empty()
                    },
                ),
            ),
            None => None,
        }
    }
}

/// The union of `option_follow` over the options `opts` of `x`.
pub open spec fn options_follow(
    p: SpecProductions,
    x: SpecSymbol,
    opts: Seq<SpecSentence>,
    s: SpecSymbol,
    fuel: nat,
) -> Option<Set<SpecSymbol>>
    decreases opts.len(),
{
    if opts.len() == 0 {
        Some(Set::empty())
    } else {
        match (option_follow(p, x, opts[0], s, fuel), options_follow(p, x, opts.skip(1), s, fuel)) {
            (Some(a), Some(b)) => Some(a.union(b)),
            _ => None,
        }
    }
}

/// The union of `options_follow` over the productions `entries`.
pub open spec fn entries_follow(
    p: SpecProductions,
    entries: SpecProductions,
    s: SpecSymbol,
    fuel: nat,
) -> Option<Set<SpecSymbol>>
    decreases entries.len(),
{
    if entries.len() == 0 {
        Some(Set::empty())
    } else {
        match (
            options_follow(p, entries[0].0, entries[0].1, s, fuel),
            entries_follow(p, entries.skip(1), s, fuel),
        ) {
            (Some(a), Some(b)) => Some(a.union(b)),
            _ => None,
        }
    }
}

/// The follow set of `s` before the follow sets of the non terminals that it holds are
/// merged into it: the end of the stream for the start symbol, and what every
/// occurrence of `s` in every option adds.
pub open spec fn unexpanded_follow_spec(p: SpecProductions, start: SpecSymbol, s: SpecSymbol) -> Option<
    Set<SpecSymbol>,
> {
    match entries_follow(p, p, s, depth_bound(p)) {
        Some(a) => Some(
            if s == start {
                a.insert(SpecSymbol::Eos)
            } else {
                a
            },
        ),
        None => None,
    }
}

/// The unexpanded follow set of every left-hand side can be computed.
pub open spec fn follow_defined(p: SpecProductions, start: SpecSymbol) -> bool {
    forall|i: int| 0 <= i < p.len() ==> #[trigger] unexpanded_follow_spec(p, start, p[i].0) is Some
}

/// The unexpanded follow sets, one for each left-hand side in order.
pub open spec fn unexpanded_table(p: SpecProductions, start: SpecSymbol) -> Seq<Set<SpecSymbol>> {
    Seq::new(p.len(), |i: int| unexpanded_follow_spec(p, start, p[i].0).unwrap())
}

/// What the follow sets of the non terminals in row `i` (other than the row's own
/// symbol) add to row `i`, for the non terminals among `elems`.
pub open spec fn merged_from(
    keys: Seq<SpecSymbol>,
    t: Seq<Set<SpecSymbol>>,
    i: int,
    elems: Set<SpecSymbol>,
) -> Set<SpecSymbol> {
    Set::new(
        |x: SpecSymbol|
            exists|j: int|
                0 <= j < keys.len() && j < t.len() && elems.contains(#[trigger] keys[j])
                    && keys[j] is NonTerminal && keys[j] != keys[i] && t[j].contains(x),
    )
}

/// One round of expansion: each row gains the rows of the non terminals that it holds.
pub open spec fn expand_once(keys: Seq<SpecSymbol>, t: Seq<Set<SpecSymbol>>) -> Seq<Set<SpecSymbol>> {
    Seq::new(t.len(), |i: int| t[i].union(merged_from(keys, t, i, t[i])))
}

/// Rounds of expansion until a round changes nothing, or the limit of rounds is met.
pub open spec fn expand_loop(
    keys: Seq<SpecSymbol>,
    cur: Seq<Set<SpecSymbol>>,
    next: Seq<Set<SpecSymbol>>,
    it: nat,
) -> Seq<Set<SpecSymbol>>
    decreases MAX_FOLLOW_EXPANSIONS - it,
{
    if cur != next && it < MAX_FOLLOW_EXPANSIONS {
        expand_loop(keys, next, expand_once(keys, next), it + 1)
    } else {
        next
    }
}

/// Every row without its non terminals.
pub open spec fn remove_non_terminals_spec(t: Seq<Set<SpecSymbol>>) -> Seq<Set<SpecSymbol>> {
    Seq::new(t.len(), |i: int| t[i].filter(|x: SpecSymbol| !(x is NonTerminal)))
}

/// The unexpanded follow sets after the rounds of expansion.
pub open spec fn expanded_table(p: SpecProductions, start: SpecSymbol) -> Seq<Set<SpecSymbol>> {
    let u = unexpanded_table(p, start);
    expand_loop(keys_of(p), u, expand_once(keys_of(p), u), 0)
}

/// The rounds of expansion stopped because a round changed nothing, not because the
/// limit of rounds was met.
pub open spec fn follow_settled(p: SpecProductions, start: SpecSymbol) -> bool {
    expand_once(keys_of(p), expanded_table(p, start)) == expanded_table(p, start)
}

/// The follow sets of the left-hand sides of `p`, in order.
pub open spec fn follow_table(p: SpecProductions, start: SpecSymbol) -> Seq<Set<SpecSymbol>> {
    remove_non_terminals_spec(expanded_table(p, start))
}

/// The sets that a table of symbol vectors holds.
pub open spec fn table_sets(t: Seq<Seq<SpecSymbol>>) -> Seq<Set<SpecSymbol>> {
    Seq::new(t.len(), |i: int| set_of(t[i]))
}

/// A sentence without semantic actions holds none.
pub proof fn lemma_strip_actions_plain(s: SpecSentence)
    ensures
        forall|k: int| 0 <= k < strip_actions(s).len() ==> !(#[trigger] strip_actions(s)[k] is SemanticAction),
    decreases s.len(),
{
    if s.len() > 0 {
        lemma_strip_actions_plain(s.skip(1));
        if !(s[0] is SemanticAction) {
            let t = strip_actions(s.skip(1));
            assert forall|k: int| 0 <= k < strip_actions(s).len() implies !(#[trigger] strip_actions(s)[k] is SemanticAction) by {
                if k > 0 {
                    assert(strip_actions(s)[k] == t[k - 1]);
                }
            }
        }
    }
}

/// Removing the semantic actions of a sentence that holds none leaves it as it is.
pub proof fn lemma_strip_actions_of_plain(s: SpecSentence)
    requires
        forall|k: int| 0 <= k < s.len() ==> !(#[trigger] s[k] is SemanticAction),
    ensures
        strip_actions(s) == s,
    decreases s.len(),
{
    if s.len() > 0 {
        assert(!(s[0] is SemanticAction));
        assert forall|k: int| 0 <= k < s.skip(1).len() implies !(#[trigger] s.skip(1)[k] is SemanticAction) by {
            assert(s.skip(1)[k] == s[k + 1]);
        }
        lemma_strip_actions_of_plain(s.skip(1));
        assert(seq![s[0]] + s.skip(1) =~= s);
    }
}

/// Every symbol of `x` is a terminal, the end of the stream or the empty sentence.
pub open spec fn no_non_terminal(x: Set<SpecSymbol>) -> bool {
    forall|y: SpecSymbol| x.contains(y) ==> (y is Terminal || y is Eos || y is Epsilon)
}

/// First sets hold terminals, the end of the stream and the empty sentence only.
pub proof fn lemma_first_fuel_plain(p: SpecProductions, s: SpecSymbol, fuel: nat)
    ensures
        first_fuel(p, s, fuel) matches Some(x) ==> no_non_terminal(x),
    decreases fuel, 0int, 0int,
{
    match s {
        SpecSymbol::NonTerminal(_) => {
            if !(fuel == 0 || !has_key(p, s)) {
                lemma_options_first_plain(p, options_of(p, s), (fuel - 1) as nat);
            }
        },
        _ => {},
    }
}

/// The union over the options holds no non terminal.
pub proof fn lemma_options_first_plain(p: SpecProductions, opts: Seq<SpecSentence>, fuel: nat)
    ensures
        options_first(p, opts, fuel) matches Some(x) ==> no_non_terminal(x),
    decreases fuel, 3int, opts.len(),
{
    if opts.len() > 0 {
        lemma_option_first_plain(p, strip_actions(opts[0]), fuel);
        lemma_options_first_plain(p, opts.skip(1), fuel);
    }
}

/// The contribution of an option holds no non terminal.
pub proof fn lemma_option_first_plain(p: SpecProductions, f: SpecSentence, fuel: nat)
    ensures
        option_first(p, f, fuel) matches Some(x) ==> no_non_terminal(x),
    decreases fuel, 2int, 0int,
{
    if f.len() > 0 {
        lemma_first_fuel_plain(p, f[0], fuel);
        lemma_chain_first_plain(p, f, 0, fuel);
    }
}

/// The chained first sets hold no non terminal.
pub proof fn lemma_chain_first_plain(p: SpecProductions, f: SpecSentence, i: int, fuel: nat)
    ensures
        chain_first(p, f, i, fuel) matches Some(x) ==> no_non_terminal(x),
    decreases fuel, 1int, f.len() - i,
{
    if !(i < 0 || i + 1 >= f.len()) {
        lemma_first_fuel_plain(p, f[i + 1], fuel);
        lemma_chain_first_plain(p, f, i + 1, fuel);
    }
}

/// First sets are finite.
pub proof fn lemma_first_fuel_finite(p: SpecProductions, s: SpecSymbol, fuel: nat)
    ensures
        first_fuel(p, s, fuel) matches Some(x) ==> x.finite(),
    decreases fuel, 0int, 0int,
{
    match s {
        SpecSymbol::NonTerminal(_) => {
            if !(fuel == 0 || !has_key(p, s)) {
                lemma_options_first_finite(p, options_of(p, s), (fuel - 1) as nat);
            }
        },
        _ => {},
    }
}

/// The union over the options is finite.
pub proof fn lemma_options_first_finite(p: SpecProductions, opts: Seq<SpecSentence>, fuel: nat)
    ensures
        options_first(p, opts, fuel) matches Some(x) ==> x.finite(),
    decreases fuel, 3int, opts.len(),
{
    if opts.len() > 0 {
        lemma_option_first_finite(p, strip_actions(opts[0]), fuel);
        lemma_options_first_finite(p, opts.skip(1), fuel);
    }
}

/// The contribution of an option is finite.
pub proof fn lemma_option_first_finite(p: SpecProductions, f: SpecSentence, fuel: nat)
    ensures
        option_first(p, f, fuel) matches Some(x) ==> x.finite(),
    decreases fuel, 2int, 0int,
{
    if f.len() > 0 {
        lemma_first_fuel_finite(p, f[0], fuel);
        lemma_chain_first_finite(p, f, 0, fuel);
    }
}

/// The chained first sets are finite.
pub proof fn lemma_chain_first_finite(p: SpecProductions, f: SpecSentence, i: int, fuel: nat)
    ensures
        chain_first(p, f, i, fuel) matches Some(x) ==> x.finite(),
    decreases fuel, 1int, f.len() - i,
{
    if !(i < 0 || i + 1 >= f.len()) {
        lemma_first_fuel_finite(p, f[i + 1], fuel);
        lemma_chain_first_finite(p, f, i + 1, fuel);
    }
}

} // verus!
