//! The decisions of the table driven predictive parser: what to do with the symbol on
//! top of the stack given the lookahead, and when error recovery may resume. Reading
//! tokens, writing the derivation and executing semantic actions are left to the
//! caller, which performs the action that each step returns.
use crate::first::Sentence;
use crate::grammar::{grammar_follow, model_without, Grammar, GrammarModel};
use crate::grammar_spec::{depth_bound, first_defined, first_fuel, first_set, has_key, options_of, SpecSentence};
use crate::parse_table::{table_fits, ParseTable};
use crate::symbol::{Action, SpecAction, SpecSymbol, Symbol};
use crate::symbol_set::{computed, contains_symbol, set_of};
use vstd::prelude::*;

verus! {

/// What a parse step did, and what the caller has to do next.
#[derive(Debug)]
pub enum ParseAction {
    /// The terminal on top matched the lookahead and was popped: read the next token.
    Shift,
    /// The non terminal on top was replaced by the option of its production with this
    /// number: its symbols but the empty sentence, the first one on top.
    Expand(usize),
    /// The semantic action on top was popped: execute it.
    Execute(Action),
    /// A syntax error; the top was popped, and parsing goes on.
    PopOnError,
    /// A syntax error; skip tokens until one on which the top can resume.
    SkipOnError,
    /// A syntax error that cannot be recovered from: no token is left, or the top has
    /// no follow set.
    Fail,
    /// The top is the empty sentence or the end of the stream: nothing was done.
    Idle,
}

/// Mathematical model of a [`ParseAction`].
pub enum SpecParseAction {
    Shift,
    Expand(usize),
    Execute(SpecAction),
    PopOnError,
    SkipOnError,
    Fail,
    Idle,
}

impl View for ParseAction {
    type V = SpecParseAction;

    open spec fn view(&self) -> SpecParseAction {
        match self {
            ParseAction::Shift => SpecParseAction::Shift,
            ParseAction::Expand(i) => SpecParseAction::Expand(*i),
            ParseAction::Execute(a) => SpecParseAction::Execute(a@),
            ParseAction::PopOnError => SpecParseAction::PopOnError,
            ParseAction::SkipOnError => SpecParseAction::SkipOnError,
            ParseAction::Fail => SpecParseAction::Fail,
            ParseAction::Idle => SpecParseAction::Idle,
        }
    }
}

/// The symbols of `f` but the empty sentence, last first: what replaces a non terminal
/// on the stack, whose top is its end.
pub open spec fn pushed(f: SpecSentence) -> Seq<SpecSymbol>
    decreases f.len(),
{
    if f.len() == 0 {
        Seq::empty()
    } else if f[0] is Epsilon {
        pushed(f.skip(1))
    } else {
        pushed(f.skip(1)).push(f[0])
    }
}

/// The error recovery for the top `top` on the lookahead `la`: fail without a token
/// left or without a follow set of the top; pop the top where the lookahead follows
/// it; skip tokens otherwise.
pub open spec fn recovery(m: GrammarModel, top: SpecSymbol, la: SpecSymbol) -> SpecParseAction {
    if la is Eos || !has_key(model_without(m), top) {
        SpecParseAction::Fail
    } else if grammar_follow(m, top).contains(la) {
        SpecParseAction::PopOnError
    } else {
        SpecParseAction::SkipOnError
    }
}

/// The stack after an error recovery.
pub open spec fn recovered(action: SpecParseAction, stack: Seq<SpecSymbol>) -> Seq<SpecSymbol> {
    if action is PopOnError {
        stack.drop_last()
    } else {
        stack
    }
}

/// One step of the parser on the stack `stack` (its top last) and the lookahead `la`,
/// where `entry` is the table's option for the top on the lookahead: the action and the
/// stack after it.
pub open spec fn step(m: GrammarModel, entry: Option<usize>, stack: Seq<SpecSymbol>, la: SpecSymbol) -> (
    SpecParseAction,
    Seq<SpecSymbol>,
) {
    let top = stack.last();
    match top {
        SpecSymbol::Terminal(_) => if la == top {
            (SpecParseAction::Shift, stack.drop_last())
        } else {
            (recovery(m, top, la), recovered(recovery(m, top, la), stack))
        },
        SpecSymbol::NonTerminal(_) => match entry {
            Some(i) => (
                SpecParseAction::Expand(i),
                stack.drop_last() + pushed(options_of(m.productions, top)[i as int]),
            ),
            None => (recovery(m, top, la), recovered(recovery(m, top, la), stack)),
        },
        SpecSymbol::SemanticAction(a) => (SpecParseAction::Execute(a), stack.drop_last()),
        _ => (SpecParseAction::Idle, stack),
    }
}

/// Whether error recovery for the top `top` may resume on the lookahead `la`: the
/// lookahead is in the first set of the top, or that set holds the empty sentence and
/// the lookahead follows the top; `None` where the first set cannot be computed, or the
/// follow set is needed and the top has none.
pub open spec fn resumes_on(m: GrammarModel, top: SpecSymbol, la: SpecSymbol) -> Option<bool> {
    match first_fuel(model_without(m), top, depth_bound(model_without(m))) {
        Some(f) => if f.contains(la) {
            Some(true)
        } else if f.contains(SpecSymbol::Epsilon) {
            if has_key(model_without(m), top) {
                Some(grammar_follow(m, top).contains(la))
            } else {
                None
            }
        } else {
            Some(false)
        },
        None => None,
    }
}

/// The error recovery for the top `top` on the lookahead `la`, popping the top where it
/// says so.
fn recover(grammar: &Grammar, stack: &mut Vec<Symbol>, top: &Symbol, la: &Symbol) -> (r: ParseAction)
    requires
        old(stack).len() > 0,
        old(stack).deep_view().last() == top@,
    ensures
        r@ == recovery(grammar@, top@, la@),
        final(stack).deep_view() == recovered(r@, old(stack).deep_view()),
{
    if matches!(la, Symbol::Eos) || !grammar.has_follow(top) {
        return ParseAction::Fail;
    }
    let follow = grammar.follow(top);
    if contains_symbol(follow, la) {
        let ghost before = stack.deep_view();
        stack.pop();
        assert(stack.deep_view() =~= before.drop_last());
        ParseAction::PopOnError
    } else {
        ParseAction::SkipOnError
    }
}

/// Pushes the symbols of `production` but the empty sentence, last first.
fn push_production(stack: &mut Vec<Symbol>, production: &Sentence)
    ensures
        final(stack).deep_view() == old(stack).deep_view() + pushed(production.deep_view()),
{
    let ghost base = stack.deep_view();
    let ghost f = production.deep_view();
    let mut k: usize = production.len();
    assert(f.skip(k as int) =~= Seq::<SpecSymbol>::empty());
    assert(stack.deep_view() =~= base + pushed(f.skip(k as int)));
    while k > 0
        invariant
            k <= production.len(),
            f == production.deep_view(),
            stack.deep_view() == base + pushed(f.skip(k as int)),
        decreases k,
    {
        assert(f.skip(k - 1)[0] == f[k - 1]);
        assert(f.skip(k - 1).skip(1) =~= f.skip(k as int));
        if !production[k - 1].is_epsilon() {
            let ghost before = stack.deep_view();
            stack.push(production[k - 1].clone());
            assert(stack.deep_view() =~= before.push(f[k - 1]));
            assert(base + pushed(f.skip(k - 1)) =~= (base + pushed(f.skip(k as int))).push(f[k - 1]));
        }
        k -= 1;
    }
    assert(f.skip(0) =~= f);
}

/// One step of the parser: acts on the top of `stack` (its last symbol) given the
/// lookahead `lookahead`, and returns what was done. A matching terminal is popped; a
/// non terminal is replaced by the option that the table gives, or else an error is
/// recovered from; a semantic action is popped for the caller to execute.
pub fn parse_step(grammar: &Grammar, table: &ParseTable, stack: &mut Vec<Symbol>, lookahead: &Symbol) -> (r: ParseAction)
    requires
        old(stack).len() > 0,
        table_fits(grammar@, *table),
    ensures
        (r@, final(stack).deep_view()) == step(
            grammar@,
            table.entry(old(stack).deep_view().last(), lookahead@),
            old(stack).deep_view(),
            lookahead@,
        ),
{
    let ghost old_stack = stack.deep_view();
    let top = stack[stack.len() - 1].clone();
    assert(top@ == old_stack.last());
    match &top {
        Symbol::Terminal(_) => {
            if *lookahead == top {
                stack.pop();
                assert(stack.deep_view() =~= old_stack.drop_last());
                ParseAction::Shift
            } else {
                recover(grammar, stack, &top, lookahead)
            }
        },
        Symbol::NonTerminal(_) => {
            if table.contains(&top, lookahead) {
                let option = table.get(&top, lookahead);
                let production = grammar.production(&top, option);
                stack.pop();
                assert(stack.deep_view() =~= old_stack.drop_last());
                push_production(stack, production);
                ParseAction::Expand(option)
            } else {
                recover(grammar, stack, &top, lookahead)
            }
        },
        Symbol::SemanticAction(action) => {
            stack.pop();
            assert(stack.deep_view() =~= old_stack.drop_last());
            ParseAction::Execute(action.clone())
        },
        _ => ParseAction::Idle,
    }
}

/// Whether error recovery for the top `top` may resume on the lookahead `lookahead`;
/// `None` where that cannot be decided (see `resumes_on`).
pub fn resumes(grammar: &Grammar, top: &Symbol, lookahead: &Symbol) -> (r: Option<bool>)
    ensures
        r == resumes_on(grammar@, top@, lookahead@),
{
    let first = match grammar.first_checked(top) {
        Some(first) => first,
        None => {
            return None;
        },
    };
    if contains_symbol(&first, lookahead) {
        return Some(true);
    }
    if contains_symbol(&first, &Symbol::Epsilon) {
        if !grammar.has_follow(top) {
            return None;
        }
        let follow = grammar.follow(top);
        return Some(contains_symbol(follow, lookahead));
    }
    Some(false)
}

/// Whether the stack holds the end of the stream alone: parsing is over.
pub fn is_finished(stack: &Vec<Symbol>) -> (r: bool)
    ensures
        r == (stack.deep_view() == seq![SpecSymbol::Eos]),
{
    if stack.len() == 1 && matches!(stack[0], Symbol::Eos) {
        assert(stack.deep_view() =~= seq![SpecSymbol::Eos]);
        true
    } else {
        if stack.len() == 1 {
            assert(stack.deep_view()[0] != SpecSymbol::Eos);
        } else {
            assert(stack.deep_view().len() != seq![SpecSymbol::Eos].len());
        }
        false
    }
}

/// The stack that parsing starts with: the end of the stream under the start symbol.
pub fn initial_stack(grammar: &Grammar) -> (r: Vec<Symbol>)
    ensures
        r.deep_view() == seq![SpecSymbol::Eos, grammar@.start],
{
    let mut stack: Vec<Symbol> = Vec::new();
    stack.push(Symbol::Eos);
    stack.push(grammar.start().clone());
    assert(stack.deep_view() =~= seq![SpecSymbol::Eos, grammar@.start]);
    stack
}

/// Error recovery resumes on a lookahead exactly where the lookahead is in the first
/// set of the top, or that first set holds the empty sentence and the lookahead follows
/// the top; it goes on skipping otherwise, where both sets can be computed.
pub proof fn law_recovery_resumes(m: GrammarModel, top: SpecSymbol, la: SpecSymbol)
    ensures
        first_defined(model_without(m), top) && first_set(model_without(m), top).contains(la) ==> resumes_on(m, top, la)
            == Some(true),
        first_defined(model_without(m), top) && first_set(model_without(m), top).contains(SpecSymbol::Epsilon)
            && has_key(model_without(m), top) && grammar_follow(m, top).contains(la) ==> resumes_on(m, top, la)
            == Some(true),
        resumes_on(m, top, la) == Some(true) ==> first_defined(model_without(m), top) && (first_set(
            model_without(m),
            top,
        ).contains(la) || (first_set(model_without(m), top).contains(SpecSymbol::Epsilon) && grammar_follow(
            m,
            top,
        ).contains(la))),
        first_defined(model_without(m), top) && !first_set(model_without(m), top).contains(la) && !first_set(
            model_without(m),
            top,
        ).contains(SpecSymbol::Epsilon) ==> resumes_on(m, top, la) == Some(false),
{
}

/// The symbols pushed for an option are its symbols but the empty sentence, last first.
proof fn lemma_pushed(f: SpecSentence)
    ensures
        forall|k: int| 0 <= k < pushed(f).len() ==> !(#[trigger] pushed(f)[k] is Epsilon),
        forall|k: int| 0 <= k < pushed(f).len() ==> f.contains(#[trigger] pushed(f)[k]),
        forall|k: int| 0 <= k < f.len() && !(#[trigger] f[k] is Epsilon) ==> pushed(f).contains(f[k]),
    decreases f.len(),
{
    if f.len() > 0 {
        let t = f.skip(1);
        lemma_pushed(t);
        assert forall|k: int| 0 <= k < pushed(f).len() implies f.contains(#[trigger] pushed(f)[k]) by {
            if k < pushed(t).len() {
                let j = choose|j: int| 0 <= j < t.len() && t[j] == pushed(t)[k];
                assert(f[j + 1] == t[j]);
            } else {
                assert(f[0] == pushed(f)[k]);
            }
        }
        assert forall|k: int| 0 <= k < f.len() && !(#[trigger] f[k] is Epsilon) implies pushed(f).contains(f[k]) by {
            if k > 0 {
                assert(t[k - 1] == f[k]);
                let j = choose|j: int| 0 <= j < pushed(t).len() && pushed(t)[j] == t[k - 1];
                assert(pushed(f)[j] == f[k]);
            } else {
                assert(pushed(f)[pushed(f).len() - 1] == f[0]);
            }
        }
    }
}

/// One parse step acts on the top of the stack alone: a terminal is shifted exactly
/// where it is the lookahead; a semantic action is popped for execution; a non
/// terminal with a table entry is replaced by the symbols of that option, none of them
/// the empty sentence and each of them there; and error recovery pops the top only
/// where the lookahead follows it, skips where it does not, and fails without a token
/// left or without a production for the top.
pub proof fn law_parse_step(m: GrammarModel, entry: Option<usize>, stack: Seq<SpecSymbol>, la: SpecSymbol)
    requires
        stack.len() > 0,
    ensures
        step(m, entry, stack, la).0 is Shift <==> (stack.last() is Terminal && la == stack.last()),
        step(m, entry, stack, la).0 is Shift ==> step(m, entry, stack, la).1 == stack.drop_last(),
        stack.last() matches SpecSymbol::SemanticAction(a) ==> step(m, entry, stack, la) == (
            SpecParseAction::Execute(a),
            stack.drop_last(),
        ),
        (stack.last() is NonTerminal && entry matches Some(i)) ==> {
            let next = step(m, entry, stack, la).1;
            let option = options_of(m.productions, stack.last())[entry->0 as int];
            &&& step(m, entry, stack, la).0 == SpecParseAction::Expand(entry->0)
            &&& next.len() >= stack.len() - 1
            &&& next.subrange(0, stack.len() - 1) == stack.drop_last()
            &&& forall|k: int| stack.len() - 1 <= k < next.len() ==> !(#[trigger] next[k] is Epsilon) && option.contains(
                next[k],
            )
            &&& forall|k: int| 0 <= k < option.len() && !(#[trigger] option[k] is Epsilon) ==> next.subrange(
                stack.len() - 1,
                next.len() as int,
            ).contains(option[k])
        },
        step(m, entry, stack, la).0 is PopOnError ==> !(la is Eos) && grammar_follow(m, stack.last()).contains(la)
            && step(m, entry, stack, la).1 == stack.drop_last(),
        step(m, entry, stack, la).0 is SkipOnError ==> !(la is Eos) && !grammar_follow(m, stack.last()).contains(la)
            && step(m, entry, stack, la).1 == stack,
        step(m, entry, stack, la).0 is Fail ==> (la is Eos || !has_key(model_without(m), stack.last())) && step(
            m,
            entry,
            stack,
            la,
        ).1 == stack,
{
    if stack.last() is NonTerminal && entry is Some {
        let option = options_of(m.productions, stack.last())[entry->0 as int];
        lemma_pushed(option);
        let next = step(m, entry, stack, la).1;
        let n = stack.len() - 1;
        assert(next.subrange(0, n) =~= stack.drop_last());
        assert(next.subrange(n, next.len() as int) =~= pushed(option));
        assert forall|k: int| n <= k < next.len() implies !(#[trigger] next[k] is Epsilon) && option.contains(next[k]) by {
            assert(next[k] == pushed(option)[k - n]);
        }
    }
}

} // verus!
