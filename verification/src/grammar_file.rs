//! The productions that the lines of a grammar file write. A line `<E> ::= <T> <E'>`
//! adds the option `<T> <E'>` to the production of `<E>`; the symbols of the right-hand
//! side are separated by spaces. Lines without "::=" are skipped, and the left-hand side
//! of the first production is the start symbol.
use crate::first::{find_key, ProductionMap, Sentence};
use crate::grammar::{valid_grammar, Grammar, GrammarModel};
use crate::grammar_spec::{distinct_keys, has_key, key_index, lemma_key_index, SpecProductions, SpecSentence};
use crate::notation::{chars_of, is_space, is_space_exec, string_from, symbol_of_text, trim};
use crate::symbol::{SpecSymbol, Symbol};
use vstd::prelude::*;

verus! {

/// The position of the first "::=" in `s` at or after `k`.
pub open spec fn separator_from(s: Seq<char>, k: int) -> Option<int>
    decreases s.len() - k,
{
    if k < 0 || k + 3 > s.len() {
        None
    } else if s[k] == ':' && s[k + 1] == ':' && s[k + 2] == '=' {
        Some(k)
    } else {
        separator_from(s, k + 1)
    }
}

/// The position of the first space of `s` at or after `k`.
pub open spec fn space_from(s: Seq<char>, k: int) -> Option<int>
    decreases s.len() - k,
{
    if k < 0 || k >= s.len() {
        None
    } else if s[k] == ' ' {
        Some(k)
    } else {
        space_from(s, k + 1)
    }
}

/// `t` as a list of one text, or none where it is empty.
pub open spec fn kept(t: Seq<char>) -> Seq<Seq<char>> {
    if t.len() == 0 {
        Seq::empty()
    } else {
        seq![t]
    }
}

/// The symbol texts of a right-hand side: its pieces between single spaces, trimmed,
/// without the empty ones.
pub open spec fn rhs_texts(s: Seq<char>) -> Seq<Seq<char>>
    decreases s.len(),
{
    match space_from(s, 0) {
        Some(k) => {
            proof {
                lemma_space_from(s, 0);
            }
            kept(trim(s.subrange(0, k))) + rhs_texts(s.subrange(k + 1, s.len() as int))
        },
        None => kept(trim(s)),
    }
}

/// What `space_from` finds is a space at or after where it starts.
pub proof fn lemma_space_from(s: Seq<char>, k: int)
    requires
        0 <= k,
    ensures
        match space_from(s, k) {
            Some(j) => k <= j < s.len() && s[j] == ' ' && forall|t: int| k <= t < j ==> s[t] != ' ',
            None => forall|t: int| k <= t < s.len() ==> s[t] != ' ',
        },
    decreases s.len() - k,
{
    if !(k < 0 || k >= s.len()) && s[k] != ' ' {
        lemma_space_from(s, k + 1);
    }
}

/// The left-hand side text and the right-hand side symbol texts of a production line;
/// `None` for a line without "::=". The right-hand side ends at a second "::=", if any.
pub open spec fn line_parts(line: Seq<char>) -> Option<(Seq<char>, Seq<Seq<char>>)> {
    match separator_from(line, 0) {
        Some(k) => {
            let after = line.subrange(k + 3, line.len() as int);
            let rhs = match separator_from(after, 0) {
                Some(m) => after.subrange(0, m),
                None => after,
            };
            Some((trim(line.subrange(0, k)), rhs_texts(trim(rhs))))
        },
        None => None,
    }
}

/// The symbols that the texts `ts` write, where each writes one.
pub open spec fn symbols_of(ts: Seq<Seq<char>>) -> Option<SpecSentence>
    decreases ts.len(),
{
    if ts.len() == 0 {
        Some(Seq::empty())
    } else {
        match (symbol_of_text(ts[0]), symbols_of(ts.skip(1))) {
            (Some(a), Some(b)) => Some(seq![a] + b),
            _ => None,
        }
    }
}

/// The symbols of `a + b` are those of `a` then those of `b`.
pub proof fn lemma_symbols_of_concat(a: Seq<Seq<char>>, b: Seq<Seq<char>>)
    ensures
        symbols_of(a + b) == match (symbols_of(a), symbols_of(b)) {
            (Some(x), Some(y)) => Some(x + y),
            _ => None,
        },
    decreases a.len(),
{
    if a.len() == 0 {
        assert(a + b =~= b);
        match symbols_of(b) {
            Some(y) => {
                assert(Seq::<SpecSymbol>::empty() + y =~= y);
            },
            None => {},
        }
    } else {
        assert((a + b).skip(1) =~= a.skip(1) + b);
        assert((a + b)[0] == a[0]);
        lemma_symbols_of_concat(a.skip(1), b);
        match (symbol_of_text(a[0]), symbols_of(a.skip(1)), symbols_of(b)) {
            (Some(h), Some(x), Some(y)) => {
                assert(seq![h] + (x + y) =~= (seq![h] + x) + y);
            },
            _ => {},
        }
    }
}

/// The productions `p` with the option `f` added to the production of `lhs`, which is
/// made where there is none.
pub open spec fn add_option(p: SpecProductions, lhs: SpecSymbol, f: SpecSentence) -> SpecProductions {
    if has_key(p, lhs) {
        p.update(key_index(p, lhs), (lhs, p[key_index(p, lhs)].1.push(f)))
    } else {
        p.push((lhs, seq![f]))
    }
}

/// The productions and start symbol that the lines `lines` write; `None` where a text
/// of a production line writes no symbol.
pub open spec fn grammar_of_lines(lines: Seq<Seq<char>>) -> Option<(SpecProductions, Option<SpecSymbol>)>
    decreases lines.len(),
{
    if lines.len() == 0 {
        Some((Seq::empty(), None))
    } else {
        match grammar_of_lines(lines.drop_last()) {
            Some((p, start)) => match line_parts(lines.last()) {
                Some((l, rs)) => match (symbol_of_text(l), symbols_of(rs)) {
                    (Some(lhs), Some(f)) => Some(
                        (
                            add_option(p, lhs, f),
                            match start {
                                Some(s) => Some(s),
                                None => Some(lhs),
                            },
                        ),
                    ),
                    _ => None,
                },
                None => Some((p, start)),
            },
            None => None,
        }
    }
}

/// The position of the first "::=" at or after `k`.
fn separator_exec(cs: &Vec<char>, k: usize) -> (r: Option<usize>)
    ensures
        match r {
            Some(m) => separator_from(cs@, k as int) == Some(m as int) && m + 3 <= cs.len(),
            None => separator_from(cs@, k as int) is None,
        },
{
    let mut i: usize = k;
    while i < cs.len() && cs.len() - i >= 3
        invariant
            k <= i,
            separator_from(cs@, k as int) == separator_from(cs@, i as int),
        decreases cs.len() - i,
    {
        if cs[i] == ':' && cs[i + 1] == ':' && cs[i + 2] == '=' {
            return Some(i);
        }
        i += 1;
    }
    None
}

/// The bounds of `cs[a..b]` without leading or trailing white space.
fn trim_bounds(cs: &Vec<char>, a: usize, b: usize) -> (r: (usize, usize))
    requires
        a <= b <= cs.len(),
    ensures
        a <= r.0 <= r.1 <= b,
        cs@.subrange(r.0 as int, r.1 as int) == trim(cs@.subrange(a as int, b as int)),
{
    let mut x: usize = a;
    while x < b && is_space_exec(cs[x])
        invariant
            a <= x <= b <= cs.len(),
            crate::notation::trim_start(cs@.subrange(a as int, b as int)) == crate::notation::trim_start(
                cs@.subrange(x as int, b as int),
            ),
        decreases b - x,
    {
        assert(cs@.subrange(x as int, b as int).skip(1) =~= cs@.subrange(x + 1, b as int));
        x += 1;
    }
    assert(crate::notation::trim_start(cs@.subrange(x as int, b as int)) == cs@.subrange(x as int, b as int));
    let mut y: usize = b;
    while y > x && is_space_exec(cs[y - 1])
        invariant
            a <= x <= y <= b <= cs.len(),
            trim(cs@.subrange(a as int, b as int)) == crate::notation::trim_end(cs@.subrange(x as int, y as int)),
        decreases y - x,
    {
        assert(cs@.subrange(x as int, y as int).drop_last() =~= cs@.subrange(x as int, y - 1));
        y -= 1;
    }
    (x, y)
}

/// The symbol that the text `cs[a..b]` writes, trimmed, as a list of none where the
/// trimmed text is empty.
fn piece_symbol(cs: &Vec<char>, a: usize, b: usize) -> (r: Option<Sentence>)
    requires
        a <= b <= cs.len(),
    ensures
        match r {
            Some(f) => symbols_of(kept(trim(cs@.subrange(a as int, b as int)))) == Some(f.deep_view()),
            None => symbols_of(kept(trim(cs@.subrange(a as int, b as int)))) is None,
        },
{
    let (x, y) = trim_bounds(cs, a, b);
    let ghost t = cs@.subrange(x as int, y as int);
    let mut f: Vec<Symbol> = Vec::new();
    if y > x {
        let text = string_from(cs, x, y);
        assert(kept(t) == seq![t]);
        assert(seq![t].skip(1) =~= Seq::<Seq<char>>::empty());
        assert(seq![t][0] == t);
        match Symbol::parse(text.as_str()) {
            Some(symbol) => {
                f.push(symbol);
                assert(symbols_of(seq![t].skip(1)) == Some(Seq::<SpecSymbol>::empty()));
                assert(symbols_of(seq![t]) == Some(seq![symbol@] + Seq::<SpecSymbol>::empty()));
                assert(f.deep_view() =~= seq![symbol@] + Seq::<SpecSymbol>::empty());
                Some(f)
            },
            None => {
                assert(symbols_of(seq![t]) is None);
                None
            },
        }
    } else {
        assert(kept(t) =~= Seq::<Seq<char>>::empty());
        assert(f.deep_view() =~= Seq::<SpecSymbol>::empty());
        Some(f)
    }
}

/// The symbols of the right-hand side `cs[a..b]`, where each of its texts writes one.
fn rhs_symbols(cs: &Vec<char>, a: usize, b: usize) -> (r: Option<Sentence>)
    requires
        a <= b <= cs.len(),
    ensures
        match r {
            Some(f) => symbols_of(rhs_texts(cs@.subrange(a as int, b as int))) == Some(f.deep_view()),
            None => symbols_of(rhs_texts(cs@.subrange(a as int, b as int))) is None,
        },
{
    let ghost whole = symbols_of(rhs_texts(cs@.subrange(a as int, b as int)));
    let mut result: Vec<Symbol> = Vec::new();
    let mut start: usize = a;
    let mut i: usize = a;
    assert(result.deep_view() + Seq::<SpecSymbol>::empty() =~= Seq::<SpecSymbol>::empty());
    while i < b
        invariant
            a <= start <= i <= b <= cs.len(),
            whole == symbols_of(rhs_texts(cs@.subrange(a as int, b as int))),
            forall|t: int| start <= t < i ==> cs@[t] != ' ',
            whole == match symbols_of(rhs_texts(cs@.subrange(start as int, b as int))) {
                Some(rest) => Some(result.deep_view() + rest),
                None => None,
            },
        decreases b - i,
    {
        if cs[i] == ' ' {
            let ghost sub = cs@.subrange(start as int, b as int);
            proof {
                lemma_space_from(sub, 0);
                match space_from(sub, 0) {
                    Some(j) => {
                        if j < i - start {
                            assert(sub[j] == cs@[start + j]);
                        }
                        if j > i - start {
                            assert(sub[i - start] == cs@[i as int]);
                        }
                    },
                    None => {
                        assert(sub[i - start] == cs@[i as int]);
                    },
                }
                assert(space_from(sub, 0) == Some(i - start));
                assert(sub.subrange(0, i - start) =~= cs@.subrange(start as int, i as int));
                assert(sub.subrange(i - start + 1, sub.len() as int) =~= cs@.subrange(i + 1, b as int));
                lemma_symbols_of_concat(kept(trim(cs@.subrange(start as int, i as int))), rhs_texts(cs@.subrange(i + 1, b as int)));
            }
            match piece_symbol(cs, start, i) {
                Some(mut f) => {
                    let ghost before = result.deep_view();
                    let ghost fd = f.deep_view();
                    result.append(&mut f);
                    proof {
                        assert(result.deep_view() =~= before + fd);
                        match symbols_of(rhs_texts(cs@.subrange(i + 1, b as int))) {
                            Some(rest) => {
                                assert(before + (fd + rest) =~= result.deep_view() + rest);
                            },
                            None => {},
                        }
                    }
                },
                None => {
                    return None;
                },
            }
            start = i + 1;
        }
        i += 1;
    }
    proof {
        let sub = cs@.subrange(start as int, b as int);
        lemma_space_from(sub, 0);
        if space_from(sub, 0) is Some {
            let j = space_from(sub, 0)->0;
            assert(sub[j] == cs@[start + j]);
        }
        assert(rhs_texts(sub) == kept(trim(sub)));
        assert(kept(trim(sub)) + Seq::<Seq<char>>::empty() =~= kept(trim(sub)));
    }
    match piece_symbol(cs, start, b) {
        Some(mut f) => {
            let ghost before = result.deep_view();
            let ghost fd = f.deep_view();
            result.append(&mut f);
            assert(result.deep_view() =~= before + fd);
            Some(result)
        },
        None => None,
    }
}

/// The view of an optional symbol.
pub open spec fn option_symbol(o: Option<Symbol>) -> Option<SpecSymbol> {
    match o {
        Some(s) => Some(s@),
        None => None,
    }
}

/// The texts of a list of lines.
pub open spec fn line_texts(lines: Seq<String>) -> Seq<Seq<char>> {
    Seq::new(lines.len(), |i: int| lines[i]@)
}

/// A "::=" found after position `o` is found at the same place in the text after `o`.
proof fn lemma_separator_shift(s: Seq<char>, o: int, j: int)
    requires
        0 <= o <= s.len(),
        0 <= j,
    ensures
        separator_from(s.subrange(o, s.len() as int), j) == match separator_from(s, o + j) {
            Some(m) => Some(m - o),
            None => None,
        },
    decreases s.len() - (o + j),
{
    let t = s.subrange(o, s.len() as int);
    if j + 3 <= t.len() {
        assert(t[j] == s[o + j]);
        assert(t[j + 1] == s[o + j + 1]);
        assert(t[j + 2] == s[o + j + 2]);
        lemma_separator_shift(s, o, j + 1);
    }
}

/// What `separator_from` finds is at or after where it starts.
proof fn lemma_separator_after(s: Seq<char>, k: int)
    requires
        0 <= k,
    ensures
        match separator_from(s, k) {
            Some(m) => k <= m && m + 3 <= s.len(),
            None => true,
        },
    decreases s.len() - k,
{
    if k + 3 <= s.len() {
        lemma_separator_after(s, k + 1);
    }
}

/// Lines after a line that writes no production leave the result failed.
proof fn lemma_grammar_failed_prefix(ls: Seq<Seq<char>>, k: int)
    requires
        0 <= k <= ls.len(),
        grammar_of_lines(ls.take(k)) is None,
    ensures
        grammar_of_lines(ls) is None,
    decreases ls.len() - k,
{
    if k < ls.len() {
        assert(ls.take(k + 1).drop_last() =~= ls.take(k));
        lemma_grammar_failed_prefix(ls, k + 1);
    } else {
        assert(ls.take(k) =~= ls);
    }
}

/// Adds the option `f` to the production of `lhs`, which is made where there is none.
pub fn add_option_exec(p: &mut ProductionMap, lhs: Symbol, f: Sentence)
    requires
        distinct_keys(old(p).deep_view()),
    ensures
        final(p).deep_view() == add_option(old(p).deep_view(), lhs@, f.deep_view()),
        distinct_keys(final(p).deep_view()),
{
    let ghost pd = p.deep_view();
    match find_key(p, &lhs) {
        Some(k) => {
            proof {
                lemma_key_index(pd, k as int);
            }
            let (key, mut options) = p.remove(k);
            let ghost od = options.deep_view();
            options.push(f);
            assert(options.deep_view() =~= od.push(f.deep_view()));
            p.insert(k, (key, options));
            assert(p.deep_view() =~= pd.update(k as int, (lhs@, pd[k as int].1.push(f.deep_view()))));
        },
        None => {
            let mut options: Vec<Sentence> = Vec::new();
            options.push(f);
            assert(options.deep_view() =~= seq![f.deep_view()]);
            p.push((lhs, options));
            assert(p.deep_view() =~= pd.push((lhs@, seq![f.deep_view()])));
        },
    }
}

/// The productions and the start symbol (the end of the stream where no line is a
/// production) that the lines of a grammar file write; `None` where a text of a
/// production line writes no symbol.
pub fn read_productions(lines: &Vec<String>) -> (r: Option<(ProductionMap, Symbol)>)
    ensures
        match r {
            Some((p, start)) => {
                let g = grammar_of_lines(line_texts(lines@));
                &&& g is Some
                &&& p.deep_view() == g.unwrap().0
                &&& start@ == match g.unwrap().1 {
                    Some(s) => s,
                    None => SpecSymbol::Eos,
                }
            },
            None => grammar_of_lines(line_texts(lines@)) is None,
        },
{
    let ghost ls = line_texts(lines@);
    let mut p: ProductionMap = Vec::new();
    let mut start: Option<Symbol> = None;
    let mut i: usize = 0;
    assert(ls.take(0) =~= Seq::<Seq<char>>::empty());
    assert(p.deep_view() =~= Seq::<(SpecSymbol, Seq<SpecSentence>)>::empty());
    while i < lines.len()
        invariant
            i <= lines.len(),
            ls == line_texts(lines@),
            distinct_keys(p.deep_view()),
            grammar_of_lines(ls.take(i as int)) == Some((p.deep_view(), option_symbol(start))),
        decreases lines.len() - i,
    {
        assert(ls.take(i + 1).drop_last() =~= ls.take(i as int));
        assert(ls.take(i + 1).last() == lines@[i as int]@);
        let cs = chars_of(lines[i].as_str());
        match separator_exec(&cs, 0) {
            Some(k) => {
                let (x, y) = trim_bounds(&cs, 0, k);
                let lhs_text = string_from(&cs, x, y);
                let end = match separator_exec(&cs, k + 3) {
                    Some(m) => m,
                    None => cs.len(),
                };
                proof {
                    lemma_separator_shift(cs@, k + 3, 0);
                    lemma_separator_after(cs@, k + 3);
                    let after = cs@.subrange(k + 3, cs@.len() as int);
                    match separator_from(after, 0) {
                        Some(m) => {
                            assert(after.subrange(0, m) =~= cs@.subrange(k + 3, end as int));
                        },
                        None => {
                            assert(after =~= cs@.subrange(k + 3, end as int));
                        },
                    }
                }
                let (a, b) = trim_bounds(&cs, k + 3, end);
                let lhs = match Symbol::parse(lhs_text.as_str()) {
                    Some(symbol) => symbol,
                    None => {
                        proof {
                            lemma_grammar_failed_prefix(ls, i + 1);
                        }
                        return None;
                    },
                };
                let f = match rhs_symbols(&cs, a, b) {
                    Some(f) => f,
                    None => {
                        proof {
                            lemma_grammar_failed_prefix(ls, i + 1);
                        }
                        return None;
                    },
                };
                if start.is_none() {
                    start = Some(lhs.clone());
                }
                add_option_exec(&mut p, lhs, f);
            },
            None => {},
        }
        i += 1;
    }
    assert(ls.take(i as int) =~= ls);
    let start_symbol = match start {
        Some(s) => s,
        None => Symbol::Eos,
    };
    Some((p, start_symbol))
}

/// The start symbol that a file's lines name: that of the first production, or the end
/// of the stream where there is none.
pub open spec fn start_of(start: Option<SpecSymbol>) -> SpecSymbol {
    match start {
        Some(s) => s,
        None => SpecSymbol::Eos,
    }
}

impl Grammar {
    /// The grammar that the lines of a grammar file write; `None` where a text of a
    /// production line writes no symbol, or the productions make no grammar.
    pub fn from_lines(lines: &Vec<String>) -> (r: Option<Grammar>)
        ensures
            match r {
                Some(g) => {
                    let w = grammar_of_lines(line_texts(lines@));
                    &&& w is Some
                    &&& valid_grammar(w.unwrap().0, start_of(w.unwrap().1))
                    &&& g@ == (GrammarModel { start: start_of(w.unwrap().1), productions: w.unwrap().0 })
                },
                None => {
                    let w = grammar_of_lines(line_texts(lines@));
                    w is None || !valid_grammar(w.unwrap().0, start_of(w.unwrap().1))
                },
            },
    {
        match read_productions(lines) {
            Some((productions, start)) => Grammar::try_new(&productions, &start),
            None => None,
        }
    }
}

} // verus!
