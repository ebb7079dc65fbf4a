//! The notation of grammar symbols in a grammar file: `<E>` is a non terminal,
//! `'+'` a terminal, `EPSILON` the empty sentence, `@create~integer~num@` and
//! `@group~2~expr@` semantic actions. A text is read as the first of these forms
//! that it holds somewhere, the enclosed part reaching to the last closing mark on the
//! line.
use crate::symbol::{Action, SpecAction, SpecSymbol, Symbol};
use crate::text::{float_text, integer_text, push_char, string_text};
use vstd::prelude::*;

verus! {

broadcast use vstd::string::group_string_axioms;

/// The position of the last `close` in `s` from `from` on, before the end of the line
/// that `from` is on.
pub open spec fn line_last(s: Seq<char>, from: int, close: char) -> Option<int>
    decreases s.len() - from,
{
    if from < 0 || from >= s.len() || s[from] == '\n' {
        None
    } else {
        match line_last(s, from + 1, close) {
            Some(j) => Some(j),
            None => if s[from] == close {
                Some(from)
            } else {
                None
            },
        }
    }
}

/// What the first `open` from position `i` on that a `close` follows on its line
/// encloses, up to the last such `close`.
pub open spec fn enclosed_from(s: Seq<char>, i: int, open: char, close: char) -> Option<Seq<char>>
    decreases s.len() - i,
{
    if i < 0 || i >= s.len() {
        None
    } else if s[i] == open && line_last(s, i + 1, close) is Some {
        Some(s.subrange(i + 1, line_last(s, i + 1, close)->0))
    } else {
        enclosed_from(s, i + 1, open, close)
    }
}

/// What the first `open` that a `close` follows on its line encloses.
pub open spec fn enclosed(s: Seq<char>, open: char, close: char) -> Option<Seq<char>> {
    enclosed_from(s, 0, open, close)
}

/// `s` holds the word `w` at position `k`.
pub open spec fn word_at(s: Seq<char>, k: int, w: Seq<char>) -> bool {
    0 <= k && k + w.len() <= s.len() && s.subrange(k, k + w.len()) == w
}

/// `s` holds the word `w` somewhere.
pub open spec fn holds_word(s: Seq<char>, w: Seq<char>) -> bool {
    exists|k: int| word_at(s, k, w)
}

/// An ASCII letter.
pub open spec fn is_letter(c: char) -> bool {
    ('a' <= c && c <= 'z') || ('A' <= c && c <= 'Z')
}

/// An ASCII decimal digit.
pub open spec fn is_digit(c: char) -> bool {
    '0' <= c && c <= '9'
}

/// The end of the run of letters of `s` that starts at `k`.
pub open spec fn letters_end(s: Seq<char>, k: int) -> int
    decreases s.len() - k,
{
    if k < 0 || k >= s.len() || !is_letter(s[k]) {
        k
    } else {
        letters_end(s, k + 1)
    }
}

/// The end of the run of digits of `s` that starts at `k`.
pub open spec fn digits_end(s: Seq<char>, k: int) -> int
    decreases s.len() - k,
{
    if k < 0 || k >= s.len() || !is_digit(s[k]) {
        k
    } else {
        digits_end(s, k + 1)
    }
}

/// The word "EPSILON".
pub open spec fn epsilon_word() -> Seq<char> {
    seq!['E', 'P', 'S', 'I', 'L', 'O', 'N']
}

/// The word "@create~".
pub open spec fn create_word() -> Seq<char> {
    seq!['@', 'c', 'r', 'e', 'a', 't', 'e', '~']
}

/// The word "@group~".
pub open spec fn group_word() -> Seq<char> {
    seq!['@', 'g', 'r', 'o', 'u', 'p', '~']
}

/// The data type and name of a create action written at position `p`: "@create~",
/// letters, '~', letters, '@'.
pub open spec fn create_at(s: Seq<char>, p: int) -> Option<(Seq<char>, Seq<char>)> {
    if word_at(s, p, create_word()) {
        let a = p + 8;
        let b = letters_end(s, a);
        if b > a && b < s.len() && s[b] == '~' {
            let d = letters_end(s, b + 1);
            if d > b + 1 && d < s.len() && s[d] == '@' {
                Some((s.subrange(a, b), s.subrange(b + 1, d)))
            } else {
                None
            }
        } else {
            None
        }
    } else {
        None
    }
}

/// The first create action written at or after position `p`.
pub open spec fn create_from(s: Seq<char>, p: int) -> Option<(Seq<char>, Seq<char>)>
    decreases s.len() - p,
{
    if p < 0 || p >= s.len() {
        None
    } else {
        match create_at(s, p) {
            Some(x) => Some(x),
            None => create_from(s, p + 1),
        }
    }
}

/// The digits and the rest of a group action written at position `p`: "@group~",
/// digits, '~', then anything up to the last '@' of the line.
pub open spec fn group_at(s: Seq<char>, p: int) -> Option<(Seq<char>, Seq<char>)> {
    if word_at(s, p, group_word()) {
        let a = p + 7;
        let b = digits_end(s, a);
        if b > a && b < s.len() && s[b] == '~' {
            match line_last(s, b + 1, '@') {
                Some(e) => Some((s.subrange(a, b), s.subrange(b + 1, e))),
                None => None,
            }
        } else {
            None
        }
    } else {
        None
    }
}

/// The first group action written at or after position `p`.
pub open spec fn group_from(s: Seq<char>, p: int) -> Option<(Seq<char>, Seq<char>)>
    decreases s.len() - p,
{
    if p < 0 || p >= s.len() {
        None
    } else {
        match group_at(s, p) {
            Some(x) => Some(x),
            None => group_from(s, p + 1),
        }
    }
}

/// The part of `s` before its first '~'.
pub open spec fn before_tilde(s: Seq<char>) -> Seq<char>
    decreases s.len(),
{
    if s.len() == 0 {
        s
    } else if s[0] == '~' {
        Seq::empty()
    } else {
        seq![s[0]] + before_tilde(s.skip(1))
    }
}

/// A white space character (Unicode `White_Space`, as `char::is_whitespace`).
pub open spec fn is_space(c: char) -> bool {
    ||| ('\u{9}' <= c && c <= '\u{d}')
    ||| c == ' '
    ||| c == '\u{85}'
    ||| c == '\u{a0}'
    ||| c == '\u{1680}'
    ||| ('\u{2000}' <= c && c <= '\u{200a}')
    ||| c == '\u{2028}'
    ||| c == '\u{2029}'
    ||| c == '\u{202f}'
    ||| c == '\u{205f}'
    ||| c == '\u{3000}'
}

/// `s` without its leading white space.
pub open spec fn trim_start(s: Seq<char>) -> Seq<char>
    decreases s.len(),
{
    if s.len() > 0 && is_space(s[0]) {
        trim_start(s.skip(1))
    } else {
        s
    }
}

/// `s` without its trailing white space.
pub open spec fn trim_end(s: Seq<char>) -> Seq<char>
    decreases s.len(),
{
    if s.len() > 0 && is_space(s.last()) {
        trim_end(s.drop_last())
    } else {
        s
    }
}

/// `s` without leading or trailing white space.
pub open spec fn trim(s: Seq<char>) -> Seq<char> {
    trim_end(trim_start(s))
}

/// The number that the decimal digits `ds` write.
pub open spec fn decimal_value(ds: Seq<char>) -> nat
    decreases ds.len(),
{
    if ds.len() == 0 {
        0
    } else {
        decimal_value(ds.drop_last()) * 10 + ((ds.last() as int - '0' as int) as nat)
    }
}

/// The symbol that the text `s` writes; `None` where it writes none, or a create action
/// of a data type other than "integer", "float" and "string", or a group action of a
/// size beyond `usize`.
pub open spec fn symbol_of_text(s: Seq<char>) -> Option<SpecSymbol> {
    match enclosed(s, '<', '>') {
        Some(v) => Some(SpecSymbol::NonTerminal(v)),
        None => match enclosed(s, '\'', '\'') {
            Some(v) => Some(SpecSymbol::Terminal(v)),
            None => if holds_word(s, epsilon_word()) {
                Some(SpecSymbol::Epsilon)
            } else {
                match create_from(s, 0) {
                    Some((t, n)) => if t == integer_text() || t == float_text() || t == string_text() {
                        Some(SpecSymbol::SemanticAction(SpecAction::Create(t, n)))
                    } else {
                        None
                    },
                    None => match group_from(s, 0) {
                        Some((d, rest)) => if decimal_value(d) <= usize::MAX {
                            Some(
                                SpecSymbol::SemanticAction(
                                    SpecAction::Group(trim(before_tilde(rest)), decimal_value(d) as usize),
                                ),
                            )
                        } else {
                            None
                        },
                        None => None,
                    },
                }
            },
        },
    }
}

/// The characters of `s`.
pub fn chars_of(s: &str) -> (r: Vec<char>)
    ensures
        r@ == s@,
{
    let n = s.unicode_len();
    let mut r: Vec<char> = Vec::new();
    let mut i: usize = 0;
    while i < n
        invariant
            i <= n,
            n == s@.len(),
            r@ == s@.take(i as int),
        decreases n - i,
    {
        r.push(s.get_char(i));
        assert(r@ =~= s@.take(i + 1));
        i += 1;
    }
    assert(s@.take(i as int) =~= s@);
    r
}

/// A string of the characters of `cs` from `a` to `b`.
pub fn string_from(cs: &Vec<char>, a: usize, b: usize) -> (r: String)
    requires
        a <= b <= cs.len(),
    ensures
        r@ == cs@.subrange(a as int, b as int),
{
    let mut r = String::new();
    let mut i: usize = a;
    while i < b
        invariant
            a <= i <= b <= cs.len(),
            r@ == cs@.subrange(a as int, i as int),
        decreases b - i,
    {
        push_char(&mut r, cs[i]);
        assert(r@ =~= cs@.subrange(a as int, i + 1));
        i += 1;
    }
    r
}

/// The position of the last `close` from `from` on, before the end of the line.
pub(crate) fn line_last_exec(cs: &Vec<char>, from: usize, close: char) -> (r: Option<usize>)
    ensures
        match r {
            Some(j) => line_last(cs@, from as int, close) == Some(j as int) && j < cs.len(),
            None => line_last(cs@, from as int, close) is None,
        },
{
    let mut last: Option<usize> = None;
    let mut j: usize = from;
    while j < cs.len() && cs[j] != '\n'
        invariant
            from <= j,
            line_last(cs@, from as int, close) == match line_last(cs@, j as int, close) {
                Some(x) => Some(x),
                None => match last {
                    Some(l) => Some(l as int),
                    None => None,
                },
            },
            match last {
                Some(l) => l < cs.len(),
                None => true,
            },
        decreases cs.len() - j,
    {
        if cs[j] == close {
            last = Some(j);
        }
        j += 1;
    }
    last
}

/// The bounds of what the first `open` that a `close` follows on its line encloses.
fn enclosed_exec(cs: &Vec<char>, open: char, close: char) -> (r: Option<(usize, usize)>)
    ensures
        match r {
            Some((a, b)) => a <= b <= cs.len() && enclosed(cs@, open, close) == Some(cs@.subrange(a as int, b as int)),
            None => enclosed(cs@, open, close) is None,
        },
{
    let mut i: usize = 0;
    while i < cs.len()
        invariant
            i <= cs.len(),
            enclosed(cs@, open, close) == enclosed_from(cs@, i as int, open, close),
        decreases cs.len() - i,
    {
        if cs[i] == open {
            match line_last_exec(cs, i + 1, close) {
                Some(j) => {
                    proof {
                        lemma_line_last_after(cs@, i + 1, close);
                    }
                    return Some((i + 1, j));
                },
                None => {},
            }
        }
        i += 1;
    }
    None
}

/// What `line_last` finds is at or after where it starts.
pub(crate) proof fn lemma_line_last_after(s: Seq<char>, from: int, close: char)
    ensures
        match line_last(s, from, close) {
            Some(j) => from <= j < s.len(),
            None => true,
        },
    decreases s.len() - from,
{
    if !(from < 0 || from >= s.len() || s[from] == '\n') {
        lemma_line_last_after(s, from + 1, close);
    }
}

/// Whether `cs` holds the word `w` at position `k`.
pub(crate) fn word_at_exec(cs: &Vec<char>, k: usize, w: &Vec<char>) -> (r: bool)
    ensures
        r == word_at(cs@, k as int, w@),
{
    if k > cs.len() || w.len() > cs.len() - k {
        return false;
    }
    let mut i: usize = 0;
    while i < w.len()
        invariant
            i <= w.len(),
            k + w.len() <= cs.len(),
            forall|t: int| 0 <= t < i ==> cs@[k + t] == w@[t],
        decreases w.len() - i,
    {
        if cs[k + i] != w[i] {
            assert(cs@.subrange(k as int, k + w.len())[i as int] != w@[i as int]);
            return false;
        }
        i += 1;
    }
    assert(cs@.subrange(k as int, k + w.len()) =~= w@);
    true
}

/// Whether `cs` holds the word `w` somewhere.
pub(crate) fn holds_word_exec(cs: &Vec<char>, w: &Vec<char>) -> (r: bool)
    ensures
        r == holds_word(cs@, w@),
{
    if w.len() == 0 {
        assert(word_at(cs@, 0, w@)) by {
            assert(cs@.subrange(0, 0) =~= w@);
        }
        return true;
    }
    let mut k: usize = 0;
    while k < cs.len()
        invariant
            k <= cs.len(),
            w.len() > 0,
            forall|t: int| 0 <= t < k ==> !word_at(cs@, t, w@),
        decreases cs.len() - k,
    {
        if word_at_exec(cs, k, w) {
            return true;
        }
        k += 1;
    }
    assert forall|t: int| !word_at(cs@, t, w@) by {
        if 0 <= t && t + w@.len() <= cs@.len() {
            assert(t < k);
        }
    }
    false
}

/// The end of the run of letters that starts at `k`.
fn letters_end_exec(cs: &Vec<char>, k: usize) -> (r: usize)
    requires
        k <= cs.len(),
    ensures
        r == letters_end(cs@, k as int),
        k <= r <= cs.len(),
{
    let mut j: usize = k;
    while j < cs.len() && (('a' <= cs[j] && cs[j] <= 'z') || ('A' <= cs[j] && cs[j] <= 'Z'))
        invariant
            k <= j <= cs.len(),
            letters_end(cs@, k as int) == letters_end(cs@, j as int),
        decreases cs.len() - j,
    {
        j += 1;
    }
    j
}

/// The end of the run of digits that starts at `k`.
fn digits_end_exec(cs: &Vec<char>, k: usize) -> (r: usize)
    requires
        k <= cs.len(),
    ensures
        r == digits_end(cs@, k as int),
        k <= r <= cs.len(),
{
    let mut j: usize = k;
    while j < cs.len() && '0' <= cs[j] && cs[j] <= '9'
        invariant
            k <= j <= cs.len(),
            digits_end(cs@, k as int) == digits_end(cs@, j as int),
        decreases cs.len() - j,
    {
        j += 1;
    }
    j
}

/// The bounds of the data type and name of the first create action.
fn create_exec(cs: &Vec<char>) -> (r: Option<(usize, usize, usize, usize)>)
    ensures
        match r {
            Some((a, b, c, d)) => a <= b <= c <= d <= cs.len() && create_from(cs@, 0) == Some(
                (cs@.subrange(a as int, b as int), cs@.subrange(c as int, d as int)),
            ),
            None => create_from(cs@, 0) is None,
        },
{
    let word = vec!['@', 'c', 'r', 'e', 'a', 't', 'e', '~'];
    assert(word@ =~= create_word());
    let mut p: usize = 0;
    while p < cs.len()
        invariant
            p <= cs.len(),
            word@ == create_word(),
            create_from(cs@, 0) == create_from(cs@, p as int),
        decreases cs.len() - p,
    {
        if word_at_exec(cs, p, &word) {
            let a = p + 8;
            let b = letters_end_exec(cs, a);
            if b > a && b < cs.len() && cs[b] == '~' {
                let d = letters_end_exec(cs, b + 1);
                if d > b + 1 && d < cs.len() && cs[d] == '@' {
                    return Some((a, b, b + 1, d));
                }
            }
        }
        p += 1;
    }
    None
}

/// The bounds of the digits and the rest of the first group action.
fn group_exec(cs: &Vec<char>) -> (r: Option<(usize, usize, usize, usize)>)
    ensures
        match r {
            Some((a, b, c, e)) => a <= b <= c <= e <= cs.len() && b == digits_end(cs@, a as int) && group_from(cs@, 0) == Some(
                (cs@.subrange(a as int, b as int), cs@.subrange(c as int, e as int)),
            ),
            None => group_from(cs@, 0) is None,
        },
{
    let word = vec!['@', 'g', 'r', 'o', 'u', 'p', '~'];
    assert(word@ =~= group_word());
    let mut p: usize = 0;
    while p < cs.len()
        invariant
            p <= cs.len(),
            word@ == group_word(),
            group_from(cs@, 0) == group_from(cs@, p as int),
        decreases cs.len() - p,
    {
        if word_at_exec(cs, p, &word) {
            let a = p + 7;
            let b = digits_end_exec(cs, a);
            if b > a && b < cs.len() && cs[b] == '~' {
                match line_last_exec(cs, b + 1, '@') {
                    Some(e) => {
                        proof {
                            lemma_line_last_after(cs@, b + 1, '@');
                        }
                        return Some((a, b, b + 1, e));
                    },
                    None => {},
                }
            }
        }
        p += 1;
    }
    None
}

/// Whether `c` is a white space character.
pub fn is_space_exec(c: char) -> (r: bool)
    ensures
        r == is_space(c),
{
    ('\u{9}' <= c && c <= '\u{d}') || c == ' ' || c == '\u{85}' || c == '\u{a0}' || c == '\u{1680}' || (
    '\u{2000}' <= c && c <= '\u{200a}') || c == '\u{2028}' || c == '\u{2029}' || c == '\u{202f}' || c
        == '\u{205f}' || c == '\u{3000}'
}

/// The name of a group action: the part of its rest before any '~', trimmed.
fn group_name(cs: &Vec<char>, c: usize, e: usize) -> (r: String)
    requires
        c <= e <= cs.len(),
    ensures
        r@ == trim(before_tilde(cs@.subrange(c as int, e as int))),
{
    let ghost rest = cs@.subrange(c as int, e as int);
    let mut t: usize = c;
    while t < e && cs[t] != '~'
        invariant
            c <= t <= e <= cs.len(),
            rest == cs@.subrange(c as int, e as int),
            before_tilde(rest) == cs@.subrange(c as int, t as int) + before_tilde(cs@.subrange(t as int, e as int)),
        decreases e - t,
    {
        assert(cs@.subrange(t as int, e as int).skip(1) =~= cs@.subrange(t + 1, e as int));
        assert(cs@.subrange(c as int, t as int) + seq![cs@[t as int]] =~= cs@.subrange(c as int, t + 1));
        t += 1;
    }
    assert(before_tilde(cs@.subrange(t as int, e as int)) =~= Seq::<char>::empty());
    assert(before_tilde(rest) =~= cs@.subrange(c as int, t as int));
    let mut a: usize = c;
    while a < t && is_space_exec(cs[a])
        invariant
            c <= a <= t <= e <= cs.len(),
            trim_start(before_tilde(rest)) == trim_start(cs@.subrange(a as int, t as int)),
            before_tilde(rest) == cs@.subrange(c as int, t as int),
        decreases t - a,
    {
        assert(cs@.subrange(a as int, t as int).skip(1) =~= cs@.subrange(a + 1, t as int));
        a += 1;
    }
    assert(trim_start(cs@.subrange(a as int, t as int)) == cs@.subrange(a as int, t as int));
    let mut b: usize = t;
    while b > a && is_space_exec(cs[b - 1])
        invariant
            c <= a <= b <= t <= e <= cs.len(),
            trim(before_tilde(rest)) == trim_end(cs@.subrange(a as int, b as int)),
        decreases b - a,
    {
        assert(cs@.subrange(a as int, b as int).drop_last() =~= cs@.subrange(a as int, b - 1));
        b -= 1;
    }
    string_from(cs, a, b)
}

/// The number that the digits `cs[a..b]` write, where it fits in a `usize`.
fn decimal_exec(cs: &Vec<char>, a: usize, b: usize) -> (r: Option<usize>)
    requires
        a <= b <= cs.len(),
        forall|k: int| a <= k < b ==> is_digit(#[trigger] cs@[k]),
    ensures
        match r {
            Some(v) => v == decimal_value(cs@.subrange(a as int, b as int)),
            None => decimal_value(cs@.subrange(a as int, b as int)) > usize::MAX,
        },
{
    let mut value: usize = 0;
    let mut i: usize = a;
    assert(cs@.subrange(a as int, a as int) =~= Seq::<char>::empty());
    while i < b
        invariant
            a <= i <= b <= cs.len(),
            forall|k: int| a <= k < b ==> is_digit(#[trigger] cs@[k]),
            value == decimal_value(cs@.subrange(a as int, i as int)),
        decreases b - i,
    {
        let d = (cs[i] as u32 - '0' as u32) as usize;
        assert(cs@.subrange(a as int, i + 1).drop_last() =~= cs@.subrange(a as int, i as int));
        let next = match value.checked_mul(10) {
            Some(m) => m.checked_add(d),
            None => None,
        };
        match next {
            Some(v) => {
                value = v;
            },
            None => {
                proof {
                    lemma_decimal_grows(cs@.subrange(a as int, b as int), (i + 1 - a) as int);
                    assert(cs@.subrange(a as int, b as int).take((i + 1 - a) as int) =~= cs@.subrange(
                        a as int,
                        i + 1,
                    ));
                }
                return None;
            },
        }
        i += 1;
    }
    Some(value)
}

/// A number written by more digits is no smaller than that of its leading digits.
proof fn lemma_decimal_grows(ds: Seq<char>, k: int)
    requires
        0 <= k <= ds.len(),
    ensures
        decimal_value(ds.take(k)) <= decimal_value(ds),
    decreases ds.len() - k,
{
    if k < ds.len() {
        lemma_decimal_grows(ds, k + 1);
        assert(ds.take(k + 1).drop_last() =~= ds.take(k));
    } else {
        assert(ds.take(k) =~= ds);
    }
}

impl Symbol {
    /// The symbol that the text `s` writes, as described by the module: a non terminal,
    /// a terminal, the empty sentence or a semantic action; `None` where `s` writes
    /// none.
    pub fn parse(s: &str) -> (r: Option<Symbol>)
        ensures
            match r {
                Some(x) => symbol_of_text(s@) == Some(x@),
                None => symbol_of_text(s@) is None,
            },
    {
        let cs = chars_of(s);
        match enclosed_exec(&cs, '<', '>') {
            Some((a, b)) => {
                return Some(Symbol::NonTerminal(string_from(&cs, a, b)));
            },
            None => {},
        }
        match enclosed_exec(&cs, '\'', '\'') {
            Some((a, b)) => {
                return Some(Symbol::Terminal(string_from(&cs, a, b)));
            },
            None => {},
        }
        let epsilon = vec!['E', 'P', 'S', 'I', 'L', 'O', 'N'];
        assert(epsilon@ =~= epsilon_word());
        if holds_word_exec(&cs, &epsilon) {
            return Some(Symbol::Epsilon);
        }
        match create_exec(&cs) {
            Some((a, b, c, d)) => {
                let data_type = string_from(&cs, a, b);
                let name = string_from(&cs, c, d);
                if crate::text::is_integer_text(data_type.as_str()) || crate::text::is_float_text(data_type.as_str())
                    || crate::text::is_string_text(data_type.as_str()) {
                    return Some(Symbol::SemanticAction(Action::Create(data_type, name)));
                } else {
                    return None;
                }
            },
            None => {},
        }
        match group_exec(&cs) {
            Some((a, b, c, e)) => {
                proof {
                    lemma_digits_run(cs@, a as int);
                }
                match decimal_exec(&cs, a, b) {
                    Some(size) => Some(Symbol::SemanticAction(Action::Group(group_name(&cs, c, e), size))),
                    None => None,
                }
            },
            None => None,
        }
    }

    /// The symbol that the text `s` writes, which must write one.
    pub fn from_str(s: &str) -> (r: Symbol)
        requires
            symbol_of_text(s@) is Some,
        ensures
            r@ == symbol_of_text(s@)->0,
    {
        Symbol::parse(s).unwrap()
    }
}

/// The run of digits that starts at `k` holds digits only.
proof fn lemma_digits_run(s: Seq<char>, k: int)
    requires
        0 <= k <= s.len(),
    ensures
        k <= digits_end(s, k) <= s.len(),
        forall|t: int| k <= t < digits_end(s, k) ==> is_digit(#[trigger] s[t]),
    decreases s.len() - k,
{
    if k < s.len() && is_digit(s[k]) {
        lemma_digits_run(s, k + 1);
    }
}

/// What `line_last` finds is a closing mark at or after where it starts, with no line
/// end before it.
proof fn lemma_line_last_found(s: Seq<char>, from: int, close: char)
    requires
        0 <= from,
    ensures
        match line_last(s, from, close) {
            Some(j) => from <= j < s.len() && s[j] == close && forall|t: int| from <= t <= j ==> s[t] != '\n',
            None => true,
        },
    decreases s.len() - from,
{
    if !(from >= s.len() || s[from] == '\n') {
        lemma_line_last_found(s, from + 1, close);
    }
}

/// With no line end from `from` on, and `close` at the end, `line_last` finds the end.
proof fn lemma_line_last_at_end(s: Seq<char>, from: int, close: char)
    requires
        0 <= from < s.len(),
        s.last() == close,
        forall|t: int| from <= t < s.len() ==> s[t] != '\n',
    ensures
        line_last(s, from, close) == Some(s.len() - 1),
    decreases s.len() - from,
{
    if from + 1 < s.len() {
        lemma_line_last_at_end(s, from + 1, close);
    } else {
        assert(line_last(s, from + 1, close) is None);
        assert(s[from] == s.last());
    }
}

/// A name written between '<' and '>' reads back as the non terminal of that name,
/// where it holds no line end.
pub proof fn law_non_terminal_notation(name: Seq<char>)
    requires
        forall|t: int| 0 <= t < name.len() ==> name[t] != '\n',
    ensures
        symbol_of_text(seq!['<'] + name + seq!['>']) == Some(SpecSymbol::NonTerminal(name)),
{
    let s = seq!['<'] + name + seq!['>'];
    assert(s[0] == '<');
    assert(s.last() == '>');
    assert forall|t: int| 1 <= t < s.len() implies s[t] != '\n' by {
        if t < s.len() - 1 {
            assert(s[t] == name[t - 1]);
        }
    }
    lemma_line_last_at_end(s, 1, '>');
    assert(s.subrange(1, s.len() - 1) =~= name);
}

/// No '<' of `s` from position `i` on is followed on its line by a '>'.
proof fn lemma_not_enclosed(s: Seq<char>, i: int)
    requires
        0 <= i,
        forall|a: int, b: int| 0 <= a < b < s.len() && s[a] == '<' && s[b] == '>' ==> exists|t: int|
            a < t < b && s[t] == '\n',
    ensures
        enclosed_from(s, i, '<', '>') is None,
    decreases s.len() - i,
{
    if i < s.len() {
        if s[i] == '<' {
            lemma_line_last_found(s, i + 1, '>');
            if line_last(s, i + 1, '>') is Some {
                let j = line_last(s, i + 1, '>')->0;
                let t = choose|t: int| i < t < j && s[t] == '\n';
                assert(false);
            }
        }
        lemma_not_enclosed(s, i + 1);
    }
}

/// A name written between quotes reads back as the terminal of that name, where it
/// holds no line end, and no '<' followed by a '>' (which would read as a non
/// terminal).
pub proof fn law_terminal_notation(name: Seq<char>)
    requires
        forall|t: int| 0 <= t < name.len() ==> name[t] != '\n',
        forall|a: int, b: int| 0 <= a < b < name.len() ==> !(name[a] == '<' && name[b] == '>'),
    ensures
        symbol_of_text(seq!['\''] + name + seq!['\'']) == Some(SpecSymbol::Terminal(name)),
{
    let s = seq!['\''] + name + seq!['\''];
    assert(s[0] == '\'');
    assert(s.last() == '\'');
    assert forall|t: int| 1 <= t < s.len() implies s[t] != '\n' by {
        if t < s.len() - 1 {
            assert(s[t] == name[t - 1]);
        }
    }
    assert forall|a: int, b: int| 0 <= a < b < s.len() && s[a] == '<' && s[b] == '>' implies exists|t: int|
        a < t < b && s[t] == '\n' by {
        assert(a > 0 && b < s.len() - 1);
        assert(s[a] == name[a - 1]);
        assert(s[b] == name[b - 1]);
    }
    lemma_not_enclosed(s, 0);
    lemma_line_last_at_end(s, 1, '\'');
    assert(s.subrange(1, s.len() - 1) =~= name);
}

} // verus!
