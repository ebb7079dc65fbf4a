//! The syntax tree that the semantic actions of a grammar build on a stack of nodes, as
//! the parser meets them.
use crate::notation::is_digit;
use crate::symbol::{Action, SpecAction};
use crate::text::{float_text, integer_text, is_float_text, is_integer_text, is_string_text, string_of, string_text};
use vstd::prelude::*;

verus! {

/// A node of the syntax tree: a name and what it holds.
#[derive(Debug)]
pub struct Node {
    pub name: String,
    pub data: NodeData,
}

/// What a node holds: a number, a text, children, or nothing.
#[derive(Debug)]
pub enum NodeData {
    Integer(i64),
    /// A real number, as the lexeme that writes it.
    Float(String),
    String(String),
    Children(Vec<Node>),
    Epsilon,
}

/// The value of the decimal digits `ds`.
pub open spec fn digits_value(ds: Seq<char>) -> int
    decreases ds.len(),
{
    if ds.len() == 0 {
        0
    } else {
        digits_value(ds.drop_last()) * 10 + (ds.last() as int - '0' as int)
    }
}

/// Every character of `s` is a decimal digit.
pub open spec fn all_digits(s: Seq<char>) -> bool {
    forall|k: int| 0 <= k < s.len() ==> is_digit(#[trigger] s[k])
}

/// The `i64` that the text `s` writes: an optional sign followed by decimal digits
/// only, as `i64::from_str` reads it; `None` where it writes none, or a number out of
/// range.
pub open spec fn integer_of_text(s: Seq<char>) -> Option<i64> {
    let negative = s.len() > 0 && s[0] == '-';
    let body = if s.len() > 0 && (s[0] == '-' || s[0] == '+') {
        s.skip(1)
    } else {
        s
    };
    if body.len() == 0 || !all_digits(body) {
        None
    } else {
        let v = if negative {
            -digits_value(body)
        } else {
            digits_value(body)
        };
        if i64::MIN <= v <= i64::MAX {
            Some(v as i64)
        } else {
            None
        }
    }
}

/// The position after the run of digits of `s` that starts at `k`.
pub open spec fn digits_from(s: Seq<char>, k: int) -> int
    decreases s.len() - k,
{
    if 0 <= k < s.len() && is_digit(s[k]) {
        digits_from(s, k + 1)
    } else {
        k
    }
}

/// `c` in lower case, for ASCII letters.
pub open spec fn lower(c: char) -> char {
    if 'A' <= c && c <= 'Z' {
        ((c as int) + 32) as char
    } else {
        c
    }
}

/// `s` in lower case, for ASCII letters.
pub open spec fn lowered(s: Seq<char>) -> Seq<char> {
    Seq::new(s.len(), |i: int| lower(s[i]))
}

/// The text `t`, lower case, is a decimal number with an optional fraction and exponent:
/// digits, or digits and '.' and optional digits, or optional digits and '.' and
/// digits, then optionally 'e', an optional sign and digits.
pub open spec fn is_number_text(t: Seq<char>) -> bool {
    let a = digits_from(t, 0);
    let (b, has_digits) = if a < t.len() && t[a] == '.' {
        (digits_from(t, a + 1), a > 0 || digits_from(t, a + 1) > a + 1)
    } else {
        (a, a > 0)
    };
    &&& has_digits
    &&& (b == t.len() || (t[b] == 'e' && {
        let c = if b + 1 < t.len() && (t[b + 1] == '+' || t[b + 1] == '-') {
            b + 2
        } else {
            b + 1
        };
        digits_from(t, c) > c && digits_from(t, c) == t.len()
    }))
}

/// The text `s` writes a real number as `f64::from_str` reads it: in lower case, an
/// optional sign followed by "inf", "infinity", "nan" or a decimal number.
pub open spec fn is_float_literal(s: Seq<char>) -> bool {
    let t = lowered(s);
    let body = if t.len() > 0 && (t[0] == '+' || t[0] == '-') {
        t.skip(1)
    } else {
        t
    };
    body == seq!['i', 'n', 'f'] || body == seq!['i', 'n', 'f', 'i', 'n', 'i', 't', 'y'] || body == seq!['n', 'a', 'n']
        || is_number_text(body)
}

/// Whether executing the action `a` on a stack of `len` nodes, after a token with the
/// lexeme `lexeme`, succeeds: a create action needs a lexeme that writes a value of its
/// data type, a group action as many nodes as it groups, and a sibling action two
/// nodes, the lower of which holds children.
pub open spec fn action_applies(a: SpecAction, stack: Seq<Node>, lexeme: Seq<char>) -> bool {
    match a {
        SpecAction::Create(t, _) => {
            ||| t == integer_text() && integer_of_text(lexeme) is Some
            ||| t == float_text() && is_float_literal(lexeme)
            ||| t == string_text()
        },
        SpecAction::Group(_, count) => count <= stack.len(),
        SpecAction::MakeSibling => stack.len() >= 2 && stack[stack.len() - 2].data is Children,
    }
}

/// The value of the digits `cs[a..b]`, where it is at most `limit`.
pub(crate) fn digits_value_exec(cs: &Vec<char>, a: usize, b: usize, limit: u64) -> (r: Option<u64>)
    requires
        a <= b <= cs.len(),
        forall|k: int| a <= k < b ==> is_digit(#[trigger] cs@[k]),
    ensures
        match r {
            Some(v) => v == digits_value(cs@.subrange(a as int, b as int)) && v <= limit,
            None => digits_value(cs@.subrange(a as int, b as int)) > limit,
        },
{
    let mut value: u64 = 0;
    let mut i: usize = a;
    assert(cs@.subrange(a as int, a as int) =~= Seq::<char>::empty());
    while i < b
        invariant
            a <= i <= b <= cs.len(),
            forall|k: int| a <= k < b ==> is_digit(#[trigger] cs@[k]),
            value == digits_value(cs@.subrange(a as int, i as int)),
            value <= limit,
        decreases b - i,
    {
        let d = (cs[i] as u32 - '0' as u32) as u64;
        assert(cs@.subrange(a as int, i + 1).drop_last() =~= cs@.subrange(a as int, i as int));
        if d > limit || value > (limit - d) / 10 {
            proof {
                lemma_digits_value_grows(cs@.subrange(a as int, b as int), (i + 1 - a) as int);
                assert(cs@.subrange(a as int, b as int).take((i + 1 - a) as int) =~= cs@.subrange(a as int, i + 1));
                assert(value * 10 + d > limit) by (nonlinear_arith)
                    requires
                        d > limit || value > (limit - d) / 10,
                        d <= 9,
                ;
            }
            return None;
        }
        assert(value * 10 + d <= limit) by (nonlinear_arith)
            requires
                value <= (limit - d) / 10,
                d <= limit,
        ;
        value = value * 10 + d;
        i += 1;
    }
    Some(value)
}

/// A number written by more digits is no smaller.
proof fn lemma_digits_value_grows(ds: Seq<char>, k: int)
    requires
        0 <= k <= ds.len(),
        forall|t: int| 0 <= t < ds.len() ==> is_digit(#[trigger] ds[t]),
    ensures
        digits_value(ds.take(k)) <= digits_value(ds),
        0 <= digits_value(ds.take(k)),
    decreases ds.len() - k,
{
    if k < ds.len() {
        lemma_digits_value_grows(ds, k + 1);
        assert(ds.take(k + 1).drop_last() =~= ds.take(k));
        assert(ds.take(k + 1).last() == ds[k]);
    } else {
        assert(ds.take(k) =~= ds);
        lemma_digits_value_nonnegative(ds);
    }
}

/// Digits write no negative number.
proof fn lemma_digits_value_nonnegative(ds: Seq<char>)
    requires
        forall|t: int| 0 <= t < ds.len() ==> is_digit(#[trigger] ds[t]),
    ensures
        0 <= digits_value(ds),
    decreases ds.len(),
{
    if ds.len() > 0 {
        assert(ds.last() == ds[ds.len() - 1]);
        lemma_digits_value_nonnegative(ds.drop_last());
    }
}

/// The node that a create action of data type `t` and name `n` makes from the lexeme
/// `lexeme`.
pub open spec fn created(node: Node, t: Seq<char>, n: Seq<char>, lexeme: Seq<char>) -> bool {
    &&& node.name@ == n
    &&& if t == integer_text() {
        integer_of_text(lexeme) matches Some(v) && node.data == NodeData::Integer(v)
    } else if t == float_text() {
        node.data matches NodeData::Float(x) && x@ == lexeme
    } else {
        node.data matches NodeData::String(x) && x@ == lexeme
    }
}

/// The stack `after` is what executing the action `a` on the stack `before`, after a
/// token with the lexeme `lexeme`, leaves: a create action pushes the node it makes; a
/// group action replaces its number of nodes on top by a node of its name that holds
/// them, in order; a sibling action appends the top node to the children of the node
/// under it.
pub open spec fn action_done(a: SpecAction, before: Seq<Node>, after: Seq<Node>, lexeme: Seq<char>) -> bool {
    match a {
        SpecAction::Create(t, n) => {
            &&& after.len() == before.len() + 1
            &&& after.drop_last() == before
            &&& created(after.last(), t, n, lexeme)
        },
        SpecAction::Group(n, count) => {
            &&& after.len() == before.len() - count + 1
            &&& after.drop_last() == before.take(before.len() - count)
            &&& after.last().name@ == n
            &&& after.last().data matches NodeData::Children(ch) && ch@ == before.skip(before.len() - count)
        },
        SpecAction::MakeSibling => {
            &&& after.len() == before.len() - 1
            &&& after.drop_last() == before.take(before.len() - 2)
            &&& after.last().name == before[before.len() - 2].name
            &&& before[before.len() - 2].data matches NodeData::Children(old_children) && after.last().data matches NodeData::Children(ch)
                && ch@ == old_children@.push(before.last())
        },
    }
}

/// The run of digits that starts at `k` stops at a character that is no digit, or at
/// the end.
pub(crate) proof fn lemma_digits_from_stop(s: Seq<char>, k: int)
    requires
        0 <= k <= s.len(),
    ensures
        k <= digits_from(s, k) <= s.len(),
        digits_from(s, k) < s.len() ==> !is_digit(s[digits_from(s, k)]),
    decreases s.len() - k,
{
    if k < s.len() && is_digit(s[k]) {
        lemma_digits_from_stop(s, k + 1);
    }
}

/// The position after the run of digits that starts at `k`.
pub(crate) fn digits_from_exec(t: &Vec<char>, k: usize) -> (r: usize)
    requires
        k <= t.len(),
    ensures
        r == digits_from(t@, k as int),
        k <= r <= t.len(),
        forall|j: int| k <= j < r ==> is_digit(#[trigger] t@[j]),
{
    let mut j: usize = k;
    while j < t.len() && '0' <= t[j] && t[j] <= '9'
        invariant
            k <= j <= t.len(),
            digits_from(t@, k as int) == digits_from(t@, j as int),
            forall|i: int| k <= i < j ==> is_digit(#[trigger] t@[i]),
        decreases t.len() - j,
    {
        j += 1;
    }
    j
}

/// The `i64` that `lexeme` writes, as `i64::from_str` reads it.
pub fn parse_integer(lexeme: &str) -> (r: Option<i64>)
    ensures
        r == integer_of_text(lexeme@),
{
    let cs = crate::notation::chars_of(lexeme);
    let negative = cs.len() > 0 && cs[0] == '-';
    let start: usize = if cs.len() > 0 && (cs[0] == '-' || cs[0] == '+') {
        1
    } else {
        0
    };
    let ghost body = if cs@.len() > 0 && (cs@[0] == '-' || cs@[0] == '+') {
        cs@.skip(1)
    } else {
        cs@
    };
    assert(body =~= cs@.subrange(start as int, cs@.len() as int));
    if start == cs.len() {
        return None;
    }
    let end = digits_from_exec(&cs, start);
    if end < cs.len() {
        proof {
            lemma_digits_from_stop(cs@, start as int);
            assert(body[end - start] == cs@[end as int]);
            assert(!is_digit(body[end - start]));
            assert(!all_digits(body));
        }
        return None;
    }
    assert(all_digits(body)) by {
        assert forall|k: int| 0 <= k < body.len() implies is_digit(#[trigger] body[k]) by {
            assert(body[k] == cs@[start + k]);
        }
    }
    let limit: u64 = if negative {
        9223372036854775808u64
    } else {
        9223372036854775807u64
    };
    match digits_value_exec(&cs, start, end, limit) {
        Some(v) => {
            if negative {
                if v == 9223372036854775808u64 {
                    Some(i64::MIN)
                } else {
                    Some(-(v as i64))
                }
            } else {
                Some(v as i64)
            }
        },
        None => None,
    }
}

/// `c` in lower case, for ASCII letters.
fn lower_exec(c: char) -> (r: char)
    ensures
        r == lower(c),
{
    if 'A' <= c && c <= 'Z' {
        ((c as u8) + 32) as char
    } else {
        c
    }
}

/// Whether the text `t`, lower case, is a decimal number.
fn is_number_exec(t: &Vec<char>) -> (r: bool)
    ensures
        r == is_number_text(t@),
{
    let a = digits_from_exec(t, 0);
    let (b, has_digits) = if a < t.len() && t[a] == '.' {
        let b2 = digits_from_exec(t, a + 1);
        (b2, a > 0 || b2 > a + 1)
    } else {
        (a, a > 0)
    };
    if !has_digits {
        return false;
    }
    if b == t.len() {
        return true;
    }
    if t[b] != 'e' {
        return false;
    }
    let c = if b + 1 < t.len() && (t[b + 1] == '+' || t[b + 1] == '-') {
        b + 2
    } else {
        b + 1
    };
    let d = digits_from_exec(t, c);
    d > c && d == t.len()
}

/// Whether `lexeme` writes a real number, as `f64::from_str` reads it.
pub fn is_float_lexeme(lexeme: &str) -> (r: bool)
    ensures
        r == is_float_literal(lexeme@),
{
    let cs = crate::notation::chars_of(lexeme);
    let mut t: Vec<char> = Vec::new();
    let mut i: usize = 0;
    while i < cs.len()
        invariant
            i <= cs.len(),
            t@ == lowered(cs@).take(i as int),
        decreases cs.len() - i,
    {
        t.push(lower_exec(cs[i]));
        assert(t@ =~= lowered(cs@).take(i + 1));
        i += 1;
    }
    assert(t@ =~= lowered(cs@));
    let start: usize = if t.len() > 0 && (t[0] == '+' || t[0] == '-') {
        1
    } else {
        0
    };
    let mut body: Vec<char> = Vec::new();
    let mut k: usize = start;
    while k < t.len()
        invariant
            start <= k <= t.len(),
            body@ == t@.subrange(start as int, k as int),
        decreases t.len() - k,
    {
        body.push(t[k]);
        assert(body@ =~= t@.subrange(start as int, k + 1));
        k += 1;
    }
    assert(body@ =~= if t@.len() > 0 && (t@[0] == '+' || t@[0] == '-') {
        t@.skip(1)
    } else {
        t@
    });
    let inf = vec!['i', 'n', 'f'];
    let infinity = vec!['i', 'n', 'f', 'i', 'n', 'i', 't', 'y'];
    let nan = vec!['n', 'a', 'n'];
    same_chars(&body, &inf) || same_chars(&body, &infinity) || same_chars(&body, &nan) || is_number_exec(&body)
}

/// Whether two lists of characters are equal.
fn same_chars(a: &Vec<char>, b: &Vec<char>) -> (r: bool)
    ensures
        r == (a@ == b@),
{
    if a.len() != b.len() {
        return false;
    }
    let mut i: usize = 0;
    while i < a.len()
        invariant
            i <= a.len(),
            a.len() == b.len(),
            forall|k: int| 0 <= k < i ==> a@[k] == b@[k],
        decreases a.len() - i,
    {
        if a[i] != b[i] {
            return false;
        }
        i += 1;
    }
    assert(a@ =~= b@);
    true
}

impl Action {
    /// Whether executing the action on `semantic_stack` after a token with the lexeme
    /// `previous_lexeme` succeeds.
    pub fn applies(&self, semantic_stack: &Vec<Node>, previous_lexeme: &str) -> (r: bool)
        ensures
            r == action_applies(self@, semantic_stack@, previous_lexeme@),
    {
        match self {
            Action::Create(data_type, _) => {
                (is_integer_text(data_type.as_str()) && parse_integer(previous_lexeme).is_some()) || (is_float_text(
                    data_type.as_str(),
                ) && is_float_lexeme(previous_lexeme)) || is_string_text(data_type.as_str())
            },
            Action::Group(_, count) => *count <= semantic_stack.len(),
            Action::MakeSibling => semantic_stack.len() >= 2 && matches!(
                semantic_stack[semantic_stack.len() - 2].data,
                NodeData::Children(_)
            ),
        }
    }

    /// Executes the action on the stack of nodes `semantic_stack`, after a token with the
    /// lexeme `previous_lexeme` (see `action_done`).
    pub fn execute_action(&self, semantic_stack: &mut Vec<Node>, previous_lexeme: &str)
        requires
            action_applies(self@, old(semantic_stack)@, previous_lexeme@),
        ensures
            action_done(self@, old(semantic_stack)@, final(semantic_stack)@, previous_lexeme@),
    {
        let ghost before = semantic_stack@;
        match self {
            Action::Create(data_type, name) => {
                let data = if is_integer_text(data_type.as_str()) {
                    NodeData::Integer(parse_integer(previous_lexeme).unwrap())
                } else if is_float_text(data_type.as_str()) {
                    NodeData::Float(string_of(previous_lexeme))
                } else {
                    NodeData::String(string_of(previous_lexeme))
                };
                semantic_stack.push(Node { name: name.clone(), data });
                assert(semantic_stack@.drop_last() =~= before);
            },
            Action::Group(name, count) => {
                let at = semantic_stack.len() - *count;
                let children = semantic_stack.split_off(at);
                semantic_stack.push(Node { name: name.clone(), data: NodeData::Children(children) });
                assert(semantic_stack@.drop_last() =~= before.take(before.len() - *count));
            },
            Action::MakeSibling => {
                let sibling = semantic_stack.pop().unwrap();
                let top = semantic_stack.pop().unwrap();
                let Node { name, data } = top;
                match data {
                    NodeData::Children(mut list) => {
                        list.push(sibling);
                        semantic_stack.push(Node { name, data: NodeData::Children(list) });
                        assert(semantic_stack@.drop_last() =~= before.take(before.len() - 2));
                    },
                    other => {
                        assert(false);
                        semantic_stack.push(Node { name, data: other });
                    },
                }
            },
        }
    }
}

} // verus!
