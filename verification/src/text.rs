//! Building text: decimal numerals and concatenation.
use vstd::prelude::*;

verus! {

broadcast use vstd::string::group_string_axioms;

/// The character of a decimal digit.
pub open spec fn digit_char(d: nat) -> char {
    (48 + d) as char
}

/// The decimal numeral of `n`, without leading zeros.
pub open spec fn digits(n: nat) -> Seq<char>
    decreases n,
{
    if n < 10 {
        seq![digit_char(n)]
    } else {
        digits(n / 10).push(digit_char(n % 10))
    }
}

/// The decimal numeral of `n`, with a minus sign where it is negative.
pub open spec fn decimal(n: int) -> Seq<char> {
    if n < 0 {
        seq!['-'] + digits((-n) as nat)
    } else {
        digits(n as nat)
    }
}

/// Appends `c` to `s` (`String::push`).
#[verifier::external_body]
pub(crate) fn push_char(s: &mut String, c: char)
    ensures
        final(s)@ == old(s)@.push(c),
{
    s.push(c);
}

/// Appends `t` to `s`.
pub fn push_str(s: &mut String, t: &str)
    ensures
        final(s)@ == old(s)@ + t@,
{
    s.append(t);
}

/// A string holding `t`.
pub fn string_of(t: &str) -> (r: String)
    ensures
        r@ == t@,
{
    t.to_owned()
}

/// Appends the decimal numeral of `n` to `s`.
pub fn push_unsigned(s: &mut String, n: u64)
    ensures
        final(s)@ == old(s)@ + digits(n as nat),
    decreases n,
{
    if n >= 10 {
        push_unsigned(s, n / 10);
    }
    let d = (n % 10) as u8;
    let c = (48 + d) as char;
    assert(c == digit_char((n % 10) as nat));
    push_char(s, c);
    proof {
        if n >= 10 {
            assert(digits(n as nat) == digits((n / 10) as nat).push(digit_char((n % 10) as nat)));
        } else {
            assert(digits(n as nat) == seq![digit_char(n as nat)]);
        }
    }
    assert(final(s)@ =~= old(s)@ + digits(n as nat));
}

/// Appends the decimal numeral of `n` to `s`.
pub fn push_signed(s: &mut String, n: i64)
    ensures
        final(s)@ == old(s)@ + decimal(n as int),
{
    if n < 0 {
        push_char(s, '-');
        let magnitude: u64 = if n == i64::MIN {
            9223372036854775808u64
        } else {
            (-n) as u64
        };
        push_unsigned(s, magnitude);
        assert(final(s)@ =~= old(s)@ + (seq!['-'] + digits((-n) as nat)));
    } else {
        push_unsigned(s, n as u64);
    }
}

/// The decimal numeral of `n`.
pub fn unsigned_text(n: u64) -> (r: String)
    ensures
        r@ == digits(n as nat),
{
    let mut s = String::new();
    push_unsigned(&mut s, n);
    assert(s@ =~= digits(n as nat));
    s
}

/// Whether two strings hold the same characters.
pub(crate) fn str_eq(a: &str, b: &str) -> (r: bool)
    ensures
        r == (a@ == b@),
{
    let n = a.unicode_len();
    if n != b.unicode_len() {
        return false;
    }
    let mut i: usize = 0;
    while i < n
        invariant
            i <= n,
            n == a@.len(),
            n == b@.len(),
            forall|k: int| 0 <= k < i ==> a@[k] == b@[k],
        decreases n - i,
    {
        if a.get_char(i) != b.get_char(i) {
            return false;
        }
        i += 1;
    }
    assert(a@ =~= b@);
    true
}

/// The text "integer".
pub open spec fn integer_text() -> Seq<char> {
    seq!['i', 'n', 't', 'e', 'g', 'e', 'r']
}

/// The text "float".
pub open spec fn float_text() -> Seq<char> {
    seq!['f', 'l', 'o', 'a', 't']
}

/// The text "string".
pub open spec fn string_text() -> Seq<char> {
    seq!['s', 't', 'r', 'i', 'n', 'g']
}

/// Whether `s` is "integer".
pub fn is_integer_text(s: &str) -> (r: bool)
    ensures
        r == (s@ == integer_text()),
{
    proof {
        reveal_strlit("integer");
    }
    assert("integer"@ =~= integer_text());
    str_eq(s, "integer")
}

/// Whether `s` is "float".
pub fn is_float_text(s: &str) -> (r: bool)
    ensures
        r == (s@ == float_text()),
{
    proof {
        reveal_strlit("float");
    }
    assert("float"@ =~= float_text());
    str_eq(s, "float")
}

/// Whether `s` is "string".
pub fn is_string_text(s: &str) -> (r: bool)
    ensures
        r == (s@ == string_text()),
{
    proof {
        reveal_strlit("string");
    }
    assert("string"@ =~= string_text());
    str_eq(s, "string")
}

/// The items of `list` joined by `separator`.
pub open spec fn joined(list: Seq<Seq<char>>, separator: Seq<char>) -> Seq<char>
    decreases list.len(),
{
    if list.len() == 0 {
        Seq::empty()
    } else if list.len() == 1 {
        list[0]
    } else {
        joined(list.drop_last(), separator) + separator + list.last()
    }
}

/// The items of `list` one after the other.
pub open spec fn concatenation(list: Seq<Seq<char>>) -> Seq<char>
    decreases list.len(),
{
    if list.len() == 0 {
        Seq::empty()
    } else {
        concatenation(list.drop_last()) + list.last()
    }
}

/// A copy of a string.
pub fn copy_string(s: &String) -> (r: String)
    ensures
        r@ == s@,
{
    s.clone()
}

/// A copy of a list of strings.
pub fn copy_strings(v: &Vec<String>) -> (r: Vec<String>)
    ensures
        r.len() == v.len(),
        forall|i: int| 0 <= i < v.len() ==> #[trigger] r@[i]@ == v@[i]@,
{
    let mut r: Vec<String> = Vec::new();
    let mut i: usize = 0;
    while i < v.len()
        invariant
            i <= v.len(),
            r.len() == i,
            forall|k: int| 0 <= k < i ==> #[trigger] r@[k]@ == v@[k]@,
        decreases v.len() - i,
    {
        r.push(v[i].clone());
        i += 1;
    }
    r
}

/// A copy of an optional string.
pub fn copy_option_string(s: &Option<String>) -> (r: Option<String>)
    ensures
        match s {
            Some(x) => r is Some && r->0@ == x@,
            None => r is None,
        },
{
    match s {
        Some(x) => Some(x.clone()),
        None => None,
    }
}

/// The view of an optional string.
pub open spec fn option_text(s: Option<String>) -> Option<Seq<char>> {
    match s {
        Some(x) => Some(x@),
        None => None,
    }
}

/// The number that a decimal numeral writes.
pub open spec fn numeral_value(ds: Seq<char>) -> int
    decreases ds.len(),
{
    if ds.len() == 0 {
        0
    } else {
        numeral_value(ds.drop_last()) * 10 + (ds.last() as int - 48)
    }
}

/// The numeral of `n` writes `n`.
pub proof fn lemma_digits_value(n: nat)
    ensures
        numeral_value(digits(n)) == n,
    decreases n,
{
    if n < 10 {
        assert(seq![digit_char(n)].drop_last() =~= Seq::<char>::empty());
        assert(digit_char(n) as int == 48 + n);
        assert(digits(n) == seq![digit_char(n)]);
        assert(numeral_value(Seq::<char>::empty()) == 0);
        assert(numeral_value(seq![digit_char(n)]) == numeral_value(Seq::<char>::empty()) * 10 + (digit_char(n) as int - 48));
    } else {
        lemma_digits_value(n / 10);
        assert(digits(n).drop_last() =~= digits(n / 10));
        assert(digit_char(n % 10) as int == 48 + n % 10);
        assert(digits(n).last() == digit_char(n % 10));
        assert(digits(n).len() > 0);
        assert(numeral_value(digits(n)) == numeral_value(digits(n / 10)) * 10 + (n % 10));
        assert((n / 10) * 10 + n % 10 == n);
    }
}

/// Different numbers have different numerals.
pub proof fn law_digits_distinct(n: nat, m: nat)
    requires
        n != m,
    ensures
        digits(n) != digits(m),
{
    lemma_digits_value(n);
    lemma_digits_value(m);
}

/// A text followed by the numerals of different numbers gives different texts.
pub proof fn law_numbered_names_distinct(prefix: Seq<char>, n: nat, m: nat)
    requires
        n != m,
    ensures
        prefix + digits(n) != prefix + digits(m),
{
    law_digits_distinct(n, m);
    if prefix + digits(n) == prefix + digits(m) {
        assert((prefix + digits(n)).skip(prefix.len() as int) =~= digits(n));
        assert((prefix + digits(m)).skip(prefix.len() as int) =~= digits(m));
    }
}

} // verus!
