//! The semantic actions of the node-making notation: `makenode~<type>~<name>`,
//! `makefamily~<size>~<name>` and `makesibling`, and what they do to a stack of syntax
//! tree nodes. Unlike the actions of grammar symbols, these never fail: where an action
//! cannot be done, it stops and leaves the stack as it then is.
use crate::notation::{
    chars_of, holds_word, is_digit, line_last, string_from, word_at,
};
use crate::syntax_tree::{all_digits, digits_value, is_float_lexeme, is_float_literal, integer_of_text, parse_integer, Node, NodeData};
use crate::text::{push_str, push_unsigned, str_eq, string_of, unsigned_text, digits};
use vstd::prelude::*;

verus! {

/// A semantic action that makes syntax tree nodes.
#[derive(Debug)]
pub enum Action {
    /// Make a node of a data type (first field) with a name (second field) from the
    /// previous token.
    MakeNode(String, String),
    /// Make a node of a name that holds a number of nodes from the stack.
    MakeFamily(usize, String),
    /// Append the top node to the list of nodes under it.
    MakeSibling,
}

/// Mathematical model of an [`Action`].
pub enum SpecNodeAction {
    MakeNode(Seq<char>, Seq<char>),
    MakeFamily(usize, Seq<char>),
    MakeSibling,
}

impl View for Action {
    type V = SpecNodeAction;

    open spec fn view(&self) -> SpecNodeAction {
        match self {
            Action::MakeNode(t, n) => SpecNodeAction::MakeNode(t@, n@),
            Action::MakeFamily(c, n) => SpecNodeAction::MakeFamily(*c, n@),
            Action::MakeSibling => SpecNodeAction::MakeSibling,
        }
    }
}

/// The data of the node that `makenode` of data type `t` makes from the lexeme
/// `lexeme`, if it makes one: "integer" and "float" need a lexeme that writes such a
/// number, "string" keeps the lexeme, "list" holds no children yet, "epsilon" nothing.
pub open spec fn node_data_of(t: Seq<char>, lexeme: Seq<char>, data: NodeData) -> bool {
    if t == "integer"@ {
        integer_of_text(lexeme) matches Some(v) && data == NodeData::Integer(v)
    } else if t == "float"@ {
        is_float_literal(lexeme) && (data matches NodeData::Float(x) && x@ == lexeme)
    } else if t == "string"@ {
        data matches NodeData::String(x) && x@ == lexeme
    } else if t == "list"@ {
        data matches NodeData::Children(ch) && ch@.len() == 0
    } else {
        data == NodeData::Epsilon
    }
}

/// Whether `makenode` of data type `t` makes a node from the lexeme `lexeme`.
pub open spec fn node_made(t: Seq<char>, lexeme: Seq<char>) -> bool {
    ||| t == "integer"@ && integer_of_text(lexeme) is Some
    ||| t == "float"@ && is_float_literal(lexeme)
    ||| t == "string"@
    ||| t == "list"@
    ||| t == "epsilon"@
}

/// A node as a family takes it: a node that holds an empty list of children holds
/// nothing instead.
pub open spec fn adopted(before: Node, after: Node) -> bool {
    &&& after.name == before.name
    &&& if before.data matches NodeData::Children(ch) && ch@.len() == 0 {
        after.data == NodeData::Epsilon
    } else {
        after.data == before.data
    }
}

/// The stack `after` is what the action `a` leaves of the stack `before`, after a token
/// with the lexeme `lexeme`.
pub open spec fn node_action_done(a: SpecNodeAction, before: Seq<Node>, after: Seq<Node>, lexeme: Seq<char>) -> bool {
    match a {
        SpecNodeAction::MakeNode(t, n) => if node_made(t, lexeme) {
            &&& after.len() == before.len() + 1
            &&& after.drop_last() == before
            &&& after.last().name@ == n
            &&& node_data_of(t, lexeme, after.last().data)
        } else {
            after == before
        },
        SpecNodeAction::MakeFamily(size, n) => if size <= before.len() {
            &&& after.len() == before.len() - size + 1
            &&& after.drop_last() == before.take(before.len() - size)
            &&& after.last().name@ == n
            &&& after.last().data matches NodeData::Children(ch) && ch@.len() == size && forall|k: int|
                0 <= k < size ==> #[trigger] adopted(before[before.len() - size + k], ch@[k])
        } else {
            after.len() == 0
        },
        SpecNodeAction::MakeSibling => if before.len() < 2 {
            after.len() == 0
        } else {
            match before[before.len() - 2].data {
                NodeData::Children(old_children) => {
                    &&& after.len() == before.len() - 1
                    &&& after.drop_last() == before.take(before.len() - 2)
                    &&& after.last().name == before[before.len() - 2].name
                    &&& after.last().data matches NodeData::Children(ch) && ch@ == old_children@.push(before.last())
                },
                _ => after == before.drop_last(),
            }
        },
    }
}

/// The position of the first line end of `s` at or after `k`, or its length.
pub open spec fn line_end(s: Seq<char>, k: int) -> int
    decreases s.len() - k,
{
    if k < 0 || k >= s.len() || s[k] == '\n' {
        k
    } else {
        line_end(s, k + 1)
    }
}

/// The two fields of a `word~first~second` action written at position `p`: the first
/// reaches to the last '~' of the line, the second from there to the end of the line.
pub open spec fn fields_at(s: Seq<char>, p: int, word: Seq<char>) -> Option<(Seq<char>, Seq<char>)> {
    if word_at(s, p, word) {
        let a = p + word.len();
        match line_last(s, a, '~') {
            Some(j) => Some((s.subrange(a, j), s.subrange(j + 1, line_end(s, j + 1)))),
            None => None,
        }
    } else {
        None
    }
}

/// The fields of the first such action written at or after position `p`.
pub open spec fn fields_from(s: Seq<char>, p: int, word: Seq<char>) -> Option<(Seq<char>, Seq<char>)>
    decreases s.len() - p,
{
    if p < 0 || p >= s.len() {
        None
    } else {
        match fields_at(s, p, word) {
            Some(x) => Some(x),
            None => fields_from(s, p + 1, word),
        }
    }
}

/// The `usize` that the text `s` writes, as `usize::from_str` reads it: an optional
/// '+' followed by decimal digits only.
pub open spec fn size_of_text(s: Seq<char>) -> Option<usize> {
    let body = if s.len() > 0 && s[0] == '+' {
        s.skip(1)
    } else {
        s
    };
    if body.len() == 0 || !all_digits(body) || digits_value(body) > usize::MAX {
        None
    } else {
        Some(digits_value(body) as usize)
    }
}

/// The action that the text `s` writes; `None` where it writes none, or a family of a
/// size that is no `usize`.
pub open spec fn node_action_of_text(s: Seq<char>) -> Option<SpecNodeAction> {
    match fields_from(s, 0, "makenode~"@) {
        Some((t, n)) => Some(SpecNodeAction::MakeNode(t, n)),
        None => match fields_from(s, 0, "makefamily~"@) {
            Some((c, n)) => match size_of_text(c) {
                Some(size) => Some(SpecNodeAction::MakeFamily(size, n)),
                None => None,
            },
            None => if holds_word(s, "makesibling"@) {
                Some(SpecNodeAction::MakeSibling)
            } else {
                None
            },
        },
    }
}

/// The position of the first line end at or after `k`, or the length.
fn line_end_exec(cs: &Vec<char>, k: usize) -> (r: usize)
    requires
        k <= cs.len(),
    ensures
        r == line_end(cs@, k as int),
        k <= r <= cs.len(),
{
    let mut j: usize = k;
    while j < cs.len() && cs[j] != '\n'
        invariant
            k <= j <= cs.len(),
            line_end(cs@, k as int) == line_end(cs@, j as int),
        decreases cs.len() - j,
    {
        j += 1;
    }
    j
}

/// The bounds of the two fields of the first `word~first~second` action.
fn fields_exec(cs: &Vec<char>, word: &Vec<char>) -> (r: Option<(usize, usize, usize, usize)>)
    ensures
        match r {
            Some((a, b, c, d)) => a <= b <= c <= d <= cs.len() && fields_from(cs@, 0, word@) == Some(
                (cs@.subrange(a as int, b as int), cs@.subrange(c as int, d as int)),
            ),
            None => fields_from(cs@, 0, word@) is None,
        },
{
    let mut p: usize = 0;
    while p < cs.len()
        invariant
            p <= cs.len(),
            fields_from(cs@, 0, word@) == fields_from(cs@, p as int, word@),
        decreases cs.len() - p,
    {
        if crate::notation::word_at_exec(cs, p, word) {
            let a = p + word.len();
            match crate::notation::line_last_exec(cs, a, '~') {
                Some(j) => {
                    proof {
                        crate::notation::lemma_line_last_after(cs@, a as int, '~');
                    }
                    let e = line_end_exec(cs, j + 1);
                    return Some((a, j, j + 1, e));
                },
                None => {},
            }
        }
        p += 1;
    }
    None
}

/// The `usize` that `cs[a..b]` writes, as `usize::from_str` reads it.
fn parse_size(cs: &Vec<char>, a: usize, b: usize) -> (r: Option<usize>)
    requires
        a <= b <= cs.len(),
    ensures
        r == size_of_text(cs@.subrange(a as int, b as int)),
{
    let ghost s = cs@.subrange(a as int, b as int);
    let start = if a < b && cs[a] == '+' {
        a + 1
    } else {
        a
    };
    let ghost body = if s.len() > 0 && s[0] == '+' {
        s.skip(1)
    } else {
        s
    };
    assert(body =~= cs@.subrange(start as int, b as int));
    if start == b {
        return None;
    }
    let mut k: usize = start;
    while k < b
        invariant
            start <= k <= b <= cs.len(),
            s == cs@.subrange(a as int, b as int),
            body == (if s.len() > 0 && s[0] == '+' {
                s.skip(1)
            } else {
                s
            }),
            body == cs@.subrange(start as int, b as int),
            forall|t: int| start <= t < k ==> is_digit(#[trigger] cs@[t]),
        decreases b - k,
    {
        if !('0' <= cs[k] && cs[k] <= '9') {
            assert(body[k - start] == cs@[k as int]);
            assert(!all_digits(body));
            return None;
        }
        k += 1;
    }
    assert(all_digits(body)) by {
        assert forall|t: int| 0 <= t < body.len() implies is_digit(#[trigger] body[t]) by {
            assert(body[t] == cs@[start + t]);
        }
    }
    match crate::syntax_tree::digits_value_exec(cs, start, b, usize::MAX as u64) {
        Some(v) => Some(v as usize),
        None => None,
    }
}

/// The node as a family takes it.
fn adopt(c: Node) -> (r: Node)
    ensures
        adopted(c, r),
{
    let Node { name, data } = c;
    match data {
        NodeData::Children(children) => {
            if children.len() == 0 {
                Node { name, data: NodeData::Epsilon }
            } else {
                Node { name, data: NodeData::Children(children) }
            }
        },
        other => Node { name, data: other },
    }
}

impl Action {
    /// The action that the text `s` writes (see `node_action_of_text`); `None` where
    /// it writes none.
    pub fn from_text(s: &str) -> (r: Option<Action>)
        ensures
            match r {
                Some(a) => node_action_of_text(s@) == Some(a@),
                None => node_action_of_text(s@) is None,
            },
    {
        let cs = chars_of(s);
        let make_node = chars_of("makenode~");
        match fields_exec(&cs, &make_node) {
            Some((a, b, c, d)) => {
                return Some(Action::MakeNode(string_from(&cs, a, b), string_from(&cs, c, d)));
            },
            None => {},
        }
        let make_family = chars_of("makefamily~");
        match fields_exec(&cs, &make_family) {
            Some((a, b, c, d)) => {
                return match parse_size(&cs, a, b) {
                    Some(size) => Some(Action::MakeFamily(size, string_from(&cs, c, d))),
                    None => None,
                };
            },
            None => {},
        }
        let make_sibling = chars_of("makesibling");
        if crate::notation::holds_word_exec(&cs, &make_sibling) {
            Some(Action::MakeSibling)
        } else {
            None
        }
    }

    /// "make_node(<type>, <name>)", "make_family(<size>, <name>)" or "make_sibling".
    pub fn describe(&self) -> (r: String)
        ensures
            r@ == match self@ {
                SpecNodeAction::MakeNode(t, n) => "make_node("@ + t + ", "@ + n + ")"@,
                SpecNodeAction::MakeFamily(c, n) => "make_family("@ + digits(c as nat) + ", "@ + n + ")"@,
                SpecNodeAction::MakeSibling => "make_sibling"@,
            },
    {
        match self {
            Action::MakeNode(data_type, name) => {
                let mut r = string_of("make_node(");
                push_str(&mut r, data_type.as_str());
                push_str(&mut r, ", ");
                push_str(&mut r, name.as_str());
                push_str(&mut r, ")");
                r
            },
            Action::MakeFamily(size, name) => {
                let mut r = string_of("make_family(");
                push_unsigned(&mut r, *size as u64);
                push_str(&mut r, ", ");
                push_str(&mut r, name.as_str());
                push_str(&mut r, ")");
                r
            },
            Action::MakeSibling => string_of("make_sibling"),
        }
    }

    /// Executes the action on `semantic_stack` after a token with the lexeme
    /// `previous_lexeme` (see `node_action_done`).
    pub fn execute(&self, semantic_stack: &mut Vec<Node>, previous_lexeme: &str)
        ensures
            node_action_done(self@, old(semantic_stack)@, final(semantic_stack)@, previous_lexeme@),
    {
        match self {
            Action::MakeNode(data_type, name) => self.make_node(semantic_stack, previous_lexeme, data_type.as_str(), name.as_str()),
            Action::MakeFamily(size, name) => self.make_family(semantic_stack, *size, name.as_str()),
            Action::MakeSibling => self.make_sibling(semantic_stack),
        }
    }

    /// Pushes a node named `name` of `data_type` made from `previous_lexeme`, where one
    /// can be made.
    fn make_node(&self, semantic_stack: &mut Vec<Node>, previous_lexeme: &str, data_type: &str, name: &str)
        ensures
            node_action_done(
                SpecNodeAction::MakeNode(data_type@, name@),
                old(semantic_stack)@,
                final(semantic_stack)@,
                previous_lexeme@,
            ),
    {
        let ghost before = semantic_stack@;
        proof {
            reveal_strlit("integer");
            reveal_strlit("float");
            reveal_strlit("string");
            reveal_strlit("list");
            reveal_strlit("epsilon");
            assert("integer"@.len() == 7 && "float"@.len() == 5 && "string"@.len() == 6);
            assert("list"@.len() == 4 && "epsilon"@.len() == 7);
            assert("integer"@[0] != "epsilon"@[0]);
            assert("integer"@ != "epsilon"@);
        }
        let data = if str_eq(data_type, "integer") {
            match parse_integer(previous_lexeme) {
                Some(v) => NodeData::Integer(v),
                None => {
                    return;
                },
            }
        } else if str_eq(data_type, "float") {
            if is_float_lexeme(previous_lexeme) {
                NodeData::Float(string_of(previous_lexeme))
            } else {
                return;
            }
        } else if str_eq(data_type, "string") {
            NodeData::String(string_of(previous_lexeme))
        } else if str_eq(data_type, "list") {
            NodeData::Children(Vec::new())
        } else if str_eq(data_type, "epsilon") {
            NodeData::Epsilon
        } else {
            return;
        };
        semantic_stack.push(Node { name: string_of(name), data });
        assert(semantic_stack@.drop_last() =~= before);
    }

    /// Replaces the `size` nodes on top by a node named `name` that holds them, in
    /// order; where there are fewer, the stack is emptied.
    fn make_family(&self, semantic_stack: &mut Vec<Node>, size: usize, name: &str)
        ensures
            node_action_done(
                SpecNodeAction::MakeFamily(size, name@),
                old(semantic_stack)@,
                final(semantic_stack)@,
                Seq::empty(),
            ),
    {
        let ghost before = semantic_stack@;
        let ghost n = before.len();
        let mut popped: Vec<Node> = Vec::new();
        let mut k: usize = 0;
        while k < size
            invariant
                before == old(semantic_stack)@,
                n == before.len(),
                k <= size,
                k <= n,
                semantic_stack@ == before.take(n - k),
                popped@.len() == k,
                forall|j: int| 0 <= j < k ==> #[trigger] adopted(before[n - 1 - j], popped@[j]),
            decreases size - k,
        {
            match semantic_stack.pop() {
                Some(c) => {
                    assert(before.take(n - k).last() == before[n - 1 - k]);
                    assert(semantic_stack@ =~= before.take(n - k - 1));
                    popped.push(adopt(c));
                },
                None => {
                    return;
                },
            }
            k += 1;
        }
        let mut children: Vec<Node> = Vec::new();
        while popped.len() > 0
            invariant
                before == old(semantic_stack)@,
                n == before.len(),
                size <= n,
                semantic_stack@ == before.take(n - size),
                children@.len() + popped@.len() == size,
                forall|j: int| 0 <= j < popped@.len() ==> #[trigger] adopted(before[n - 1 - j], popped@[j]),
                forall|j: int| 0 <= j < children@.len() ==> #[trigger] adopted(before[n - size + j], children@[j]),
            decreases popped@.len(),
        {
            let ghost m = popped@.len();
            let c = popped.pop().unwrap();
            assert(adopted(before[n - 1 - (m - 1)], c));
            children.push(c);
        }
        semantic_stack.push(Node { name: string_of(name), data: NodeData::Children(children) });
        assert(semantic_stack@.drop_last() =~= before.take(n - size));
    }

    /// Appends the top node to the list of nodes under it; where there is no such list,
    /// the top node is dropped.
    fn make_sibling(&self, semantic_stack: &mut Vec<Node>)
        ensures
            node_action_done(SpecNodeAction::MakeSibling, old(semantic_stack)@, final(semantic_stack)@, Seq::empty()),
    {
        let ghost before = semantic_stack@;
        let sibling = match semantic_stack.pop() {
            Some(s) => s,
            None => {
                return;
            },
        };
        let top = match semantic_stack.pop() {
            Some(t) => t,
            None => {
                return;
            },
        };
        let Node { name, data } = top;
        match data {
            NodeData::Children(mut list) => {
                list.push(sibling);
                semantic_stack.push(Node { name, data: NodeData::Children(list) });
                assert(semantic_stack@.drop_last() =~= before.take(before.len() - 2));
            },
            other => {
                semantic_stack.push(Node { name, data: other });
                assert(semantic_stack@ =~= before.drop_last());
            },
        }
    }
}

} // verus!
