//! The symbol tables laid out as text: one line per entry, in columns, nested tables
//! indented under their class or function, and the whole framed by rules.
use crate::notation::chars_of;
use crate::symbol_table::class::Class;
use crate::symbol_table::data::Data;
use crate::symbol_table::function::{signature_text, Function};
use crate::symbol_table::inherit::{texts, Inherit};
use crate::symbol_table::local::Local;
use crate::symbol_table::param::Param;
use crate::symbol_table::symbol_table::{rule_text, SymbolTable, SymbolTableEntry};
use crate::symbol_table::temporary::Temporary;
use crate::symbol_table::utils::{parameter_type_text, type_text};
use crate::text::{concatenation, digits, joined, push_char, push_str, string_of, unsigned_text};
use crate::visibility::visibility_text;
use vstd::prelude::*;

verus! {

/// `n` spaces.
pub open spec fn spaces(n: nat) -> Seq<char> {
    Seq::new(n, |i: int| ' ')
}

/// `s` followed by spaces up to `w` characters, as a text (or a number aligned to the
/// left) is laid out in a column of width `w`.
pub open spec fn padded(s: Seq<char>, w: nat) -> Seq<char> {
    if s.len() < w {
        s + spaces((w - s.len()) as nat)
    } else {
        s
    }
}

/// The line of a local variable: kind, identifier and type.
pub open spec fn local_line(l: Local) -> Seq<char> {
    padded("local"@, 10) + "| "@ + padded(l.id@, 12) + "| "@ + type_text(l.data_type@, l.dimension@)
}

/// The line of a parameter: kind, identifier and type.
pub open spec fn param_line(p: Param) -> Seq<char> {
    padded("param"@, 10) + "| "@ + padded(p.id@, 12) + "| "@ + parameter_type_text(p.data_type@, p.dimension@)
}

/// The line of a member variable: kind, identifier, type, visibility and size.
pub open spec fn data_line(d: Data) -> Seq<char> {
    padded("data"@, 10) + "| "@ + padded(d.id@, 10) + "| "@ + padded(type_text(d.data_type@, d.dimension@), 10)
        + "| "@ + visibility_text(d.visibility) + "| "@ + padded(digits(d.bytes as nat), 10)
}

/// The line of a temporary value: kind, identifier, type and size.
pub open spec fn temporary_line(t: Temporary) -> Seq<char> {
    padded("temp"@, 10) + "| "@ + padded(t.id@, 10) + "| "@ + padded(t.data_type@, 10) + "| "@ + padded(
        digits(t.bytes as nat),
        10,
    ) + "|"@
}

/// The line of an inherit entry: the inherited classes, or "none".
pub open spec fn inherit_line(i: Inherit) -> Seq<char> {
    padded("inherit"@, 10) + "| "@ + if i.names@.len() == 0 {
        "none"@
    } else {
        joined(texts(i.names@), ", "@)
    }
}

/// The first line of a function: kind, identifier, signature and visibility if any.
pub open spec fn function_line(f: Function) -> Seq<char> {
    padded("function"@, 10) + "| "@ + padded(f.id@, 12) + "| "@ + padded(signature_text(f), 34) + match f.visibility {
        Some(v) => "| "@ + visibility_text(v),
        None => Seq::empty(),
    }
}

/// The first line of a class: kind and identifier.
pub open spec fn class_line(c: Class) -> Seq<char> {
    "class | "@ + c.id@
}

/// Appends `t` to `s`, followed by spaces up to `w` characters.
fn push_padded(s: &mut String, t: &str, w: usize)
    ensures
        final(s)@ == old(s)@ + padded(t@, w as nat),
{
    push_str(s, t);
    let n = chars_of(t).len();
    let mut k: usize = n;
    assert(s@ =~= old(s)@ + t@ + spaces(0));
    while k < w
        invariant
            n == t@.len(),
            n <= k,
            k <= w || k == n,
            s@ == old(s)@ + t@ + spaces((k - n) as nat),
        decreases w - k,
    {
        push_char(s, ' ');
        k += 1;
        assert(s@ =~= old(s)@ + t@ + spaces((k - n) as nat));
    }
    assert(s@ =~= old(s)@ + padded(t@, w as nat));
}

/// A one-line table row.
fn one_line(line: String) -> (r: Vec<String>)
    ensures
        texts(r@) == seq![line@],
{
    let mut r: Vec<String> = Vec::new();
    r.push(line);
    assert(texts(r@) =~= seq![line@]);
    r
}

impl Local {
    /// The lines of this entry in a table.
    pub fn lines(&self, _width: usize) -> (r: Vec<String>)
        ensures
            texts(r@) == seq![local_line(*self)],
    {
        let mut line = String::new();
        push_padded(&mut line, "local", 10);
        push_str(&mut line, "| ");
        push_padded(&mut line, self.id.as_str(), 12);
        push_str(&mut line, "| ");
        push_str(&mut line, self.type_string().as_str());
        proof {
            reveal_strlit("local");
            reveal_strlit("| ");
        }
        assert(line@ =~= local_line(*self));
        one_line(line)
    }
}

impl Param {
    /// The lines of this entry in a table.
    pub fn lines(&self, _width: usize) -> (r: Vec<String>)
        ensures
            texts(r@) == seq![param_line(*self)],
    {
        let mut line = String::new();
        push_padded(&mut line, "param", 10);
        push_str(&mut line, "| ");
        push_padded(&mut line, self.id.as_str(), 12);
        push_str(&mut line, "| ");
        push_str(&mut line, self.type_string().as_str());
        proof {
            reveal_strlit("param");
            reveal_strlit("| ");
        }
        assert(line@ =~= param_line(*self));
        one_line(line)
    }
}

impl Data {
    /// The lines of this entry in a table.
    pub fn lines(&self, _width: usize) -> (r: Vec<String>)
        ensures
            texts(r@) == seq![data_line(*self)],
    {
        let mut line = String::new();
        push_padded(&mut line, "data", 10);
        push_str(&mut line, "| ");
        push_padded(&mut line, self.id.as_str(), 10);
        push_str(&mut line, "| ");
        push_padded(&mut line, self.type_string().as_str(), 10);
        push_str(&mut line, "| ");
        push_str(&mut line, self.visibility.text().as_str());
        push_str(&mut line, "| ");
        push_padded(&mut line, unsigned_text(self.bytes as u64).as_str(), 10);
        proof {
            reveal_strlit("data");
            reveal_strlit("| ");
        }
        assert(line@ =~= data_line(*self));
        one_line(line)
    }
}

impl Temporary {
    /// The lines of this entry in a table.
    pub fn lines(&self, _width: usize) -> (r: Vec<String>)
        ensures
            texts(r@) == seq![temporary_line(*self)],
    {
        let mut line = String::new();
        push_padded(&mut line, "temp", 10);
        push_str(&mut line, "| ");
        push_padded(&mut line, self.id.as_str(), 10);
        push_str(&mut line, "| ");
        push_padded(&mut line, self.data_type.as_str(), 10);
        push_str(&mut line, "| ");
        push_padded(&mut line, unsigned_text(self.bytes as u64).as_str(), 10);
        push_str(&mut line, "|");
        proof {
            reveal_strlit("temp");
            reveal_strlit("| ");
            reveal_strlit("|");
        }
        assert(line@ =~= temporary_line(*self));
        one_line(line)
    }
}

impl Inherit {
    /// The lines of this entry in a table.
    pub fn lines(&self, _width: usize) -> (r: Vec<String>)
        ensures
            texts(r@) == seq![inherit_line(*self)],
    {
        let mut line = String::new();
        push_padded(&mut line, "inherit", 10);
        push_str(&mut line, "| ");
        if self.names.len() == 0 {
            push_str(&mut line, "none");
        } else {
            push_str(&mut line, self.describe().as_str());
        }
        proof {
            reveal_strlit("inherit");
            reveal_strlit("| ");
            reveal_strlit("none");
        }
        assert(line@ =~= inherit_line(*self));
        one_line(line)
    }
}

/// `lines`, each indented by three spaces, as a nested table is laid out.
pub open spec fn indented(lines: Seq<Seq<char>>) -> Seq<Seq<char>> {
    Seq::new(lines.len(), |i: int| "   "@ + lines[i])
}

/// `lines`, each between the table's borders, for a table `w` characters wide.
pub open spec fn framed(lines: Seq<Seq<char>>, w: nat) -> Seq<Seq<char>> {
    Seq::new(lines.len(), |i: int| "| "@ + padded(lines[i], (w - 5) as nat) + "  |"@)
}

/// A table `w` characters wide can be laid out: its borders and those of every nested
/// table, eight characters narrower at each level, leave room for the contents.
pub open spec fn table_fits(t: SymbolTable, w: nat) -> bool
    decreases t,
{
    &&& w >= 5
    &&& entries_fit(t.values@, w)
}

/// The entries `s` of a table `w` characters wide can be laid out.
pub open spec fn entries_fit(s: Seq<SymbolTableEntry>, w: nat) -> bool
    decreases s,
{
    s.len() == 0 || (entries_fit(s.drop_last(), w) && entry_fits(s.last(), w))
}

/// The entry `e` of a table `w` characters wide can be laid out.
pub open spec fn entry_fits(e: SymbolTableEntry, w: nat) -> bool
    decreases e,
{
    match e {
        SymbolTableEntry::Class(c) => w >= 8 && table_fits(c.symbol_table, (w - 8) as nat),
        SymbolTableEntry::Function(f) => w >= 8 && table_fits(f.symbol_table, (w - 8) as nat),
        _ => true,
    }
}

/// The lines of the table `t`, `w` characters wide: a rule, the title, a rule, the
/// lines of its entries in order, and a rule.
pub open spec fn table_lines(t: SymbolTable, w: nat) -> Seq<Seq<char>>
    decreases t,
{
    seq![rule_text(w), "| "@ + padded(t.title_text(), (w - 5) as nat) + "  |"@, rule_text(w)] + framed(
        entries_lines(t.values@, w),
        w,
    ) + seq![rule_text(w)]
}

/// The lines of the entries `s` of a table `w` characters wide, in order.
pub open spec fn entries_lines(s: Seq<SymbolTableEntry>, w: nat) -> Seq<Seq<char>>
    decreases s,
{
    if s.len() == 0 {
        Seq::empty()
    } else {
        entries_lines(s.drop_last(), w) + entry_lines(s.last(), w)
    }
}

/// The lines of the entry `e` of a table `w` characters wide: one line, followed for
/// a class or a function by its own table, indented.
pub open spec fn entry_lines(e: SymbolTableEntry, w: nat) -> Seq<Seq<char>>
    decreases e,
{
    match e {
        SymbolTableEntry::Class(c) => seq![class_line(c)] + indented(table_lines(c.symbol_table, (w - 8) as nat)),
        SymbolTableEntry::Function(f) => seq![function_line(f)] + indented(
            table_lines(f.symbol_table, (w - 8) as nat),
        ),
        SymbolTableEntry::Inherit(i) => seq![inherit_line(i)],
        SymbolTableEntry::Param(p) => seq![param_line(p)],
        SymbolTableEntry::Local(l) => seq![local_line(l)],
        SymbolTableEntry::Data(d) => seq![data_line(d)],
        SymbolTableEntry::Temporary(t) => seq![temporary_line(t)],
    }
}

/// Appends `lines`, each indented by three spaces, to `r`.
fn push_indented(r: &mut Vec<String>, lines: Vec<String>)
    ensures
        texts(final(r)@) == texts(old(r)@) + indented(texts(lines@)),
{
    let mut i: usize = 0;
    while i < lines.len()
        invariant
            i <= lines.len(),
            texts(r@) == texts(old(r)@) + indented(texts(lines@).take(i as int)),
        decreases lines.len() - i,
    {
        let mut line = string_of("   ");
        push_str(&mut line, lines[i].as_str());
        proof {
            reveal_strlit("   ");
        }
        let ghost before = texts(r@);
        r.push(line);
        assert(texts(r@) =~= before.push(line@));
        assert(indented(texts(lines@).take(i + 1)) =~= indented(texts(lines@).take(i as int)).push(line@));
        i += 1;
    }
    assert(texts(lines@).take(i as int) =~= texts(lines@));
}

impl Class {
    /// The lines of this entry in a table `width` characters wide: the class, then its
    /// own table indented.
    pub fn lines(&self, width: usize) -> (r: Vec<String>)
        requires
            width >= 8,
            table_fits(self.symbol_table, (width - 8) as nat),
        ensures
            texts(r@) == seq![class_line(*self)] + indented(table_lines(self.symbol_table, (width - 8) as nat)),
        decreases self, 0nat,
    {
        let mut line = string_of("class | ");
        push_str(&mut line, self.id.as_str());
        proof {
            reveal_strlit("class | ");
        }
        let mut r = one_line(line);
        let nested = self.symbol_table.lines(width - 8);
        push_indented(&mut r, nested);
        r
    }
}

impl Function {
    /// The lines of this entry in a table `width` characters wide: the function, then
    /// its own table indented.
    pub fn lines(&self, width: usize) -> (r: Vec<String>)
        requires
            width >= 8,
            table_fits(self.symbol_table, (width - 8) as nat),
        ensures
            texts(r@) == seq![function_line(*self)] + indented(table_lines(self.symbol_table, (width - 8) as nat)),
        decreases self, 0nat,
    {
        let mut line = String::new();
        push_padded(&mut line, "function", 10);
        push_str(&mut line, "| ");
        push_padded(&mut line, self.id.as_str(), 12);
        push_str(&mut line, "| ");
        push_padded(&mut line, self.signature().as_str(), 34);
        match self.visibility {
            Some(v) => {
                push_str(&mut line, "| ");
                push_str(&mut line, v.text().as_str());
            },
            None => {},
        }
        proof {
            reveal_strlit("function");
            reveal_strlit("| ");
        }
        assert(line@ =~= function_line(*self));
        let mut r = one_line(line);
        let nested = self.symbol_table.lines(width - 8);
        push_indented(&mut r, nested);
        r
    }
}

impl SymbolTableEntry {
    /// The lines of this entry in a table `width` characters wide.
    pub fn lines(&self, width: usize) -> (r: Vec<String>)
        requires
            entry_fits(*self, width as nat),
        ensures
            texts(r@) == entry_lines(*self, width as nat),
        decreases self, 1nat,
    {
        match self {
            SymbolTableEntry::Class(c) => c.lines(width),
            SymbolTableEntry::Function(f) => f.lines(width),
            SymbolTableEntry::Inherit(i) => i.lines(width),
            SymbolTableEntry::Param(p) => p.lines(width),
            SymbolTableEntry::Local(l) => l.lines(width),
            SymbolTableEntry::Data(d) => d.lines(width),
            SymbolTableEntry::Temporary(t) => t.lines(width),
        }
    }
}

/// Appends `line` between the table's borders, for a table `width` characters wide.
fn push_framed(r: &mut Vec<String>, line: &str, width: usize)
    requires
        width >= 5,
    ensures
        texts(final(r)@) == texts(old(r)@).push("| "@ + padded(line@, (width - 5) as nat) + "  |"@),
{
    let mut framed_line = string_of("| ");
    push_padded(&mut framed_line, line, width - 5);
    push_str(&mut framed_line, "  |");
    proof {
        reveal_strlit("| ");
        reveal_strlit("  |");
    }
    let ghost before = texts(r@);
    r.push(framed_line);
    assert(texts(r@) =~= before.push("| "@ + padded(line@, (width - 5) as nat) + "  |"@));
}

impl SymbolTable {
    /// The lines of this table laid out `width` characters wide: a rule of "=", the
    /// title, a rule, the lines of the entries in the order they were added (nested
    /// tables indented under their class or function), each between borders, and a rule.
    pub fn lines(&self, width: usize) -> (r: Vec<String>)
        requires
            table_fits(*self, width as nat),
        ensures
            texts(r@) == table_lines(*self, width as nat),
        decreases self, 2nat,
    {
        let mut r: Vec<String> = Vec::new();
        r.push(self.header_bar(width));
        assert(texts(r@) =~= seq![rule_text(width as nat)]);
        push_framed(&mut r, self.title().as_str(), width);
        let ghost titled = texts(r@);
        r.push(self.header_bar(width));
        assert(texts(r@) =~= titled.push(rule_text(width as nat)));
        let ghost head = texts(r@);
        assert(head =~= seq![
            rule_text(width as nat),
            "| "@ + padded(self.title_text(), (width - 5) as nat) + "  |"@,
            rule_text(width as nat),
        ]);
        let mut i: usize = 0;
        assert(self.values@.take(0) =~= Seq::<SymbolTableEntry>::empty());
        assert(framed(entries_lines(Seq::<SymbolTableEntry>::empty(), width as nat), width as nat) =~= Seq::<
            Seq<char>,
        >::empty());
        assert(texts(r@) =~= head + Seq::<Seq<char>>::empty());
        while i < self.values.len()
            invariant
                i <= self.values.len(),
                width >= 5,
                entries_fit(self.values@, width as nat),
                texts(r@) == head + framed(entries_lines(self.values@.take(i as int), width as nat), width as nat),
            decreases self.values.len() - i,
        {
            proof {
                lemma_entries_fit_each(self.values@, width as nat, i as int);
            }
            assert(self.values@.take(i + 1).drop_last() =~= self.values@.take(i as int));
            let entry_lines_exec = self.values[i].lines(width);
            let ghost before = texts(r@);
            let ghost prefix = entries_lines(self.values@.take(i as int), width as nat);
            let mut k: usize = 0;
            while k < entry_lines_exec.len()
                invariant
                    k <= entry_lines_exec.len(),
                    width >= 5,
                    texts(r@) == before + framed(texts(entry_lines_exec@).take(k as int), width as nat),
                decreases entry_lines_exec.len() - k,
            {
                let ghost inner = texts(r@);
                push_framed(&mut r, entry_lines_exec[k].as_str(), width);
                assert(framed(texts(entry_lines_exec@).take(k + 1), width as nat) =~= framed(
                    texts(entry_lines_exec@).take(k as int),
                    width as nat,
                ).push("| "@ + padded(entry_lines_exec@[k as int]@, (width - 5) as nat) + "  |"@));
                k += 1;
            }
            assert(texts(entry_lines_exec@).take(k as int) =~= texts(entry_lines_exec@));
            assert(framed(prefix + texts(entry_lines_exec@), width as nat) =~= framed(prefix, width as nat) + framed(
                texts(entry_lines_exec@),
                width as nat,
            ));
            i += 1;
        }
        assert(self.values@.take(i as int) =~= self.values@);
        let ghost body = texts(r@);
        r.push(self.header_bar(width));
        assert(texts(r@) =~= body.push(rule_text(width as nat)));
        r
    }
}

/// Each entry of entries that can be laid out can be laid out.
proof fn lemma_entries_fit_each(s: Seq<SymbolTableEntry>, w: nat, i: int)
    requires
        entries_fit(s, w),
        0 <= i < s.len(),
    ensures
        entry_fits(s[i], w),
    decreases s.len(),
{
    if i < s.len() - 1 {
        assert(s.drop_last()[i] == s[i]);
        lemma_entries_fit_each(s.drop_last(), w, i);
    }
}

/// The width of a table printed on its own.
pub const GLOBAL_TABLE_WIDTH: usize = 83;

/// The lines `lines`, each followed by a line break.
pub open spec fn line_text(lines: Seq<Seq<char>>) -> Seq<char> {
    concatenation(Seq::new(lines.len(), |i: int| lines[i].push('\n')))
}

impl SymbolTable {
    /// The table as it is printed: its lines `GLOBAL_TABLE_WIDTH` characters wide, each
    /// followed by a line break.
    pub fn render(&self) -> (r: String)
        requires
            table_fits(*self, GLOBAL_TABLE_WIDTH as nat),
        ensures
            r@ == line_text(table_lines(*self, GLOBAL_TABLE_WIDTH as nat)),
    {
        let lines = self.lines(GLOBAL_TABLE_WIDTH);
        let ghost all = texts(lines@);
        let mut r = String::new();
        let mut i: usize = 0;
        assert(all.take(0) =~= Seq::<Seq<char>>::empty());
        assert(r@ =~= line_text(all.take(0)));
        while i < lines.len()
            invariant
                i <= lines.len(),
                all == texts(lines@),
                r@ == line_text(all.take(i as int)),
            decreases lines.len() - i,
        {
            push_str(&mut r, lines[i].as_str());
            push_char(&mut r, '\n');
            assert(Seq::new((i + 1) as nat, |k: int| all.take(i + 1)[k].push('\n')).drop_last() =~= Seq::new(
                i as nat,
                |k: int| all.take(i as int)[k].push('\n'),
            ));
            i += 1;
        }
        assert(all.take(i as int) =~= all);
        r
    }
}

} // verus!
