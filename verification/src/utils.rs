//! Helpers shared by the symbol table entries.
use crate::symbol_table::inherit::texts;
use crate::text::{joined, push_str};
use vstd::prelude::*;

verus! {

/// The strings of `list` separated by `separator`.
pub fn separated_list(list: &[String], separator: &str) -> (r: String)
    ensures
        r@ == joined(texts(list@), separator@),
{
    let mut r = String::new();
    let mut i: usize = 0;
    assert(texts(list@).take(0) =~= Seq::<Seq<char>>::empty());
    while i < list.len()
        invariant
            i <= list.len(),
            r@ == joined(texts(list@).take(i as int), separator@),
        decreases list.len() - i,
    {
        let ghost before = r@;
        assert(texts(list@).take(i + 1).drop_last() =~= texts(list@).take(i as int));
        if i > 0 {
            push_str(&mut r, separator);
        } else {
            assert(before =~= Seq::<char>::empty());
        }
        push_str(&mut r, list[i].as_str());
        assert(r@ =~= joined(texts(list@).take(i + 1), separator@));
        i += 1;
    }
    assert(texts(list@).take(i as int) =~= texts(list@));
    r
}

} // verus!
