//! The entry that lists the classes that a class inherits from.
use crate::text::joined;
use crate::utils::separated_list;
use vstd::prelude::*;

verus! {

/// The names of the classes that a class inherits from.
#[derive(Debug, Clone, Default)]
pub struct Inherit {
    pub names: Vec<String>,
}

/// The views of a list of strings.
pub open spec fn texts(v: Seq<String>) -> Seq<Seq<char>> {
    Seq::new(v.len(), |i: int| v[i]@)
}

/// The description of an inherit entry: its names separated by ", ".
pub open spec fn inherit_text(i: Inherit) -> Seq<char> {
    joined(texts(i.names@), ", "@)
}

impl Inherit {
    /// The entry listing `id_list`.
    pub fn new(id_list: &[&str]) -> (r: Inherit)
        ensures
            r.names.len() == id_list@.len(),
            forall|i: int| 0 <= i < id_list@.len() ==> #[trigger] r.names@[i]@ == id_list@[i]@,
    {
        let mut names: Vec<String> = Vec::new();
        let mut i: usize = 0;
        while i < id_list.len()
            invariant
                i <= id_list@.len(),
                names.len() == i,
                forall|k: int| 0 <= k < i ==> #[trigger] names@[k]@ == id_list@[k]@,
            decreases id_list@.len() - i,
        {
            names.push(id_list[i].to_owned());
            i += 1;
        }
        Inherit { names }
    }

    /// The names separated by ", ".
    pub fn describe(&self) -> (r: String)
        ensures
            r@ == inherit_text(*self),
    {
        separated_list(self.names.as_slice(), ", ")
    }

    pub fn names(&self) -> (r: &Vec<String>)
        ensures
            r == &self.names,
    {
        &self.names
    }
}

} // verus!
