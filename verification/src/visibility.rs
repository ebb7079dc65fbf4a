//! Visibility of class members.
use vstd::prelude::*;

verus! {

/// Whether a class member can be used from outside the class.
#[derive(Debug, Clone, Copy, PartialEq, Eq, Structural)]
pub enum Visibility {
    Public,
    Private,
}

impl Default for Visibility {
    fn default() -> (r: Self)
        ensures
            r == Visibility::Private,
    {
        Visibility::Private
    }
}

/// The word that names a visibility.
pub open spec fn visibility_text(v: Visibility) -> Seq<char> {
    match v {
        Visibility::Public => seq!['p', 'u', 'b', 'l', 'i', 'c'],
        Visibility::Private => seq!['p', 'r', 'i', 'v', 'a', 't', 'e'],
    }
}

impl Visibility {
    /// The word that names the visibility ("public" or "private").
    pub fn text(&self) -> (r: String)
        ensures
            r@ == visibility_text(*self),
    {
        let mut r = String::new();
        match self {
            Visibility::Public => {
                crate::text::push_char(&mut r, 'p');
                crate::text::push_char(&mut r, 'u');
                crate::text::push_char(&mut r, 'b');
                crate::text::push_char(&mut r, 'l');
                crate::text::push_char(&mut r, 'i');
                crate::text::push_char(&mut r, 'c');
            },
            Visibility::Private => {
                crate::text::push_char(&mut r, 'p');
                crate::text::push_char(&mut r, 'r');
                crate::text::push_char(&mut r, 'i');
                crate::text::push_char(&mut r, 'v');
                crate::text::push_char(&mut r, 'a');
                crate::text::push_char(&mut r, 't');
                crate::text::push_char(&mut r, 'e');
            },
        }
        assert(r@ =~= visibility_text(*self));
        r
    }
}

} // verus!
