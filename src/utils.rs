//! Small helpers shared by the clients.

use vstd::prelude::*;

pub mod uri;

verus! {

/// Text taken by value: an owned `String` is used as it is, without a copy;
/// a `&str` is copied.
pub trait IntoText: Sized {
    spec fn text(&self) -> Seq<char>;

    fn into_text(self) -> (r: String)
        ensures
            r@ == self.text(),
    ;
}

impl IntoText for String {
    open spec fn text(&self) -> Seq<char> {
        self@
    }

    fn into_text(self) -> (r: String) {
        self
    }
}

impl<'a> IntoText for &'a str {
    open spec fn text(&self) -> Seq<char> {
        (*self)@
    }

    fn into_text(self) -> (r: String) {
        self.to_owned()
    }
}

} // verus!
