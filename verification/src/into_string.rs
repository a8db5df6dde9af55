//! Conversion of parser input into an owned string.

use vstd::prelude::*;
use vstd::string::StringExecFns;

verus! {

/// A value that can serve as parser input.  The view `str_view` is the
/// character sequence the value stands for, and `into_string` produces
/// exactly that sequence as an owned string.
pub trait IntoString {
    /// The character sequence the value stands for.
    spec fn str_view(&self) -> Seq<char>;

    /// Produces the value's characters as an owned string.
    fn into_string(&self) -> (r: String)
        ensures
            r@ == self.str_view(),
    ;
}

impl IntoString for String {
    open spec fn str_view(&self) -> Seq<char> {
        self@
    }

    fn into_string(&self) -> (r: String)
        ensures
            r@ == self.str_view(),
    {
        self.clone()
    }
}

impl IntoString for &str {
    open spec fn str_view(&self) -> Seq<char> {
        (*self)@
    }

    fn into_string(&self) -> (r: String)
        ensures
            r@ == self.str_view(),
    {
        String::from_str(*self)
    }
}

} // verus!
