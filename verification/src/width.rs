//! The number of terminal columns that a text takes.

use vstd::prelude::*;
use unicode_width::UnicodeWidthStr;

verus! {

/// The number of columns that `s` takes on a terminal, as the
/// `unicode-width` crate counts them: wide characters take two columns,
/// combining characters none.
pub uninterp spec fn display_width(s: Seq<char>) -> nat;

/// `UnicodeWidthStr::width`: the number of columns of the string.
#[verifier::external_body]
pub(crate) fn str_width(s: &str) -> (w: usize)
    ensures
        w == display_width(s@),
{
    UnicodeWidthStr::width(s)
}

} // verus!
