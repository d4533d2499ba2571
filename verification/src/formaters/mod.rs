//! Inline markup for the text of a formatted reference.
//!
//! Each formatter rewrites a `String` in place; its spec functions say what the
//! new text is in terms of the old one.

pub mod html;
pub mod markdown;
pub mod plain;

use vstd::prelude::*;

verus! {

/// Markup for italic text, bold text and hyperlinks.
pub trait Formatter {
    /// The text that `italics` makes of `s`.
    spec fn italics_spec(s: Seq<char>) -> Seq<char>;

    /// The text that `bold` makes of `s`.
    spec fn bold_spec(s: Seq<char>) -> Seq<char>;

    /// The text that `hyperlink` makes of `s`, where `s` is the link's target.
    spec fn hyperlink_spec(s: Seq<char>) -> Seq<char>;

    fn italics(&self, input: &mut String)
        ensures
            final(input)@ == Self::italics_spec(old(input)@),
    ;

    fn bold(&self, input: &mut String)
        ensures
            final(input)@ == Self::bold_spec(old(input)@),
    ;

    fn hyperlink(&self, input: &mut String)
        ensures
            final(input)@ == Self::hyperlink_spec(old(input)@),
    ;
}

} // verus!
