use super::Formatter;
use vstd::prelude::*;

verus! {

/// Plain text: every markup leaves the text as it is.
#[derive(Default)]
pub struct PlainTextFormatter;

impl PlainTextFormatter {
    /// Leaves the text as it is.
    pub fn verbatim(&self, input: &mut String)
        ensures
            final(input)@ == old(input)@,
    {
    }

    /// Leaves the text as it is.
    pub fn escape(&self, input: &mut String)
        ensures
            final(input)@ == old(input)@,
    {
    }
}

impl Formatter for PlainTextFormatter {
    open spec fn italics_spec(s: Seq<char>) -> Seq<char> {
        s
    }

    open spec fn bold_spec(s: Seq<char>) -> Seq<char> {
        s
    }

    open spec fn hyperlink_spec(s: Seq<char>) -> Seq<char> {
        s
    }

    fn italics(&self, input: &mut String) {
    }

    fn bold(&self, input: &mut String) {
    }

    fn hyperlink(&self, input: &mut String) {
    }
}

} // verus!
