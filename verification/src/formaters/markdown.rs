use super::Formatter;
use vstd::prelude::*;
use vstd::string::StringExecFns;

verus! {

/// Markdown markup: `*..*`, `**..**` and `[..](..)`.
#[derive(Default)]
pub struct MarkdownFormatter;

impl MarkdownFormatter {
    /// Encloses the text in single asterisks.
    pub fn italics(input: &mut String)
        ensures
            final(input)@ == "*"@ + old(input)@ + "*"@,
    {
        let mut out = String::from_str("*");
        out.append(input.as_str());
        out.append("*");
        *input = out;
    }

    /// Encloses the text in double asterisks.
    pub fn bold(input: &mut String)
        ensures
            final(input)@ == "**"@ + old(input)@ + "**"@,
    {
        let mut out = String::from_str("**");
        out.append(input.as_str());
        out.append("**");
        *input = out;
    }

    /// Makes the text a link to itself: `[s](s)`.
    pub fn hyperlink(input: &mut String)
        ensures
            final(input)@ == "["@ + old(input)@ + "]("@ + old(input)@ + ")"@,
    {
        let mut out = String::from_str("[");
        out.append(input.as_str());
        out.append("](");
        out.append(input.as_str());
        out.append(")");
        *input = out;
    }
}

impl Formatter for MarkdownFormatter {
    open spec fn italics_spec(s: Seq<char>) -> Seq<char> {
        "*"@ + s + "*"@
    }

    open spec fn bold_spec(s: Seq<char>) -> Seq<char> {
        "**"@ + s + "**"@
    }

    open spec fn hyperlink_spec(s: Seq<char>) -> Seq<char> {
        "["@ + s + "]("@ + s + ")"@
    }

    fn italics(&self, input: &mut String) {
        MarkdownFormatter::italics(input);
    }

    fn bold(&self, input: &mut String) {
        MarkdownFormatter::bold(input);
    }

    fn hyperlink(&self, input: &mut String) {
        MarkdownFormatter::hyperlink(input);
    }
}

} // verus!
