use super::Formatter;
use vstd::prelude::*;
use vstd::string::StringExecFns;

verus! {

/// HTML markup: `<i>`, `<b>`, `<a href>` and `<pre>`.
#[derive(Default)]
pub struct HtmlFormatter;

/// `open` + `s` + `close`, built as a new string.
fn enclose(open: &str, input: &String, close: &str) -> (out: String)
    ensures
        out@ == open@ + input@ + close@,
{
    let mut out = String::from_str(open);
    out.append(input.as_str());
    out.append(close);
    out
}

impl HtmlFormatter {
    /// Encloses the text in `<pre>` and `</pre>`.
    pub fn verbatim(&self, input: &mut String)
        ensures
            final(input)@ == "<pre>"@ + old(input)@ + "</pre>"@,
    {
        *input = enclose("<pre>", input, "</pre>");
    }
}

impl Formatter for HtmlFormatter {
    open spec fn italics_spec(s: Seq<char>) -> Seq<char> {
        "<i>"@ + s + "</i>"@
    }

    open spec fn bold_spec(s: Seq<char>) -> Seq<char> {
        "<b>"@ + s + "</b>"@
    }

    open spec fn hyperlink_spec(s: Seq<char>) -> Seq<char> {
        "<a href=\""@ + s + "\">"@ + s + "</a>"@
    }

    fn italics(&self, input: &mut String) {
        *input = enclose("<i>", input, "</i>");
    }

    fn bold(&self, input: &mut String) {
        *input = enclose("<b>", input, "</b>");
    }

    fn hyperlink(&self, input: &mut String) {
        let mut out = String::from_str("<a href=\"");
        out.append(input.as_str());
        out.append("\">");
        out.append(input.as_str());
        out.append("</a>");
        *input = out;
    }
}

} // verus!
