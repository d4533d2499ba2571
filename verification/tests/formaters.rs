use cite_me_bro::formaters::html::HtmlFormatter;
use cite_me_bro::formaters::markdown::MarkdownFormatter;
use cite_me_bro::formaters::plain::PlainTextFormatter;
use cite_me_bro::formaters::Formatter;

#[test]
fn html_bold() {
    let mut s = String::from("asdf  hey! this is _some_ weird__ input::!");

    HtmlFormatter.bold(&mut s);
    assert_eq!(
        s,
        String::from("<b>asdf  hey! this is _some_ weird__ input::!</b>")
    );
}

#[test]
fn html_italics() {
    let mut s = String::from("asdf  hey! this is _some_ weird__ input::!");

    HtmlFormatter.italics(&mut s);
    assert_eq!(
        s,
        String::from("<i>asdf  hey! this is _some_ weird__ input::!</i>")
    );
}

#[test]
fn html_hyperlink() {
    let mut s = String::from("https://example.com");

    HtmlFormatter.hyperlink(&mut s);
    assert_eq!(
        s,
        String::from("<a href=\"https://example.com\">https://example.com</a>")
    );
}

#[test]
fn markdown_bold() {
    let mut s = String::from("asdf  hey! this is _some_ weird__ input::!");

    MarkdownFormatter::bold(&mut s);
    assert_eq!(
        s,
        String::from("**asdf  hey! this is _some_ weird__ input::!**")
    );
}

#[test]
fn markdown_italics() {
    let mut s = String::from("asdf  hey! this is _some_ weird__ input::!");

    MarkdownFormatter::italics(&mut s);
    assert_eq!(
        s,
        String::from("*asdf  hey! this is _some_ weird__ input::!*")
    );
}

#[test]
fn markdown_hyperlink() {
    let mut s = String::from("https://example.com");

    MarkdownFormatter::hyperlink(&mut s);
    assert_eq!(
        s,
        String::from("[https://example.com](https://example.com)")
    );
}

#[test]
fn plain_bold() {
    let mut s = String::from("asdf  hey! this is _some_ weird__ input::!");

    PlainTextFormatter.bold(&mut s);
    assert_eq!(
        s,
        String::from("asdf  hey! this is _some_ weird__ input::!")
    );
}

#[test]
fn plain_italics() {
    let mut s = String::from("asdf  hey! this is _some_ weird__ input::!");

    PlainTextFormatter.italics(&mut s);
    assert_eq!(
        s,
        String::from("asdf  hey! this is _some_ weird__ input::!")
    );
}

#[test]
fn plain_hyperlink() {
    let mut s = String::from("asdf  hey! this is _some_ weird__ input::!");

    PlainTextFormatter.hyperlink(&mut s);
    assert_eq!(
        s,
        String::from("asdf  hey! this is _some_ weird__ input::!")
    );
}

#[test]
fn markdown_trait_methods_mark_up() {
    let mut s = String::from("x");
    Formatter::italics(&MarkdownFormatter, &mut s);
    assert_eq!(s, "*x*");
    let mut s = String::from("x");
    Formatter::bold(&MarkdownFormatter, &mut s);
    assert_eq!(s, "**x**");
    let mut s = String::from("u");
    Formatter::hyperlink(&MarkdownFormatter, &mut s);
    assert_eq!(s, "[u](u)");
}

#[test]
fn html_verbatim_and_plain_no_ops() {
    let mut s = String::from("code");
    HtmlFormatter.verbatim(&mut s);
    assert_eq!(s, "<pre>code</pre>");
    let mut s = String::from("a <b> & c");
    PlainTextFormatter.escape(&mut s);
    assert_eq!(s, "a <b> & c");
    PlainTextFormatter.verbatim(&mut s);
    assert_eq!(s, "a <b> & c");
}
