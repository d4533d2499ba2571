use cite_me_bro::ops::preprocessor::{BibfileValue, CitationPreprocessor, PreprocessorTable, SettingsError};
use cite_me_bro::styles::ReferenceStyle;
use cite_me_bro::Format;

fn table(bibfile: Option<BibfileValue>, style: Option<&str>, fail_fast: Option<&str>) -> Option<PreprocessorTable> {
    Some(PreprocessorTable {
        bibfile,
        style: style.map(|s| s.to_string()),
        fail_fast: fail_fast.map(|s| s.to_string()),
    })
}

#[test]
fn preprocessor_name_and_renderers() {
    let p = CitationPreprocessor;
    assert_eq!(p.name(), "citations");
    assert!(p.supports_renderer("markdown"));
    assert!(p.supports_renderer("html"));
    assert!(!p.supports_renderer("asdfasdf"));
}

#[test]
fn settings_with_defaults() {
    let p = CitationPreprocessor;
    let s = p.settings(table(Some(BibfileValue::Text("cite.bib".to_string())), None, None)).ok().unwrap();
    assert_eq!(s.bib_files, vec!["cite.bib".to_string()]);
    assert_eq!(s.style, ReferenceStyle::IEEE);
    assert_eq!(s.format, Format::Markdown);
    assert!(!s.fail_fast);
}

#[test]
fn settings_read_lists_style_and_fail_fast() {
    let p = CitationPreprocessor;
    let list = BibfileValue::List(vec![Some("a.bib".to_string()), None, Some("b.bib".to_string())]);
    let s = p.settings(table(Some(list), Some("apa"), Some("true"))).ok().unwrap();
    assert_eq!(s.bib_files, vec!["a.bib".to_string(), "b.bib".to_string()]);
    assert_eq!(s.style, ReferenceStyle::APA);
    assert!(s.fail_fast);
}

#[test]
fn settings_errors() {
    let p = CitationPreprocessor;
    let text = || Some(BibfileValue::Text("cite.bib".to_string()));
    assert_eq!(p.settings(None).err(), Some(SettingsError::NoConfig));
    assert_eq!(p.settings(table(None, None, None)).err(), Some(SettingsError::NoBibfile));
    assert_eq!(p.settings(table(Some(BibfileValue::Other), None, None)).err(), Some(SettingsError::BibfileType));
    assert_eq!(p.settings(table(text(), Some("mla"), None)).err(), Some(SettingsError::Style));
    assert_eq!(p.settings(table(text(), None, Some("yes"))).err(), Some(SettingsError::FailFast));
    assert_eq!(SettingsError::NoConfig.message(), "no config entry found");
    assert_eq!(SettingsError::NoBibfile.message(), "config entry did not contain 'bibfile' key");
}

use cite_me_bro::ops::bibligraphy::{Bibliography, MissingKey};
use cite_me_bro::ops::preprocessor::{expandify_item, try_expandify_item, BookNode, ChapterText};

const BOOK_BIB: &str = "@article{article,
  author = {Cohen, Paul J.},
  title = {The independence of the continuum hypothesis},
  journal = {Proceedings of the National Academy of Sciences},
  volume = {50},
  number = {6},
  pages = {1143-1148},
  year = {1963}
}
@book{book,
  author = {Susskind, Leonard and Hrabovsky, George},
  title = {Classical mechanics: the theoretical minimum},
  publisher = {Penguin Random House},
  address = {New York, NY},
  year = {2014}
}";

fn chapter(name: &str, content: &str, sub_items: Vec<BookNode>) -> BookNode {
    BookNode::Chapter(ChapterText { name: name.to_string(), content: content.to_string(), sub_items })
}

#[test]
fn citation_in_content_and_title_of_a_chapter() {
    let bib = Bibliography::from_contents(BOOK_BIB).unwrap();
    let item = chapter("\\cite{book}", "\\cite{article}", Vec::new());
    let out = expandify_item(&bib, item, ReferenceStyle::IEEE, Format::Markdown, false).unwrap();
    assert_eq!(
        out,
        chapter(
            "L. Susskind and G. Hrabovsky, *Classical mechanics: the theoretical minimum*. New York, NY: Penguin Random House, 2014.",
            "P. J. Cohen, \"The independence of the continuum hypothesis,\" *Proceedings of the National Academy of Sciences,* vol. 50, no. 6, pp. 1143-1148, 1963.",
            Vec::new()
        )
    );
}

#[test]
fn chapter_respects_the_style() {
    let bib = Bibliography::from_contents(BOOK_BIB).unwrap();
    let item = chapter("\\cite{book}", "\\cite{article}", Vec::new());
    let out = expandify_item(&bib, item, ReferenceStyle::APA, Format::Markdown, false).unwrap();
    assert_eq!(
        out,
        chapter(
            "Susskind, L., & Hrabovsky, G. (2014). *Classical mechanics: the theoretical minimum*. Penguin Random House.",
            "Cohen, P. J. (1963). The independence of the continuum hypothesis. *Proceedings of the National Academy of Sciences, 50* (6), 1143-1148.",
            Vec::new()
        )
    );
}

#[test]
fn items_without_citations_are_unchanged() {
    let bib = Bibliography::from_contents(BOOK_BIB).unwrap();
    let make = || chapter("Chapter 1", "# Chapter 1\n", vec![BookNode::Separator, BookNode::PartTitle("Part".to_string())]);
    let out = expandify_item(&bib, make(), ReferenceStyle::IEEE, Format::Markdown, false).unwrap();
    assert_eq!(out, make());
}

#[test]
fn sub_items_are_expanded_and_failures_stop() {
    let bib = Bibliography::from_contents(BOOK_BIB).unwrap();
    let item = chapter("c", "x", vec![BookNode::PartTitle("\\cite{book}".to_string())]);
    let out = expandify_item(&bib, item, ReferenceStyle::APA, Format::Plain, false).unwrap();
    assert_eq!(
        out,
        chapter("c", "x", vec![BookNode::PartTitle(
            "Susskind, L., & Hrabovsky, G. (2014). Classical mechanics: the theoretical minimum. Penguin Random House.".to_string()
        )])
    );
    let item = chapter("c", "x", vec![BookNode::PartTitle("\\cite{nope}".to_string())]);
    let err = expandify_item(&bib, item, ReferenceStyle::APA, Format::Plain, true).unwrap_err();
    assert_eq!(err, MissingKey { key: "nope".to_string() });
}

#[test]
fn checked_expansion_refuses_entries_the_style_cannot_format() {
    let bib = Bibliography::from_contents("@book{b, author = {Doe, Jane}, title = {T}}").unwrap();
    let item = || chapter("c", "\\cite{b}", Vec::new());
    assert_eq!(try_expandify_item(&bib, item(), ReferenceStyle::APA, Format::Plain, false), None);
    assert_eq!(
        try_expandify_item(&bib, item(), ReferenceStyle::IEEE, Format::Plain, false),
        Some(Ok(chapter("c", "J. Doe, T. : , .", Vec::new())))
    );
    assert_eq!(try_expandify_item(&bib, BookNode::Separator, ReferenceStyle::APA, Format::Plain, true), Some(Ok(BookNode::Separator)));
}
