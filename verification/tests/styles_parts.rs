use cite_me_bro::formaters::markdown::MarkdownFormatter;
use cite_me_bro::formaters::plain::PlainTextFormatter;
use cite_me_bro::parsing::entry::{parse_bib, EntryType};
use cite_me_bro::parsing::fields::BibFields;
use cite_me_bro::parsing::names::OwnedFullName;
use cite_me_bro::styles::apa::{fmt_journal, fmt_pages, fmt_pub_date, fmt_title, ApaStylizer};
use cite_me_bro::styles::dates::{check_year_month, fmt_month, parse_i32, parse_u32};
use cite_me_bro::styles::ieee::IeeeStylizer;
use cite_me_bro::styles::{
    check_names, fmt_initials, initials_from, join_words, InvalidStyle, ReferenceStyle, Stylizer, ThesisKind,
};
use cite_me_bro::{Format, InvalidFormat};

fn words(ws: &[&str]) -> Vec<String> {
    ws.iter().map(|s| s.to_string()).collect()
}

fn name(first: &[&str], last: &[&str]) -> OwnedFullName {
    OwnedFullName { first: words(first), last: words(last), von: Vec::new(), title: Vec::new() }
}

#[test]
fn numbers_are_read_as_std_reads_them() {
    assert_eq!(parse_u32("08"), Some(8));
    assert_eq!(parse_u32("+5"), Some(5));
    assert_eq!(parse_u32("4294967295"), Some(4294967295));
    assert_eq!(parse_u32("4294967296"), None);
    assert_eq!(parse_u32("-0"), None);
    assert_eq!(parse_u32(""), None);
    assert_eq!(parse_u32("+"), None);
    assert_eq!(parse_u32("jun"), None);
    assert_eq!(parse_i32("-2147483648"), Some(-2147483648));
    assert_eq!(parse_i32("2147483648"), None);
    assert_eq!(parse_i32("-12"), Some(-12));
    assert_eq!(parse_i32("1956"), Some(1956));
    assert_eq!(parse_i32("19 56"), None);
    assert_eq!(parse_i32("-"), None);
    for s in ["0", "7", "00012", "+3", "-3", "99999999999", "x1", "1x"] {
        assert_eq!(parse_u32(s), s.parse::<u32>().ok());
        assert_eq!(parse_i32(s), s.parse::<i32>().ok());
    }
}

#[test]
fn months_are_named_by_number_or_capitalised() {
    assert_eq!(fmt_month("2016", "08", true), "August");
    assert_eq!(fmt_month("2016", "08", false), "Aug");
    assert_eq!(fmt_month("1996", "9", true), "September");
    assert_eq!(fmt_month("1956", "6", false), "Jun");
    assert_eq!(fmt_month("2016", "12", true), "December");
    assert_eq!(fmt_month("2016", "jun", true), "Jun");
    assert_eq!(fmt_month("2016", "summer", false), "Summer");
}

#[test]
fn printable_dates() {
    let y = "2016".to_string();
    let bad_year = "MMXVI".to_string();
    let m13 = "13".to_string();
    let word = "jun".to_string();
    let accented = "été".to_string();
    let empty = String::new();
    assert!(check_year_month(Some(&y), Some(&word)));
    assert!(check_year_month(Some(&y), None));
    assert!(check_year_month(None, Some(&m13)));
    assert!(!check_year_month(Some(&y), Some(&m13)));
    assert!(!check_year_month(Some(&bad_year), Some(&word)));
    assert!(!check_year_month(Some(&y), Some(&accented)));
    assert!(!check_year_month(Some(&y), Some(&empty)));
    let far = "300000".to_string();
    let one = "1".to_string();
    assert!(!check_year_month(Some(&far), Some(&one)));
}

#[test]
fn initials_take_the_first_grapheme() {
    assert_eq!(fmt_initials(&words(&["Ada", "Maria"])), "A. M.");
    assert_eq!(fmt_initials(&words(&["e\u{301}mile"])), "e\u{301}.");
    assert_eq!(fmt_initials(&words(&["Ōe"])), "Ō.");
    assert_eq!(fmt_initials(&Vec::new()), "");
    assert_eq!(initials_from(&vec!["J", "R", "R"]), "J. R. R.");
    assert_eq!(join_words(&words(&["a", "b", "c"]), ", "), "a, b, c");
    assert_eq!(join_words(&Vec::new(), ", "), "");
}

#[test]
fn names_need_initials() {
    assert!(check_names(&vec![name(&["Ada"], &["Lovelace"])]));
    assert!(!check_names(&vec![name(&["Ada", ""], &["Lovelace"])]));
    assert!(check_names(&vec![name(&[], &["R Core Team"])]));
}

#[test]
fn apa_date_parts() {
    assert_eq!(fmt_pages(&"5-32".to_string()), "5-32.");
    assert_eq!(fmt_journal("J".to_string()), "J");
    assert_eq!(fmt_pub_date(Some("2001".to_string())), "(2001).");
    assert_eq!(fmt_pub_date(None), "(n.d.).");
    assert_eq!(fmt_title("T".to_string()), "T.");
    let apa = ApaStylizer::<PlainTextFormatter>::default();
    let y = "1996".to_string();
    let m = "9".to_string();
    assert_eq!(apa.fmt_year_month(Some(&y), Some(&m)), "1996, September");
    assert_eq!(apa.fmt_year_month(Some(&y), None), "1996");
    assert_eq!(apa.fmt_year_month(None, Some(&m)), "n.d.");
    let ieee = IeeeStylizer::<PlainTextFormatter>::default();
    assert_eq!(ieee.fmt_year_month(Some(&y), Some(&m)), " Sep. 1996");
    assert_eq!(ieee.fmt_year_month(Some(&y), None), " 1996");
    assert_eq!(ieee.fmt_year_month(None, None), "");
}

#[test]
fn author_lists_by_count() {
    let apa = ApaStylizer::<PlainTextFormatter>::default();
    let ieee = IeeeStylizer::<PlainTextFormatter>::default();
    assert_eq!(apa.fmt_authors(Vec::new()), "");
    assert_eq!(ieee.fmt_authors(Vec::new()), "");
    let many: Vec<OwnedFullName> = (0..22).map(|i| name(&["X"], &[&format!("N{}", i)])).collect();
    let apa_many = apa.fmt_authors(many.clone());
    assert!(apa_many.starts_with("N0, X., N1, X."));
    assert!(apa_many.ends_with("N18, X.,...N21, X."));
    let twenty_one: Vec<OwnedFullName> = many[..21].to_vec();
    assert!(apa.fmt_authors(twenty_one).ends_with("N19, X., & N20, X."));
    let seven: Vec<OwnedFullName> = many[..7].to_vec();
    assert_eq!(ieee.fmt_authors(seven), "X. N0, X. N1, X. N2, et al.");
}

#[test]
fn thesis_kinds_and_references() {
    let bib = "@phdthesis{p, author = {Rempel, Robert C.}, title = {T}, school = {S}, year = {1956}, month = {jun}}";
    let e = parse_bib(bib).unwrap().remove(0);
    let ieee = IeeeStylizer::<PlainTextFormatter>::default();
    assert_eq!(
        ieee.fmt_thesis(ThesisKind::Msc, e.authors.clone(), e.fields.clone()),
        "R. C. Rempel, \"T,\" M.S. thesis, S, Jun. 1956."
    );
    assert_eq!(ieee.fmt_reference(e.clone()), "R. C. Rempel, \"T,\" Ph.D. dissertation, S, Jun. 1956.");
    let apa = ApaStylizer::<MarkdownFormatter>::default();
    assert_eq!(apa.fmt_reference(e), "Rempel, R. C. (1956, Jun). T [Doctoral dissertation, S].");
}

#[test]
fn styles_and_formats_by_name() {
    assert_eq!(Format::try_from("HTML"), Ok(Format::Html));
    assert_eq!(Format::try_from("markdown"), Ok(Format::Markdown));
    assert_eq!(Format::try_from("Plain"), Ok(Format::Plain));
    assert_eq!(Format::try_from("asdfasdf"), Err(InvalidFormat));
    assert_eq!(Format::default(), Format::Plain);
    assert_eq!(ReferenceStyle::try_from("apa"), Ok(ReferenceStyle::APA));
    assert_eq!(ReferenceStyle::try_from("IEEE"), Ok(ReferenceStyle::IEEE));
    assert_eq!(ReferenceStyle::try_from("mla"), Err(InvalidStyle));
    assert_eq!(ReferenceStyle::default(), ReferenceStyle::IEEE);
}

#[test]
fn references_in_every_style_and_format() {
    let e = parse_bib("@manual{manual, title = {R}, author = {{R Core Team}}, organization = {O}, address = {A}, year = {2018}}")
        .unwrap()
        .remove(0);
    assert!(ReferenceStyle::APA.can_format(&e));
    assert_eq!(ReferenceStyle::IEEE.fmt_reference(e.clone(), Format::Html), "R Core Team, <i>R</i>, O, A, 2018.");
    assert_eq!(ReferenceStyle::IEEE.fmt_reference(e.clone(), Format::Markdown), "R Core Team, *R*, O, A, 2018.");
    assert_eq!(ReferenceStyle::APA.fmt_reference(e.clone(), Format::Plain), "R Core Team. (2018). R. O. A.");
    assert_eq!(ReferenceStyle::APA.fmt_reference(e, Format::Html), "R Core Team. (2018). R. O. A.");
}

#[test]
fn apa_needs_its_fields() {
    let e = parse_bib("@book{b, author = {Doe, Jane}, title = {T}}").unwrap().remove(0);
    assert!(!ReferenceStyle::APA.can_format(&e));
    assert!(ReferenceStyle::IEEE.can_format(&e));
    assert_eq!(ReferenceStyle::IEEE.fmt_reference(e, Format::Plain), "J. Doe, T. : , .");
    let bad_month = parse_bib("@booklet{b, author = {Doe, Jane}, title = {T}, howpublished = {H}, year = {2000}, month = {13}}")
        .unwrap()
        .remove(0);
    assert!(!ReferenceStyle::IEEE.can_format(&bad_month));
    assert!(!ReferenceStyle::APA.can_format(&bad_month));
    let no_editor = parse_bib("@proceedings{p, title = {T}, volume = {1}, publisher = {P}}").unwrap().remove(0);
    assert!(!ReferenceStyle::APA.can_format(&no_editor));
    assert!(!ReferenceStyle::IEEE.can_format(&no_editor));
    let mut fields = BibFields::new();
    fields.insert("title".to_string(), "T".to_string());
    let e = cite_me_bro::parsing::entry::BibEntry {
        kind: EntryType::Article,
        key: "k".to_string(),
        authors: vec![name(&[""], &["Doe"])],
        fields,
    };
    assert!(!ReferenceStyle::IEEE.can_format(&e));
}

#[test]
fn proceedings_do_not_depend_on_authors() {
    let with = parse_bib("@proceedings{p, author = {Doe, Jane}, editor = {Stepney, Susan}, title = {T}, volume = {1}, publisher = {P}, year = {2018}}")
        .unwrap()
        .remove(0);
    let without = parse_bib("@proceedings{p, editor = {Stepney, Susan}, title = {T}, volume = {1}, publisher = {P}, year = {2018}}")
        .unwrap()
        .remove(0);
    for style in [ReferenceStyle::APA, ReferenceStyle::IEEE] {
        assert_eq!(
            style.fmt_reference(with.clone(), Format::Plain),
            style.fmt_reference(without.clone(), Format::Plain)
        );
    }
    assert_eq!(
        ReferenceStyle::APA.fmt_reference(without, Format::Plain),
        "Stepney, S. (Eds.). (2018). T (Vol. 1). P."
    );
}

#[test]
fn only_written_names_need_initials() {
    let mut authors: Vec<OwnedFullName> = (0..7).map(|i| name(&["X"], &[&format!("N{}", i)])).collect();
    authors[5] = name(&[""], &["Blank"]);
    let ieee = IeeeStylizer::<PlainTextFormatter>::default();
    assert_eq!(ieee.fmt_authors(authors), "X. N0, X. N1, X. N2, et al.");
}

#[test]
fn refused_names_say_why() {
    assert_eq!(Format::try_from("asdfasdf").unwrap_err().message(), "invalid format");
    assert_eq!(ReferenceStyle::try_from("mla").unwrap_err().message(), "invalid style");
}

#[test]
fn checked_reference_refuses_what_the_style_cannot_format() {
    let e = parse_bib("@book{b, author = {Doe, Jane}, title = {T}}").unwrap().remove(0);
    assert_eq!(ReferenceStyle::APA.try_fmt_reference(e.clone(), Format::Plain), None);
    assert_eq!(ReferenceStyle::IEEE.try_fmt_reference(e, Format::Plain), Some("J. Doe, T. : , .".to_string()));
}

#[test]
fn the_key_does_not_change_a_reference() {
    let a = parse_bib("@book{first, author = {Doe, Jane}, title = {T}}").unwrap().remove(0);
    let b = parse_bib("@book{second, author = {Doe, Jane}, title = {T}}").unwrap().remove(0);
    for style in [ReferenceStyle::APA, ReferenceStyle::IEEE] {
        assert_eq!(style.try_fmt_reference(a.clone(), Format::Html), style.try_fmt_reference(b.clone(), Format::Html));
    }
}
