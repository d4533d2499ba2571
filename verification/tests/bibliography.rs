use cite_me_bro::ops::bibligraphy::{Bibliography, MissingKey};
use cite_me_bro::parsing::entry::{parse_bib, BibEntry, BibError, EntryType};
use cite_me_bro::parsing::fields::BibFields;
use cite_me_bro::parsing::names::OwnedFullName;
use cite_me_bro::styles::ReferenceStyle;
use cite_me_bro::Format;

const CITE_BIB: &str = r#"@article{breiman2001,
  title={Random forests},
  author={Breiman, Leo},
  journal={Machine learning},
  volume={45},
  number={1},
  pages={5-32},
  year={2001},
  publisher={Springer},
  doi={https://doi.org/10.1023/a:1010933404324}
}

@article{10.1093/femsec/fiw174,
  author = {Liao, Jingqiu and Cao, Xiaofeng and Zhao, Lei and Wang, Jie and Gao, Zhe and Wang, Michael Cai and Huang, Yi},
  title = {The importance of neutral and niche processes for bacterial community assembly differs between habitat generalists and specialists},
  journal = {FEMS Microbiology Ecology},
  volume = {92},
  number = {11},
  year = {2016},
  month = {08},
  issn = {0168-6496},
  doi = {https://doi.org/10.1093/femsec/fiw174},
  url = {https://doi.org/10.1093/femsec/fiw174}
}

@article{article,
  author = {Cohen, Paul J.},
  title = {The independence of the continuum hypothesis},
  journal = {Proceedings of the National Academy of Sciences},
  volume = {50},
  number = {6},
  pages = {1143-1148},
  year = {1963}
}

@book{book,
  author = {Susskind, Leonard and Hrabovsky, George},
  title = {Classical mechanics: the theoretical minimum},
  publisher = {Penguin Random House},
  address = {New York, NY},
  year = {2014}
}

@booklet{booklet,
  title = {Canoe tours in Sweden},
  author = {Swetla, Maria},
  howpublished = {Distributed at the Stockholm Tourist Office},
  month = {7},
  year = {2015}
}

@inbook{inbook,
  author = {Urry, Lisa A. and Cain, Michael L. and Wasserman, Steven A. and Minorsky, Peter V. and Reece, Jane B.},
  title = {Photosynthesis},
  booktitle = {Campbell biology},
  year = {2016},
  publisher = {Pearson},
  address = {New York, NY},
  pages = {187-221}
}

@incollection{incollection,
  author = "Shapiro, Howard M.",
  editor = {Hawley, Teresa S. and Hawley, Robert G.},
  title = {Flow cytometry: The glass is half full},
  booktitle = {Flow cytometry protocols},
  year = {2018},
  publisher = {Springer},
  address = {New York, NY},
  pages = {1-10}
}

@inproceedings{inproceedings,
  author = {Holleis, Paul and Wagner, Matthias and Koolwaaij, Johan},
  title = {Studying mobile context-aware social services in the wild},
  booktitle = {Proc. of the 6th Nordic Conf. on Human-Computer Interaction},
  series = {NordiCHI},
  year = {2010},
  pages = {207-216},
  publisher = {ACM},
  address = {New York, NY}
}

@manual{manual,
  title = {R: A language and environment for statistical computing},
  author = {{R Core Team}},
  organization = {R Foundation for Statistical Computing},
  address = {Vienna, Austria},
  year = {2018}
}

@mastersthesis{mastersthesis,
  author = {Tang, Jian},
  title = {Spin structure of the nucleon in the asymptotic limit},
  school = {Massachusetts Institute of Technology},
  year = {1996},
  address = {Cambridge, MA},
  month = {9}
}

@misc{misc,
  title = {Pluto: The 'other' red planet},
  author = {{NASA}},
  howpublished = {https://www.nasa.gov/nh/pluto-the-other-red-planet},
  year = {2015},
  note = {Accessed: 2018-12-06}
}

@phdthesis{phdthesis,
  title = {Relaxation effects for coupled nuclear spins},
  author = {Rempel, Robert C.},
  school = {Stanford University},
  address = {Stanford, CA},
  year = {1956},
  month = {6}
}

@proceedings{proceedings,
  editor = {Stepney, Susan and Verlan, Sergey},
  title = {Proceedings of the 17th international conference on computation and natural computation, fontainebleau, france},
  series = {Lecture Notes in Computer Science},
  volume = {10867},
  publisher = {Springer},
  address = {Cham, Switzerland},
  year = {2018}
}

@techreport{techreport,
  title = {Wasatch Solar Project final report},
  author = {Bennett, Vicki and Bowman, Kate and Wright, Sarah},
  institution = {Salt Lake City Corporation},
  address = {Salt Lake City, UT},
  number = {DOE-SLC-6903-1},
  year = {2018},
  month = {9}
}

@unpublished{unpublished,
  author = {Suresh, Mohan},
  title = {Evolution: A revised theory},
  year = {2006}
}

@conference{conference,
  author = {Smith, John and Doe, Jane},
  title = {The Effects of Climate Change},
  booktitle = {Proceedings of the Annual Conference on Climate Change},
  editor = {Johnson, Bob},
  year = {2022},
  month = {6},
  pages = {55-62},
  publisher = {Springer},
  address = {Los Angeles, CA},
  organization = {Climate Change Association}
}
"#;

fn name(first: &[&str], last: &[&str]) -> OwnedFullName {
    OwnedFullName {
        first: first.iter().map(|s| s.to_string()).collect(),
        last: last.iter().map(|s| s.to_string()).collect(),
        von: Vec::new(),
        title: Vec::new(),
    }
}

const SMALL_BIB: &str = "@book{book,
  author = {Susskind, Leonard and Hrabovsky, George},
  title = {Classical mechanics: the theoretical minimum},
  publisher = {Penguin Random House},
  address = {New York, NY},
  year = {2014}
}
@unpublished{unpublished,
  author = {Suresh, Mohan},
  title = {Evolution: A revised theory},
  year = {2006}
}";

#[test]
fn bibligraphy_test_bib_file_parse() {
    let entries = parse_bib(CITE_BIB).unwrap();
    let mut dict = BibFields::new();
    dict.insert("title".to_string(), "Random forests".to_string());
    dict.insert("journal".to_string(), "Machine learning".to_string());
    dict.insert("volume".to_string(), "45".to_string());
    dict.insert("number".to_string(), "1".to_string());
    dict.insert("pages".to_string(), "5-32".to_string());
    dict.insert("year".to_string(), "2001".to_string());
    dict.insert("publisher".to_string(), "Springer".to_string());
    dict.insert(
        "doi".to_string(),
        "https://doi.org/10.1023/a:1010933404324".to_string(),
    );
    assert_eq!(
        entries[0],
        BibEntry {
            kind: EntryType::Article,
            key: String::from("breiman2001"),
            authors: vec![name(&["Leo"], &["Breiman"])],
            fields: dict,
        }
    );
    let mut dict = BibFields::new();
    dict.insert("title".to_string() , "The importance of neutral and niche processes for bacterial community assembly differs between habitat generalists and specialists".to_string());
    dict.insert(
        "journal".to_string(),
        "FEMS Microbiology Ecology".to_string(),
    );
    dict.insert("volume".to_string(), "92".to_string());
    dict.insert("number".to_string(), "11".to_string());
    dict.insert("year".to_string(), "2016".to_string());
    dict.insert("month".to_string(), "08".to_string());
    dict.insert("issn".to_string(), "0168-6496".to_string());
    dict.insert(
        "doi".to_string(),
        "https://doi.org/10.1093/femsec/fiw174".to_string(),
    );
    dict.insert(
        "url".to_string(),
        "https://doi.org/10.1093/femsec/fiw174".to_string(),
    );
    assert_eq!(
        entries[1],
        BibEntry {
            kind: EntryType::Article,
            key: String::from("10.1093/femsec/fiw174"),
            authors: vec![
                name(&["Jingqiu"], &["Liao"]),
                name(&["Xiaofeng"], &["Cao"]),
                name(&["Lei"], &["Zhao"]),
                name(&["Jie"], &["Wang"]),
                name(&["Zhe"], &["Gao"]),
                name(&["Michael", "Cai"], &["Wang"]),
                name(&["Yi"], &["Huang"]),
            ],
            fields: dict,
        }
    );
}

#[test]
fn entries_are_found_by_key() {
    let bib = Bibliography::from_contents(CITE_BIB).unwrap();
    assert!(bib.has_key(&"misc".to_string()));
    assert!(!bib.has_key(&"asdf".to_string()));
    let e = bib.get_entry("phdthesis".to_string()).unwrap();
    assert_eq!(e.kind, EntryType::Phdthesis);
    assert!(bib.get_entry("asdf".to_string()).is_none());
    let keys = bib.get_keys();
    assert_eq!(keys.len(), 16);
    assert_eq!(keys[0], "breiman2001");
    assert_eq!(keys[15], "conference");
}

#[test]
fn from_contents_reports_why_a_text_is_unreadable() {
    assert!(matches!(Bibliography::from_contents("@Misc{x, title = {t}}"), Err(BibError::EntryTypeCase)));
    assert!(matches!(Bibliography::from_contents("not bibtex"), Err(BibError::Syntax)));
}

#[test]
fn all_entries_are_formatted_in_order() {
    let bib = Bibliography::from_contents(SMALL_BIB).unwrap();
    let style = ReferenceStyle::IEEE;
    for e in parse_bib(SMALL_BIB).unwrap().iter() {
        assert!(style.can_format(e));
    }
    let out = bib.fmt_entries(style, Format::Plain);
    assert_eq!(
        out,
        vec![
            "L. Susskind and G. Hrabovsky, Classical mechanics: the theoretical minimum. New York, NY: Penguin Random House, 2014.".to_string(),
            "M. Suresh, \"Evolution: A revised theory,\" unpublished.".to_string(),
        ]
    );
}

#[test]
fn filtered_keys_split_into_known_and_unknown() {
    let bib = Bibliography::from_contents(SMALL_BIB).unwrap();
    let (formatted, unknown) = bib.fmt_entries_filtered(
        ReferenceStyle::APA,
        Format::Markdown,
        vec!["asdf".to_string(), "book".to_string(), "zzz".to_string()],
    );
    assert_eq!(
        formatted,
        vec!["Susskind, L., & Hrabovsky, G. (2014). *Classical mechanics: the theoretical minimum*. Penguin Random House.".to_string()]
    );
    assert_eq!(unknown, vec!["asdf".to_string(), "zzz".to_string()]);
}

#[test]
fn citations_are_expanded_in_markdown() {
    let bib = Bibliography::from_contents(CITE_BIB).unwrap();
    let out = bib
        .expand_citations_in_string("\\cite{article}", ReferenceStyle::APA, Format::Markdown, false)
        .unwrap();
    assert_eq!(out, "Cohen, P. J. (1963). The independence of the continuum hypothesis. *Proceedings of the National Academy of Sciences, 50* (6), 1143-1148.");
    let out = bib
        .expand_citations_in_string("see \\cite{article}!", ReferenceStyle::IEEE, Format::Markdown, false)
        .unwrap();
    assert_eq!(out, "see P. J. Cohen, \"The independence of the continuum hypothesis,\" *Proceedings of the National Academy of Sciences,* vol. 50, no. 6, pp. 1143-1148, 1963.!");
}

#[test]
fn text_without_citations_is_unchanged() {
    let bib = Bibliography::from_contents(CITE_BIB).unwrap();
    let text = "# Chapter 1\n";
    let out = bib.expand_citations_in_string(text, ReferenceStyle::IEEE, Format::Html, false).unwrap();
    assert_eq!(out, text);
    let out = bib.expand_citations_in_string(text, ReferenceStyle::IEEE, Format::Html, true).unwrap();
    assert_eq!(out, text);
}

#[test]
fn unknown_key_is_kept_or_refused() {
    let bib = Bibliography::from_contents(SMALL_BIB).unwrap();
    let text = "a \\cite{asdf} b \\cite{unpublished} c";
    let out = bib.expand_citations_in_string(text, ReferenceStyle::IEEE, Format::Plain, false).unwrap();
    assert_eq!(out, "a \\cite{asdf} b M. Suresh, \"Evolution: A revised theory,\" unpublished. c");
    let err = bib.expand_citations_in_string(text, ReferenceStyle::IEEE, Format::Plain, true).unwrap_err();
    assert_eq!(err, MissingKey { key: "asdf".to_string() });
    assert_eq!(err.message(), "key asdf was not present in any of the bib files");
}

#[test]
fn merged_bibliographies_keep_both_and_prefer_the_first() {
    let mut a = Bibliography::from_contents(SMALL_BIB).unwrap();
    let b = Bibliography::from_contents(
        "@misc{book, title = {Another book}}\n@misc{extra, title = {Extra}}",
    )
    .unwrap();
    a.merge(b);
    assert_eq!(a.get_keys(), vec!["book", "unpublished", "book", "extra"]);
    assert_eq!(a.get_entry("book".to_string()).unwrap().kind, EntryType::Book);
    assert!(a.has_key(&"extra".to_string()));
}

#[test]
fn empty_bibliographies() {
    let a = Bibliography::new();
    assert!(a.get_keys().is_empty());
    let b = Bibliography::default();
    assert!(!b.has_key(&"x".to_string()));
    let c = Bibliography::from(parse_bib(SMALL_BIB).unwrap());
    assert_eq!(c.get_keys(), vec!["book", "unpublished"]);
}

#[test]
fn whole_bibliography_in_ieee() {
    let bib = Bibliography::from_contents(CITE_BIB).unwrap();
    assert!(bib.can_format_all(ReferenceStyle::IEEE));
    let out = bib.fmt_entries(ReferenceStyle::IEEE, Format::Plain).join("\n") + "\n";
    let expected = "L. Breiman, \"Random forests,\" Machine learning, vol. 45, no. 1, pp. 5-32, 2001. doi: https://doi.org/10.1023/a:1010933404324.
J. Liao, X. Cao, L. Zhao, et al., \"The importance of neutral and niche processes for bacterial community assembly differs between habitat generalists and specialists,\" FEMS Microbiology Ecology, vol. 92, no. 11, Aug. 2016, issn: 0168-6496. doi: https://doi.org/10.1093/femsec/fiw174. [Online]. Available: https://doi.org/10.1093/femsec/fiw174.
P. J. Cohen, \"The independence of the continuum hypothesis,\" Proceedings of the National Academy of Sciences, vol. 50, no. 6, pp. 1143-1148, 1963.
L. Susskind and G. Hrabovsky, Classical mechanics: the theoretical minimum. New York, NY: Penguin Random House, 2014.
M. Swetla, Canoe tours in Sweden, Distributed at the Stockholm Tourist Office, Jul. 2015.
L. A. Urry, M. L. Cain, S. A. Wasserman, P. V. Minorsky, and J. B. Reece, \"Photosynthesis,\" in Campbell biology. New York, NY: Pearson, 2016, pp. 187-221.
H. M. Shapiro, \"Flow cytometry: The glass is half full,\" in Flow cytometry protocols, T. S. Hawley and R. G. Hawley, Eds., New York, NY: Springer, 2018, pp. 1-10.
P. Holleis, M. Wagner, and J. Koolwaaij, \"Studying mobile context-aware social services in the wild,\" in Proc. of the 6th Nordic Conf. on Human-Computer Interaction, ser. NordiCHI, New York, NY: ACM, 2010, pp. 207-216.
R Core Team, R: A language and environment for statistical computing, R Foundation for Statistical Computing, Vienna, Austria, 2018.
J. Tang, \"Spin structure of the nucleon in the asymptotic limit,\" M.S. thesis, Massachusetts Institute of Technology, Cambridge, MA, Sep. 1996.
NASA, Pluto: The 'other' red planet, https://www.nasa.gov/nh/pluto-the-other-red-planet, Accessed: 2018-12-06, 2015.
R. C. Rempel, \"Relaxation effects for coupled nuclear spins,\" Ph.D. dissertation, Stanford University, Stanford, CA, Jun. 1956.
S. Stepney and S. Verlan, Eds., Proceedings of the 17th international conference on computation and natural computation, fontainebleau, france, vol. 10867, Lecture Notes in Computer Science, Cham, Switzerland: Springer, 2018
V. Bennett, K. Bowman, and S. Wright, \"Wasatch Solar Project final report,\" Salt Lake City Corporation, Salt Lake City, UT, Tech. Rep. DOE-SLC-6903-1, Sep. 2018.
M. Suresh, \"Evolution: A revised theory,\" unpublished.
J. Smith and J. Doe, \"The Effects of Climate Change,\" in Proceedings of the Annual Conference on Climate Change, B. Johnson, Ed., Climate Change Association, Los Angeles, CA: Springer, Jun. 2022, pp. 55-62.\n";
    assert_eq!(out, expected);
}

#[test]
fn bacterial_reference_in_html_and_markdown() {
    let bib = Bibliography::from_contents(CITE_BIB).unwrap();
    let keys = vec!["10.1093/femsec/fiw174".to_string()];
    let (html, _) = Bibliography::from_contents(CITE_BIB).unwrap().fmt_entries_filtered(ReferenceStyle::IEEE, Format::Html, keys.clone());
    assert_eq!(html[0], "J. Liao, X. Cao, L. Zhao, et al., \"The importance of neutral and niche processes for bacterial community assembly differs between habitat generalists and specialists,\" <i>FEMS Microbiology Ecology,</i> vol. 92, no. 11, Aug. 2016, issn: 0168-6496. doi: https://doi.org/10.1093/femsec/fiw174. [Online]. Available: <a href=\"https://doi.org/10.1093/femsec/fiw174\">https://doi.org/10.1093/femsec/fiw174</a>.");
    let (md, _) = Bibliography::from_contents(CITE_BIB).unwrap().fmt_entries_filtered(ReferenceStyle::IEEE, Format::Markdown, keys.clone());
    assert_eq!(md[0], "J. Liao, X. Cao, L. Zhao, et al., \"The importance of neutral and niche processes for bacterial community assembly differs between habitat generalists and specialists,\" *FEMS Microbiology Ecology,* vol. 92, no. 11, Aug. 2016, issn: 0168-6496. doi: https://doi.org/10.1093/femsec/fiw174. [Online]. Available: [https://doi.org/10.1093/femsec/fiw174](https://doi.org/10.1093/femsec/fiw174).");
    let (apa, unknown) = bib.fmt_entries_filtered(ReferenceStyle::APA, Format::Html, keys);
    assert_eq!(apa[0], "Liao, J., Cao, X., Zhao, L., Wang, J., Gao, Z., Wang, M. C., & Huang, Y. (2016). The importance of neutral and niche processes for bacterial community assembly differs between habitat generalists and specialists. <i>FEMS Microbiology Ecology, 92</i> (11), <a href=\"https://doi.org/10.1093/femsec/fiw174\">https://doi.org/10.1093/femsec/fiw174</a>");
    assert!(unknown.is_empty());
}

#[test]
fn citation_in_a_text_is_replaced_in_place() {
    let bib = Bibliography::from_contents(CITE_BIB).unwrap();
    let text = "there once was a citation: \\cite{book}. adsflkjwoiejflkdslslsldlkfki nrgiwf";
    assert!(bib.can_expand(text, ReferenceStyle::IEEE, false));
    let out = bib.expand_citations_in_string(text, ReferenceStyle::IEEE, Format::Plain, false).unwrap();
    assert_eq!(out, "there once was a citation: L. Susskind and G. Hrabovsky, Classical mechanics: the theoretical minimum. New York, NY: Penguin Random House, 2014.. adsflkjwoiejflkdslslsldlkfki nrgiwf");
}

#[test]
fn expansion_needs_formattable_cited_entries() {
    let bib = Bibliography::from_contents("@book{b, author = {Doe, Jane}, title = {T}}").unwrap();
    assert!(!bib.can_expand("\\cite{b}", ReferenceStyle::APA, false));
    assert!(bib.can_expand("\\cite{b}", ReferenceStyle::IEEE, false));
    assert!(bib.can_expand("\\cite{nope} \\cite{b}", ReferenceStyle::APA, true));
    assert!(!bib.can_expand("\\cite{nope} \\cite{b}", ReferenceStyle::APA, false));
    assert!(!bib.can_format_all(ReferenceStyle::APA));
}

#[test]
fn merges_chain() {
    let mut a = Bibliography::from_contents(SMALL_BIB).unwrap();
    let b = Bibliography::from_contents("@misc{extra, title = {Extra}}").unwrap();
    let c = Bibliography::from_contents("@misc{last, title = {Last}}").unwrap();
    a.merge(b).merge(c);
    assert_eq!(a.get_keys(), vec!["book", "unpublished", "extra", "last"]);
}

#[test]
fn checked_forms_refuse_entries_the_style_cannot_format() {
    let make = || Bibliography::from_contents("@book{b, author = {Doe, Jane}, title = {T}}").unwrap();
    let bib = make();
    assert_eq!(make().try_fmt_entries(ReferenceStyle::APA, Format::Plain), None);
    assert_eq!(
        make().try_fmt_entries(ReferenceStyle::IEEE, Format::Plain),
        Some(vec!["J. Doe, T. : , .".to_string()])
    );
    let keys = vec!["b".to_string(), "nope".to_string()];
    assert!(!bib.can_format_keys(ReferenceStyle::APA, &keys));
    assert!(bib.can_format_keys(ReferenceStyle::APA, &vec!["nope".to_string()]));
    assert_eq!(make().try_fmt_entries_filtered(ReferenceStyle::APA, Format::Plain, keys.clone()), None);
    assert_eq!(
        make().try_fmt_entries_filtered(ReferenceStyle::IEEE, Format::Plain, keys),
        Some((vec!["J. Doe, T. : , .".to_string()], vec!["nope".to_string()]))
    );
    assert_eq!(bib.try_expand_citations_in_string("\\cite{b}", ReferenceStyle::APA, Format::Plain, false), None);
    assert_eq!(
        bib.try_expand_citations_in_string("see \\cite{b}", ReferenceStyle::IEEE, Format::Plain, false),
        Some(Ok("see J. Doe, T. : , .".to_string()))
    );
    assert_eq!(
        bib.try_expand_citations_in_string("\\cite{nope} \\cite{b}", ReferenceStyle::APA, Format::Plain, true),
        Some(Err(MissingKey { key: "nope".to_string() }))
    );
}

#[test]
fn every_known_citation_is_replaced() {
    let bib = Bibliography::from_contents(SMALL_BIB).unwrap();
    let text = "A \\cite{book} B \\cite{unpublished} C";
    let book = ReferenceStyle::IEEE.fmt_reference(bib.get_entry("book".to_string()).unwrap(), Format::Plain);
    let unpublished =
        ReferenceStyle::IEEE.fmt_reference(bib.get_entry("unpublished".to_string()).unwrap(), Format::Plain);
    for fail_fast in [false, true] {
        let out = bib.expand_citations_in_string(text, ReferenceStyle::IEEE, Format::Plain, fail_fast).unwrap();
        assert_eq!(out, format!("A {} B {} C", book, unpublished));
    }
}
