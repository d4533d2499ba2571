use cite_me_bro::parsing::entry::{
    all_citations, citation, entry, entry_content, entry_key, entry_kind, field, field_type, next_citation,
    parse_bib, quote_quoted_field, BibEntry, BibError, EntryType,
};
use cite_me_bro::parsing::fields::BibFields;
use cite_me_bro::parsing::names::OwnedFullName;
use cite_me_bro::parsing::text::{chars_of, take_until_unbalanced};

const CITE_BIB: &str = r#"@article{breiman2001,
  title={Random forests},
  author={Breiman, Leo},
  journal={Machine learning},
  volume={45},
  number={1},
  pages={5-32},
  year={2001},
  publisher={Springer},
  doi={https://doi.org/10.1023/a:1010933404324}
}

@article{10.1093/femsec/fiw174,
  author = {Liao, Jingqiu and Cao, Xiaofeng and Zhao, Lei and Wang, Jie and Gao, Zhe and Wang, Michael Cai and Huang, Yi},
  title = {The importance of neutral and niche processes for bacterial community assembly differs between habitat generalists and specialists},
  journal = {FEMS Microbiology Ecology},
  volume = {92},
  number = {11},
  year = {2016},
  month = {08},
  issn = {0168-6496},
  doi = {https://doi.org/10.1093/femsec/fiw174},
  url = {https://doi.org/10.1093/femsec/fiw174}
}

@article{article,
  author = {Cohen, Paul J.},
  title = {The independence of the continuum hypothesis},
  journal = {Proceedings of the National Academy of Sciences},
  volume = {50},
  number = {6},
  pages = {1143-1148},
  year = {1963}
}

@book{book,
  author = {Susskind, Leonard and Hrabovsky, George},
  title = {Classical mechanics: the theoretical minimum},
  publisher = {Penguin Random House},
  address = {New York, NY},
  year = {2014}
}

@booklet{booklet,
  title = {Canoe tours in Sweden},
  author = {Swetla, Maria},
  howpublished = {Distributed at the Stockholm Tourist Office},
  month = {7},
  year = {2015}
}

@inbook{inbook,
  author = {Urry, Lisa A. and Cain, Michael L. and Wasserman, Steven A. and Minorsky, Peter V. and Reece, Jane B.},
  title = {Photosynthesis},
  booktitle = {Campbell biology},
  year = {2016},
  publisher = {Pearson},
  address = {New York, NY},
  pages = {187-221}
}

@incollection{incollection,
  author = "Shapiro, Howard M.",
  editor = {Hawley, Teresa S. and Hawley, Robert G.},
  title = {Flow cytometry: The glass is half full},
  booktitle = {Flow cytometry protocols},
  year = {2018},
  publisher = {Springer},
  address = {New York, NY},
  pages = {1-10}
}

@inproceedings{inproceedings,
  author = {Holleis, Paul and Wagner, Matthias and Koolwaaij, Johan},
  title = {Studying mobile context-aware social services in the wild},
  booktitle = {Proc. of the 6th Nordic Conf. on Human-Computer Interaction},
  series = {NordiCHI},
  year = {2010},
  pages = {207-216},
  publisher = {ACM},
  address = {New York, NY}
}

@manual{manual,
  title = {R: A language and environment for statistical computing},
  author = {{R Core Team}},
  organization = {R Foundation for Statistical Computing},
  address = {Vienna, Austria},
  year = {2018}
}

@mastersthesis{mastersthesis,
  author = {Tang, Jian},
  title = {Spin structure of the nucleon in the asymptotic limit},
  school = {Massachusetts Institute of Technology},
  year = {1996},
  address = {Cambridge, MA},
  month = {9}
}

@misc{misc,
  title = {Pluto: The 'other' red planet},
  author = {{NASA}},
  howpublished = {https://www.nasa.gov/nh/pluto-the-other-red-planet},
  year = {2015},
  note = {Accessed: 2018-12-06}
}

@phdthesis{phdthesis,
  title = {Relaxation effects for coupled nuclear spins},
  author = {Rempel, Robert C.},
  school = {Stanford University},
  address = {Stanford, CA},
  year = {1956},
  month = {6}
}

@proceedings{proceedings,
  editor = {Stepney, Susan and Verlan, Sergey},
  title = {Proceedings of the 17th international conference on computation and natural computation, fontainebleau, france},
  series = {Lecture Notes in Computer Science},
  volume = {10867},
  publisher = {Springer},
  address = {Cham, Switzerland},
  year = {2018}
}

@techreport{techreport,
  title = {Wasatch Solar Project final report},
  author = {Bennett, Vicki and Bowman, Kate and Wright, Sarah},
  institution = {Salt Lake City Corporation},
  address = {Salt Lake City, UT},
  number = {DOE-SLC-6903-1},
  year = {2018},
  month = {9}
}

@unpublished{unpublished,
  author = {Suresh, Mohan},
  title = {Evolution: A revised theory},
  year = {2006}
}

@conference{conference,
  author = {Smith, John and Doe, Jane},
  title = {The Effects of Climate Change},
  booktitle = {Proceedings of the Annual Conference on Climate Change},
  editor = {Johnson, Bob},
  year = {2022},
  month = {6},
  pages = {55-62},
  publisher = {Springer},
  address = {Los Angeles, CA},
  organization = {Climate Change Association}
}
"#;

fn name(first: &[&str], last: &[&str]) -> OwnedFullName {
    OwnedFullName {
        first: first.iter().map(|s| s.to_string()).collect(),
        last: last.iter().map(|s| s.to_string()).collect(),
        von: Vec::new(),
        title: Vec::new(),
    }
}

fn breiman_and_liao() -> (BibEntry, BibEntry) {
    let mut dict = BibFields::new();
    dict.insert("title".to_string(), "Random forests".to_string());
    dict.insert("journal".to_string(), "Machine learning".to_string());
    dict.insert("volume".to_string(), "45".to_string());
    dict.insert("number".to_string(), "1".to_string());
    dict.insert("pages".to_string(), "5-32".to_string());
    dict.insert("year".to_string(), "2001".to_string());
    dict.insert("publisher".to_string(), "Springer".to_string());
    dict.insert(
        "doi".to_string(),
        "https://doi.org/10.1023/a:1010933404324".to_string(),
    );
    let first = BibEntry {
        kind: EntryType::Article,
        key: String::from("breiman2001"),
        authors: vec![name(&["Leo"], &["Breiman"])],
        fields: dict,
    };
    let mut dict = BibFields::new();
    dict.insert("title".to_string() , "The importance of neutral and niche processes for bacterial community assembly differs between habitat generalists and specialists".to_string());
    dict.insert(
        "journal".to_string(),
        "FEMS Microbiology Ecology".to_string(),
    );
    dict.insert("volume".to_string(), "92".to_string());
    dict.insert("number".to_string(), "11".to_string());
    dict.insert("year".to_string(), "2016".to_string());
    dict.insert("month".to_string(), "08".to_string());
    dict.insert("issn".to_string(), "0168-6496".to_string());
    dict.insert(
        "doi".to_string(),
        "https://doi.org/10.1093/femsec/fiw174".to_string(),
    );
    dict.insert(
        "url".to_string(),
        "https://doi.org/10.1093/femsec/fiw174".to_string(),
    );
    let second = BibEntry {
        kind: EntryType::Article,
        key: String::from("10.1093/femsec/fiw174"),
        authors: vec![
            name(&["Jingqiu"], &["Liao"]),
            name(&["Xiaofeng"], &["Cao"]),
            name(&["Lei"], &["Zhao"]),
            name(&["Jie"], &["Wang"]),
            name(&["Zhe"], &["Gao"]),
            name(&["Michael", "Cai"], &["Wang"]),
            name(&["Yi"], &["Huang"]),
        ],
        fields: dict,
    };
    (first, second)
}

#[test]
fn test_quoted() {
    let input = "\"Shapiro, Howard M.\"";
    let (tail, field) = quote_quoted_field(input).unwrap();
    assert_eq!(tail, "");
    assert_eq!(field, "Shapiro, Howard M.");
}

#[test]
fn parse_entry_types() {
    for (test, expected) in vec![
        ("@book", EntryType::Book),
        ("@booklet", EntryType::Booklet),
        ("@conference", EntryType::Conference),
        ("@inbook", EntryType::Inbook),
        ("@incollection", EntryType::Incollection),
        ("@inproceedings", EntryType::Inproceedings),
        ("@manual", EntryType::Manual),
        ("@mastersthesis", EntryType::Mastersthesis),
        ("@misc", EntryType::Misc),
        ("@phdthesis", EntryType::Phdthesis),
        ("@proceedings", EntryType::Proceedings),
        ("@techreport", EntryType::Techreport),
        ("@unpublished", EntryType::Unpublished),
    ] {
        let (tail, kind) = entry_kind(test).unwrap();
        assert_eq!(tail, "");
        assert_eq!(kind, expected);
    }
}

#[test]
fn parse_multiple_entry() {
    let entries = "@misc{foo,
        title = {blurb},
        }
        @misc{bar,
        title = {d}
        }";
    let (tail, (kind, key, fields)) = entry(entries).unwrap();
    assert_eq!(
        tail,
        "@misc{bar,
        title = {d}
        }"
    );

    assert_eq!(kind, EntryType::Misc);
    assert_eq!(key, "foo");
    assert_eq!(fields, vec![("title", "blurb")]);
}

#[test]
fn parse_dummy_entry() {
    let dummy_entry = "{asdf,
        foo = {bar}
        baz = {
            multi
            line
            content
        }}";
    let (tail, content) = entry_content(dummy_entry).unwrap();
    assert_eq!(tail, "");
    assert_eq!(
        content,
        "asdf,
        foo = {bar}
        baz = {
            multi
            line
            content
        }"
    );
}

#[test]
fn test_key_parsing() {
    let key = "10.1093/femsec/fiw174,";
    let (tail, content) = entry_key(key).unwrap();
    assert_eq!(tail, "");
    assert_eq!(content, "10.1093/femsec/fiw174");
}

#[test]
fn test_field_type_parsing() {
    for (test, expected) in vec![
        ("address", "address"),
        ("annote", "annote"),
        ("author", "author"),
        ("booktitle", "booktitle"),
        ("chapter", "chapter"),
        ("edition", "edition"),
        ("editor", "editor"),
        ("howpublished", "howpublished"),
        ("institution", "institution"),
        ("journal", "journal"),
        ("month", "month"),
        ("note", "note"),
        ("number", "number"),
        ("organization", "organization"),
        ("pages", "pages"),
        ("publisher", "publisher"),
        ("school", "school"),
        ("series", "series"),
        ("title", "title"),
        ("type", "type"),
        ("volume", "volume"),
        ("year", "year"),
        ("doi", "doi"),
        ("issn", "issn"),
        ("isbn", "isbn"),
        ("url", "url"),
    ] {
        let (tail, field) = field_type(test).unwrap();
        assert_eq!(tail, "");
        assert_eq!(field, expected);
    }
}

#[test]
fn entry_test_bib_file_parse() {
    let entries = parse_bib(CITE_BIB).unwrap();
    let (first, second) = breiman_and_liao();
    assert_eq!(entries[0], first);
    assert_eq!(entries[1], second);
}

#[test]
fn unquoted_year_comma() {
    let input = "year    = 1956   ,  \n";
    let (tail, (kind, content)) = field(input).unwrap();
    assert_eq!(tail, ",  \n");
    assert_eq!(kind, "year");
    assert_eq!(content, "1956");
}

#[test]
fn unquoted_year_no_comma() {
    let input = "year    = 1956   \n}";
    let (tail, (kind, content)) = field(input).unwrap();
    assert_eq!(tail, "}");
    assert_eq!(kind, "year");
    assert_eq!(content, "1956");
}

#[test]
fn unquoted_field_last() {
    let input = "month   = jun \n}";
    let (tail, (kind, content)) = field(input).unwrap();
    assert_eq!(tail, "}");
    assert_eq!(kind, "month");
    assert_eq!(content, "jun");
}

#[test]
fn brace_quoted_field() {
    let input = "month   = {jun}, month   = {jun}";
    let (tail, (kind, content)) = field(input).unwrap();
    assert_eq!(tail, ", month   = {jun}");
    assert_eq!(kind, "month");
    assert_eq!(content, "jun");
}

#[test]
fn text_citation_simple() {
    let input = "         asd;lkfjwliefjxcajvnasledifm; sei help I'm stuck in a sub factory! asdoifmwae;va \\cite{book}.";
    let (tail, (unmodified, citation_key)) = next_citation(input).unwrap();

    assert_eq!(tail, ".");
    assert_eq!(unmodified,"         asd;lkfjwliefjxcajvnasledifm; sei help I'm stuck in a sub factory! asdoifmwae;va ");
    assert_eq!(citation_key, "book");
}

#[test]
fn whole_text_parses_into_every_entry() {
    let entries = parse_bib(CITE_BIB).unwrap();
    assert_eq!(entries.len(), 16);
    assert_eq!(entries[4].kind, EntryType::Booklet);
    assert_eq!(entries[8].key, "manual");
    assert_eq!(entries[8].authors, vec![name(&[], &["R Core Team"])]);
    assert_eq!(entries[12].authors, Vec::<OwnedFullName>::new());
    assert_eq!(entries[12].fields.get("editor").unwrap(), "Stepney, Susan and Verlan, Sergey");
}

#[test]
fn capitalised_kind_is_refused() {
    assert_eq!(parse_bib("@Book{b, title = {t}}"), Err(BibError::EntryTypeCase));
}

#[test]
fn unreadable_text_is_a_syntax_error() {
    assert_eq!(parse_bib("@book{b, title = {t}} trailing"), Err(BibError::Syntax));
    assert_eq!(parse_bib(""), Err(BibError::Syntax));
}

#[test]
fn author_field_without_names_is_refused() {
    assert_eq!(parse_bib("@book{b, author = {,}, title = {t}}"), Err(BibError::Authors));
}

#[test]
fn citations_are_split_from_the_text() {
    let (tail, pieces) = all_citations("a \\cite{x} b \\cite{y} c");
    assert_eq!(pieces, vec![("a ", "x"), (" b ", "y")]);
    assert_eq!(tail, " c");
    let (tail, pieces) = all_citations("no citations here");
    assert!(pieces.is_empty());
    assert_eq!(tail, "no citations here");
    assert_eq!(citation("\\cite{k} rest").unwrap(), (" rest", "k"));
    assert!(citation("\\cite{open").is_err());
}

#[test]
fn entry_type_names() {
    assert_eq!(EntryType::try_from("phdthesis"), Ok(EntryType::Phdthesis));
    assert!(EntryType::try_from("Phdthesis").is_err());
    assert_eq!(EntryType::Inproceedings.display_name(), "Inproceedings");
}

#[test]
fn unbalanced_split_agrees_with_parse_hyperlinks() {
    for s in [
        "abc", "a}b", "{a}b}c", "a\\}b}c", "{{}", "}", "", "x{y", "é{ü}}z", "a\\", "\\{}x", "{a\\}}}r",
    ] {
        let cs = chars_of(s);
        let mine = take_until_unbalanced(&cs, 0);
        let theirs = parse_hyperlinks::take_until_unbalanced('{', '}')(s);
        match (mine, theirs) {
            (Some(e), Ok((rest, taken))) => {
                let t: String = cs[..e].iter().collect();
                let r: String = cs[e..].iter().collect();
                assert_eq!(t, taken, "{}", s);
                assert_eq!(r, rest, "{}", s);
            }
            (None, Err(_)) => {}
            (m, t) => panic!("{:?}: {:?} against {:?}", s, m, t.is_ok()),
        }
    }
}

#[test]
fn lower_cased_display_names_read_back() {
    let kinds = [
        EntryType::Article,
        EntryType::Book,
        EntryType::Booklet,
        EntryType::Conference,
        EntryType::Inbook,
        EntryType::Incollection,
        EntryType::Inproceedings,
        EntryType::Manual,
        EntryType::Mastersthesis,
        EntryType::Misc,
        EntryType::Phdthesis,
        EntryType::Proceedings,
        EntryType::Techreport,
        EntryType::Unpublished,
    ];
    for k in kinds {
        assert_eq!(EntryType::try_from(k.display_name().to_lowercase().as_str()), Ok(k));
        assert_eq!(EntryType::try_from(k.display_name()), Err("unknown kind"));
    }
}
