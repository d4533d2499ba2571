use cite_me_bro::formaters::html::HtmlFormatter;
use cite_me_bro::formaters::plain::PlainTextFormatter;
use cite_me_bro::ops::bibligraphy::Bibliography;
use cite_me_bro::parsing::names::OwnedFullName;
use cite_me_bro::styles::apa::ApaStylizer;
use cite_me_bro::styles::ieee::IeeeStylizer;
use cite_me_bro::styles::Stylizer;

const CITE_BIB: &str = r#"@article{breiman2001,
  title={Random forests},
  author={Breiman, Leo},
  journal={Machine learning},
  volume={45},
  number={1},
  pages={5-32},
  year={2001},
  publisher={Springer},
  doi={https://doi.org/10.1023/a:1010933404324}
}

@article{10.1093/femsec/fiw174,
  author = {Liao, Jingqiu and Cao, Xiaofeng and Zhao, Lei and Wang, Jie and Gao, Zhe and Wang, Michael Cai and Huang, Yi},
  title = {The importance of neutral and niche processes for bacterial community assembly differs between habitat generalists and specialists},
  journal = {FEMS Microbiology Ecology},
  volume = {92},
  number = {11},
  year = {2016},
  month = {08},
  issn = {0168-6496},
  doi = {https://doi.org/10.1093/femsec/fiw174},
  url = {https://doi.org/10.1093/femsec/fiw174}
}

@article{article,
  author = {Cohen, Paul J.},
  title = {The independence of the continuum hypothesis},
  journal = {Proceedings of the National Academy of Sciences},
  volume = {50},
  number = {6},
  pages = {1143-1148},
  year = {1963}
}

@book{book,
  author = {Susskind, Leonard and Hrabovsky, George},
  title = {Classical mechanics: the theoretical minimum},
  publisher = {Penguin Random House},
  address = {New York, NY},
  year = {2014}
}

@booklet{booklet,
  title = {Canoe tours in Sweden},
  author = {Swetla, Maria},
  howpublished = {Distributed at the Stockholm Tourist Office},
  month = {7},
  year = {2015}
}

@inbook{inbook,
  author = {Urry, Lisa A. and Cain, Michael L. and Wasserman, Steven A. and Minorsky, Peter V. and Reece, Jane B.},
  title = {Photosynthesis},
  booktitle = {Campbell biology},
  year = {2016},
  publisher = {Pearson},
  address = {New York, NY},
  pages = {187-221}
}

@incollection{incollection,
  author = "Shapiro, Howard M.",
  editor = {Hawley, Teresa S. and Hawley, Robert G.},
  title = {Flow cytometry: The glass is half full},
  booktitle = {Flow cytometry protocols},
  year = {2018},
  publisher = {Springer},
  address = {New York, NY},
  pages = {1-10}
}

@inproceedings{inproceedings,
  author = {Holleis, Paul and Wagner, Matthias and Koolwaaij, Johan},
  title = {Studying mobile context-aware social services in the wild},
  booktitle = {Proc. of the 6th Nordic Conf. on Human-Computer Interaction},
  series = {NordiCHI},
  year = {2010},
  pages = {207-216},
  publisher = {ACM},
  address = {New York, NY}
}

@manual{manual,
  title = {R: A language and environment for statistical computing},
  author = {{R Core Team}},
  organization = {R Foundation for Statistical Computing},
  address = {Vienna, Austria},
  year = {2018}
}

@mastersthesis{mastersthesis,
  author = {Tang, Jian},
  title = {Spin structure of the nucleon in the asymptotic limit},
  school = {Massachusetts Institute of Technology},
  year = {1996},
  address = {Cambridge, MA},
  month = {9}
}

@misc{misc,
  title = {Pluto: The 'other' red planet},
  author = {{NASA}},
  howpublished = {https://www.nasa.gov/nh/pluto-the-other-red-planet},
  year = {2015},
  note = {Accessed: 2018-12-06}
}

@phdthesis{phdthesis,
  title = {Relaxation effects for coupled nuclear spins},
  author = {Rempel, Robert C.},
  school = {Stanford University},
  address = {Stanford, CA},
  year = {1956},
  month = {6}
}

@proceedings{proceedings,
  editor = {Stepney, Susan and Verlan, Sergey},
  title = {Proceedings of the 17th international conference on computation and natural computation, fontainebleau, france},
  series = {Lecture Notes in Computer Science},
  volume = {10867},
  publisher = {Springer},
  address = {Cham, Switzerland},
  year = {2018}
}

@techreport{techreport,
  title = {Wasatch Solar Project final report},
  author = {Bennett, Vicki and Bowman, Kate and Wright, Sarah},
  institution = {Salt Lake City Corporation},
  address = {Salt Lake City, UT},
  number = {DOE-SLC-6903-1},
  year = {2018},
  month = {9}
}

@unpublished{unpublished,
  author = {Suresh, Mohan},
  title = {Evolution: A revised theory},
  year = {2006}
}

@conference{conference,
  author = {Smith, John and Doe, Jane},
  title = {The Effects of Climate Change},
  booktitle = {Proceedings of the Annual Conference on Climate Change},
  editor = {Johnson, Bob},
  year = {2022},
  month = {6},
  pages = {55-62},
  publisher = {Springer},
  address = {Los Angeles, CA},
  organization = {Climate Change Association}
}
"#;

#[test]
fn apa_single_author_fmt() {
    let author = OwnedFullName {
        first: vec!["Ada".to_string(), "Maria".to_string()],
        last: vec!["Lovelace".to_string(), "Augusta".to_string()],
        von: vec![],
        title: vec![],
    };
    let stylizer = ApaStylizer::<PlainTextFormatter>::default();
    let formated = stylizer.fmt_authors(vec![author]);
    assert_eq!(formated, "Lovelace Augusta, A. M.");
}

#[test]
fn apa_dual_authors_fmt() {
    let authors = vec![
        OwnedFullName {
            first: vec!["Ada".to_string(), "Maria".to_string()],
            last: vec!["Lovelace".to_string(), "Augusta".to_string()],
            von: vec![],
            title: vec![],
        },
        OwnedFullName {
            first: vec!["Amalie".to_string(), "Emmy".to_string()],
            last: vec!["Noether".to_string()],
            von: vec![],
            title: vec![],
        },
    ];
    let stylizer = ApaStylizer::<PlainTextFormatter>::default();
    let formated = stylizer.fmt_authors(authors);
    assert_eq!(formated, "Lovelace Augusta, A. M., & Noether, A. E.");
}

#[test]
fn apa_triple_authors_fmt() {
    let authors = vec![
        OwnedFullName {
            first: vec!["Ada".to_string(), "Maria".to_string()],
            last: vec!["Lovelace".to_string(), "Augusta".to_string()],
            von: vec![],
            title: vec![],
        },
        OwnedFullName {
            first: vec!["Amalie".to_string(), "Emmy".to_string()],
            last: vec!["Noether".to_string()],
            von: vec![],
            title: vec![],
        },
        OwnedFullName {
            first: vec!["Sophie".to_string()],
            last: vec!["Germain".to_string()],
            von: vec![],
            title: vec![],
        },
    ];
    let stylizer = ApaStylizer::<PlainTextFormatter>::default();
    let formated = stylizer.fmt_authors(authors);
    assert_eq!(
        formated,
        "Lovelace Augusta, A. M., Noether, A. E., & Germain, S."
    );
}

#[test]
fn twenty_four_authors_fmt() {
    let authors = vec![
        OwnedFullName {
            first: vec!["Ada".to_string(), "Maria".to_string()],
            last: vec!["Lovelace".to_string(), "Augusta".to_string()],
            von: vec![],
            title: vec![],
        },
        OwnedFullName {
            first: vec!["Amalie".to_string(), "Emmy".to_string()],
            last: vec!["Noether".to_string()],
            von: vec![],
            title: vec![],
        },
        OwnedFullName {
            first: vec!["Sophie".to_string()],
            last: vec!["Germain".to_string()],
            von: vec![],
            title: vec![],
        },
        OwnedFullName {
            first: vec!["Sofia".to_string()],
            last: vec!["Kovalevskaya".to_string()],
            von: vec![],
            title: vec![],
        },
        OwnedFullName {
            first: vec!["Dorothy".to_string()],
            last: vec!["Vaughn".to_string()],
            von: vec![],
            title: vec![],
        },
        OwnedFullName {
            first: vec!["Maryam".to_string()],
            last: vec!["Mirzakhani".to_string()],
            von: vec![],
            title: vec![],
        },
        OwnedFullName {
            first: vec!["Ada".to_string(), "Maria".to_string()],
            last: vec!["Lovelace".to_string(), "Augusta".to_string()],
            von: vec![],
            title: vec![],
        },
        OwnedFullName {
            first: vec!["Amalie".to_string(), "Emmy".to_string()],
            last: vec!["Noether".to_string()],
            von: vec![],
            title: vec![],
        },
        OwnedFullName {
            first: vec!["Sophie".to_string()],
            last: vec!["Germain".to_string()],
            von: vec![],
            title: vec![],
        },
        OwnedFullName {
            first: vec!["Sofia".to_string()],
            last: vec!["Kovalevskaya".to_string()],
            von: vec![],
            title: vec![],
        },
        OwnedFullName {
            first: vec!["Dorothy".to_string()],
            last: vec!["Vaughn".to_string()],
            von: vec![],
            title: vec![],
        },
        OwnedFullName {
            first: vec!["Maryam".to_string()],
            last: vec!["Mirzakhani".to_string()],
            von: vec![],
            title: vec![],
        },
        OwnedFullName {
            first: vec!["Ada".to_string(), "Maria".to_string()],
            last: vec!["Lovelace".to_string(), "Augusta".to_string()],
            von: vec![],
            title: vec![],
        },
        OwnedFullName {
            first: vec!["Amalie".to_string(), "Emmy".to_string()],
            last: vec!["Noether".to_string()],
            von: vec![],
            title: vec![],
        },
        OwnedFullName {
            first: vec!["Sophie".to_string()],
            last: vec!["Germain".to_string()],
            von: vec![],
            title: vec![],
        },
        OwnedFullName {
            first: vec!["Sofia".to_string()],
            last: vec!["Kovalevskaya".to_string()],
            von: vec![],
            title: vec![],
        },
        OwnedFullName {
            first: vec!["Dorothy".to_string()],
            last: vec!["Vaughn".to_string()],
            von: vec![],
            title: vec![],
        },
        OwnedFullName {
            first: vec!["Maryam".to_string()],
            last: vec!["Mirzakhani".to_string()],
            von: vec![],
            title: vec![],
        },
        OwnedFullName {
            first: vec!["Ada".to_string(), "Maria".to_string()],
            last: vec!["Lovelace".to_string(), "Augusta".to_string()],
            von: vec![],
            title: vec![],
        },
        OwnedFullName {
            first: vec!["Amalie".to_string(), "Emmy".to_string()],
            last: vec!["Noether".to_string()],
            von: vec![],
            title: vec![],
        },
        OwnedFullName {
            first: vec!["Sophie".to_string()],
            last: vec!["Germain".to_string()],
            von: vec![],
            title: vec![],
        },
        OwnedFullName {
            first: vec!["Sofia".to_string()],
            last: vec!["Kovalevskaya".to_string()],
            von: vec![],
            title: vec![],
        },
        OwnedFullName {
            first: vec!["Dorothy".to_string()],
            last: vec!["Vaughn".to_string()],
            von: vec![],
            title: vec![],
        },
        OwnedFullName {
            first: vec!["Maryam".to_string()],
            last: vec!["Mirzakhani".to_string()],
            von: vec![],
            title: vec![],
        },
    ];
    let stylizer = ApaStylizer::<PlainTextFormatter>::default();
    let formated = stylizer.fmt_authors(authors);
    assert_eq!(
        formated,
        "Lovelace Augusta, A. M., Noether, A. E., Germain, S., Kovalevskaya, S., Vaughn, D., Mirzakhani, M., Lovelace Augusta, A. M., Noether, A. E., Germain, S., Kovalevskaya, S., Vaughn, D., Mirzakhani, M., Lovelace Augusta, A. M., Noether, A. E., Germain, S., Kovalevskaya, S., Vaughn, D., Mirzakhani, M., Lovelace Augusta, A. M.,...Mirzakhani, M."
    );
}

#[test]
fn apa_random_forests_formatted_citation() {
    let key = "breiman2001";
    let formatted_citation = "Breiman, L. (2001). Random forests. Machine learning, 45 (1), 5-32. https://doi.org/10.1023/a:1010933404324";
    let entries = Bibliography::from_contents(CITE_BIB).unwrap();
    let entry = entries.get_entry(key.to_string()).unwrap();
    let stylizer = ApaStylizer::<PlainTextFormatter>::default();
    let citation = stylizer.fmt_reference(entry);
    assert_eq!(citation, formatted_citation);
}

#[test]
fn apa_bacterial_formatted_citation() {
    let key = "10.1093/femsec/fiw174";
    let formatted_citation= "Liao, J., Cao, X., Zhao, L., Wang, J., Gao, Z., Wang, M. C., & Huang, Y. (2016). The importance of neutral and niche processes for bacterial community assembly differs between habitat generalists and specialists. FEMS Microbiology Ecology, 92 (11), https://doi.org/10.1093/femsec/fiw174";
    let entries = Bibliography::from_contents(CITE_BIB).unwrap();
    let entry = entries.get_entry(key.to_string()).unwrap();
    let stylizer = ApaStylizer::<PlainTextFormatter>::default();
    let citation = stylizer.fmt_reference(entry);
    assert_eq!(citation, formatted_citation);
}

#[test]
fn apa_article_formatted_citation() {
    let key = "article";
    let formatted_citation= "Cohen, P. J. (1963). The independence of the continuum hypothesis. Proceedings of the National Academy of Sciences, 50 (6), 1143-1148.";
    let entries = Bibliography::from_contents(CITE_BIB).unwrap();
    let entry = entries.get_entry(key.to_string()).unwrap();
    let stylizer = ApaStylizer::<PlainTextFormatter>::default();
    let citation = stylizer.fmt_reference(entry);
    assert_eq!(citation, formatted_citation);
}

#[test]
fn apa_book_formatted_citation() {
    let key = "book";
    let formatted_citation= "Susskind, L., & Hrabovsky, G. (2014). Classical mechanics: the theoretical minimum. Penguin Random House.";
    let entries = Bibliography::from_contents(CITE_BIB).unwrap();
    let entry = entries.get_entry(key.to_string()).unwrap();
    let stylizer = ApaStylizer::<PlainTextFormatter>::default();
    let citation = stylizer.fmt_reference(entry);
    assert_eq!(citation, formatted_citation);
}

#[test]
fn apa_booklet_formatted_citation() {
    let key = "booklet";
    let formatted_citation= "Swetla, M. Canoe tours in Sweden. Distributed at the Stockholm Tourist Office. 2015, July.";
    let entries = Bibliography::from_contents(CITE_BIB).unwrap();
    let entry = entries.get_entry(key.to_string()).unwrap();
    let stylizer = ApaStylizer::<PlainTextFormatter>::default();
    let citation = stylizer.fmt_reference(entry);
    assert_eq!(citation, formatted_citation);
}

#[test]
fn apa_inbook_formatted_citation() {
    let key = "inbook";
    let formatted_citation= "Urry, L. A., Cain, M. L., Wasserman, S. A., Minorsky, P. V., & Reece, J. B. (2016). Photosynthesis. In Campbell biology (pp. 187-221). Pearson.";
    let entries = Bibliography::from_contents(CITE_BIB).unwrap();
    let entry = entries.get_entry(key.to_string()).unwrap();
    let stylizer = ApaStylizer::<PlainTextFormatter>::default();
    let citation = stylizer.fmt_reference(entry);
    assert_eq!(citation, formatted_citation);
}

#[test]
fn apa_incollection_formatted_citation() {
    let key = "incollection";
    let formatted_citation= "Shapiro, H. M. (2018). Flow cytometry: The glass is half full. In T. S. Hawley & R. G. Hawley (Eds.), Flow cytometry protocols (pp. 1-10). Springer.";
    let entries = Bibliography::from_contents(CITE_BIB).unwrap();
    let entry = entries.get_entry(key.to_string()).unwrap();
    let stylizer = ApaStylizer::<PlainTextFormatter>::default();
    let citation = stylizer.fmt_reference(entry);
    assert_eq!(citation, formatted_citation);
}

#[test]
fn apa_inprocedings_formatted_citation() {
    let key = "inproceedings";
    let formatted_citation= "Holleis, P., Wagner, M., & Koolwaaij, J. (2010). Studying mobile context-aware social services in the wild. Proc. of the 6th Nordic Conf. on Human-Computer Interaction, 207-216.";
    let entries = Bibliography::from_contents(CITE_BIB).unwrap();
    let entry = entries.get_entry(key.to_string()).unwrap();
    let stylizer = ApaStylizer::<PlainTextFormatter>::default();
    let citation = stylizer.fmt_reference(entry);
    assert_eq!(citation, formatted_citation);
}

#[test]
fn apa_manual_formatted_citation() {
    let key = "manual";
    let formatted_citation= "R Core Team. (2018). R: A language and environment for statistical computing. R Foundation for Statistical Computing. Vienna, Austria.";
    let entries = Bibliography::from_contents(CITE_BIB).unwrap();
    let entry = entries.get_entry(key.to_string()).unwrap();
    let stylizer = ApaStylizer::<PlainTextFormatter>::default();
    let citation = stylizer.fmt_reference(entry);
    assert_eq!(citation, formatted_citation);
}

#[test]
fn apa_mastersthesis_formatted_citation() {
    let key = "mastersthesis";
    let formatted_citation= "Tang, J. (1996, September). Spin structure of the nucleon in the asymptotic limit [Master's thesis, Massachusetts Institute of Technology].";
    let entries = Bibliography::from_contents(CITE_BIB).unwrap();
    let entry = entries.get_entry(key.to_string()).unwrap();
    let stylizer = ApaStylizer::<PlainTextFormatter>::default();
    let citation = stylizer.fmt_reference(entry);
    assert_eq!(citation, formatted_citation);
}

#[test]
fn apa_misc_formatted_citation() {
    let key = "misc";
    let formatted_citation =
        "NASA. (2015). Pluto: The 'other' red planet [Accessed: 2018-12-06].";
    let entries = Bibliography::from_contents(CITE_BIB).unwrap();
    let entry = entries.get_entry(key.to_string()).unwrap();
    let stylizer = ApaStylizer::<PlainTextFormatter>::default();
    let citation = stylizer.fmt_reference(entry);
    assert_eq!(citation, formatted_citation);
}

#[test]
fn apa_phdthesis_formatted_citation() {
    let key = "phdthesis";
    let formatted_citation= "Rempel, R. C. (1956, June). Relaxation effects for coupled nuclear spins [Doctoral dissertation, Stanford University].";
    let entries = Bibliography::from_contents(CITE_BIB).unwrap();
    let entry = entries.get_entry(key.to_string()).unwrap();
    let stylizer = ApaStylizer::<PlainTextFormatter>::default();
    let citation = stylizer.fmt_reference(entry);
    assert_eq!(citation, formatted_citation);
}

#[test]
fn apa_proceedings_formatted_citation() {
    let key = "proceedings";
    let formatted_citation= "Stepney, S., & Verlan, S. (Eds.). (2018). Proceedings of the 17th international conference on computation and natural computation, fontainebleau, france (Vol. 10867). Springer.";
    let entries = Bibliography::from_contents(CITE_BIB).unwrap();
    let entry = entries.get_entry(key.to_string()).unwrap();
    let stylizer = ApaStylizer::<PlainTextFormatter>::default();
    let citation = stylizer.fmt_reference(entry);
    assert_eq!(citation, formatted_citation);
}

#[test]
fn apa_techreport_formatted_citation() {
    let key = "techreport";
    let formatted_citation= "Bennett, V., Bowman, K., & Wright, S. (2018, September). Wasatch Solar Project final report (tech. rep. No. DOE-SLC-6903-1). Salt Lake City Corporation. Salt Lake City, UT.";
    let entries = Bibliography::from_contents(CITE_BIB).unwrap();
    let entry = entries.get_entry(key.to_string()).unwrap();
    let stylizer = ApaStylizer::<PlainTextFormatter>::default();
    let citation = stylizer.fmt_reference(entry);
    assert_eq!(citation, formatted_citation);
}

#[test]
fn apa_unpublished_formatted_citation() {
    let key = "unpublished";
    let formatted_citation = "Suresh, M. (2006). Evolution: A revised theory.";
    let entries = Bibliography::from_contents(CITE_BIB).unwrap();
    let entry = entries.get_entry(key.to_string()).unwrap();
    let stylizer = ApaStylizer::<PlainTextFormatter>::default();
    let citation = stylizer.fmt_reference(entry);
    assert_eq!(citation, formatted_citation);
}

#[test]
fn apa_conference_formatted_citation() {
    let key = "conference";
    let formatted_citation= "Smith, J., & Doe, J. (2022). The Effects of Climate Change [Review of The Effects of Climate Change]. In B. Johnson (Ed.), Proceedings of the Annual Conference on Climate Change (pp. 55-62). Springer.";
    let entries = Bibliography::from_contents(CITE_BIB).unwrap();
    let entry = entries.get_entry(key.to_string()).unwrap();
    let stylizer = ApaStylizer::<PlainTextFormatter>::default();
    let citation = stylizer.fmt_reference(entry);
    assert_eq!(citation, formatted_citation);
}

#[test]
fn ieee_random_forests_formatted_citation() {
    let key = "breiman2001";
    let formatted_citation = "L. Breiman, \"Random forests,\" Machine learning, vol. 45, no. 1, pp. 5-32, 2001. doi: https://doi.org/10.1023/a:1010933404324.";
    let entries = Bibliography::from_contents(CITE_BIB).unwrap();
    let entry = entries.get_entry(key.to_string()).unwrap();
    let stylizer = IeeeStylizer::<PlainTextFormatter>::default();
    let citation = stylizer.fmt_reference(entry);
    assert_eq!(citation, formatted_citation);
}

#[test]
fn ieee_bacterial_formatted_citation() {
    let key = "10.1093/femsec/fiw174";
    let formatted_citation= "J. Liao, X. Cao, L. Zhao, et al., \"The importance of neutral and niche processes for bacterial community assembly differs between habitat generalists and specialists,\" FEMS Microbiology Ecology, vol. 92, no. 11, Aug. 2016, issn: 0168-6496. doi: https://doi.org/10.1093/femsec/fiw174. [Online]. Available: https://doi.org/10.1093/femsec/fiw174.";
    let entries = Bibliography::from_contents(CITE_BIB).unwrap();
    let entry = entries.get_entry(key.to_string()).unwrap();
    let stylizer = IeeeStylizer::<PlainTextFormatter>::default();
    let citation = stylizer.fmt_reference(entry);
    assert_eq!(citation, formatted_citation);
}

#[test]
fn ieee_article_formatted_citation() {
    let key = "article";
    let formatted_citation= "P. J. Cohen, \"The independence of the continuum hypothesis,\" Proceedings of the National Academy of Sciences, vol. 50, no. 6, pp. 1143-1148, 1963.";
    let entries = Bibliography::from_contents(CITE_BIB).unwrap();
    let entry = entries.get_entry(key.to_string()).unwrap();
    let stylizer = IeeeStylizer::<PlainTextFormatter>::default();
    let citation = stylizer.fmt_reference(entry);
    assert_eq!(citation, formatted_citation);
}

#[test]
fn ieee_book_formatted_citation() {
    let key = "book";
    let formatted_citation= "L. Susskind and G. Hrabovsky, Classical mechanics: the theoretical minimum. New York, NY: Penguin Random House, 2014.";
    let entries = Bibliography::from_contents(CITE_BIB).unwrap();
    let entry = entries.get_entry(key.to_string()).unwrap();
    let stylizer = IeeeStylizer::<PlainTextFormatter>::default();
    let citation = stylizer.fmt_reference(entry);
    assert_eq!(citation, formatted_citation);
}

#[test]
fn ieee_booklet_formatted_citation() {
    let key = "booklet";
    let formatted_citation= "M. Swetla, Canoe tours in Sweden, Distributed at the Stockholm Tourist Office, Jul. 2015.";
    let entries = Bibliography::from_contents(CITE_BIB).unwrap();
    let entry = entries.get_entry(key.to_string()).unwrap();
    let stylizer = IeeeStylizer::<PlainTextFormatter>::default();
    let citation = stylizer.fmt_reference(entry);
    assert_eq!(citation, formatted_citation);
}

#[test]
fn ieee_inbook_formatted_citation() {
    let key = "inbook";
    let formatted_citation= "L. A. Urry, M. L. Cain, S. A. Wasserman, P. V. Minorsky, and J. B. Reece, \"Photosynthesis,\" in Campbell biology. New York, NY: Pearson, 2016, pp. 187-221.";
    let entries = Bibliography::from_contents(CITE_BIB).unwrap();
    let entry = entries.get_entry(key.to_string()).unwrap();
    let stylizer = IeeeStylizer::<PlainTextFormatter>::default();
    let citation = stylizer.fmt_reference(entry);
    assert_eq!(citation, formatted_citation);
}

#[test]
fn ieee_incollection_formatted_citation() {
    let key = "incollection";
    let formatted_citation= "H. M. Shapiro, \"Flow cytometry: The glass is half full,\" in Flow cytometry protocols, T. S. Hawley and R. G. Hawley, Eds., New York, NY: Springer, 2018, pp. 1-10.";
    let entries = Bibliography::from_contents(CITE_BIB).unwrap();
    let entry = entries.get_entry(key.to_string()).unwrap();
    let stylizer = IeeeStylizer::<PlainTextFormatter>::default();
    let citation = stylizer.fmt_reference(entry);
    assert_eq!(citation, formatted_citation);
}

#[test]
fn ieee_inprocedings_formatted_citation() {
    let key = "inproceedings";
    let formatted_citation= "P. Holleis, M. Wagner, and J. Koolwaaij, \"Studying mobile context-aware social services in the wild,\" in Proc. of the 6th Nordic Conf. on Human-Computer Interaction, ser. NordiCHI, New York, NY: ACM, 2010, pp. 207-216.";
    let entries = Bibliography::from_contents(CITE_BIB).unwrap();
    let entry = entries.get_entry(key.to_string()).unwrap();
    let stylizer = IeeeStylizer::<PlainTextFormatter>::default();
    let citation = stylizer.fmt_reference(entry);
    assert_eq!(citation, formatted_citation);
}

#[test]
fn ieee_manual_formatted_citation() {
    let key = "manual";
    let formatted_citation= "R Core Team, R: A language and environment for statistical computing, R Foundation for Statistical Computing, Vienna, Austria, 2018.";
    let entries = Bibliography::from_contents(CITE_BIB).unwrap();
    let entry = entries.get_entry(key.to_string()).unwrap();
    let stylizer = IeeeStylizer::<PlainTextFormatter>::default();
    let citation = stylizer.fmt_reference(entry);
    assert_eq!(citation, formatted_citation);
}

#[test]
fn manual_formatted_citation_html() {
    let key = "manual";
    let formatted_citation= "R Core Team, <i>R: A language and environment for statistical computing</i>, R Foundation for Statistical Computing, Vienna, Austria, 2018.";
    let entries = Bibliography::from_contents(CITE_BIB).unwrap();
    let entry = entries.get_entry(key.to_string()).unwrap();
    let stylizer = IeeeStylizer::<HtmlFormatter>::default();
    let citation = stylizer.fmt_reference(entry);
    assert_eq!(citation, formatted_citation);
}

#[test]
fn ieee_mastersthesis_formatted_citation() {
    let key = "mastersthesis";
    let formatted_citation= "J. Tang, \"Spin structure of the nucleon in the asymptotic limit,\" M.S. thesis, Massachusetts Institute of Technology, Cambridge, MA, Sep. 1996.";
    let entries = Bibliography::from_contents(CITE_BIB).unwrap();
    let entry = entries.get_entry(key.to_string()).unwrap();
    let stylizer = IeeeStylizer::<PlainTextFormatter>::default();
    let citation = stylizer.fmt_reference(entry);
    assert_eq!(citation, formatted_citation);
}

#[test]
fn ieee_misc_formatted_citation() {
    let key = "misc";
    let formatted_citation= "NASA, Pluto: The 'other' red planet, https://www.nasa.gov/nh/pluto-the-other-red-planet, Accessed: 2018-12-06, 2015.";
    let entries = Bibliography::from_contents(CITE_BIB).unwrap();
    let entry = entries.get_entry(key.to_string()).unwrap();
    let stylizer = IeeeStylizer::<PlainTextFormatter>::default();
    let citation = stylizer.fmt_reference(entry);
    assert_eq!(citation, formatted_citation);
}

#[test]
fn ieee_phdthesis_formatted_citation() {
    let key = "phdthesis";
    let formatted_citation= "R. C. Rempel, \"Relaxation effects for coupled nuclear spins,\" Ph.D. dissertation, Stanford University, Stanford, CA, Jun. 1956.";
    let entries = Bibliography::from_contents(CITE_BIB).unwrap();
    let entry = entries.get_entry(key.to_string()).unwrap();
    let stylizer = IeeeStylizer::<PlainTextFormatter>::default();
    let citation = stylizer.fmt_reference(entry);
    assert_eq!(citation, formatted_citation);
}

#[test]
fn ieee_proceedings_formatted_citation() {
    let key = "proceedings";
    let formatted_citation= "S. Stepney and S. Verlan, Eds., Proceedings of the 17th international conference on computation and natural computation, fontainebleau, france, vol. 10867, Lecture Notes in Computer Science, Cham, Switzerland: Springer, 2018";
    let entries = Bibliography::from_contents(CITE_BIB).unwrap();
    let entry = entries.get_entry(key.to_string()).unwrap();
    let stylizer = IeeeStylizer::<PlainTextFormatter>::default();
    let citation = stylizer.fmt_reference(entry);
    assert_eq!(citation, formatted_citation);
}

#[test]
fn ieee_techreport_formatted_citation() {
    let key = "techreport";
    let formatted_citation= "V. Bennett, K. Bowman, and S. Wright, \"Wasatch Solar Project final report,\" Salt Lake City Corporation, Salt Lake City, UT, Tech. Rep. DOE-SLC-6903-1, Sep. 2018.";
    let entries = Bibliography::from_contents(CITE_BIB).unwrap();
    let entry = entries.get_entry(key.to_string()).unwrap();
    let stylizer = IeeeStylizer::<PlainTextFormatter>::default();
    let citation = stylizer.fmt_reference(entry);
    assert_eq!(citation, formatted_citation);
}

#[test]
fn ieee_conference_formatted_citation() {
    let key = "conference";
    let formatted_citation= "J. Smith and J. Doe, \"The Effects of Climate Change,\" in Proceedings of the Annual Conference on Climate Change, B. Johnson, Ed., Climate Change Association, Los Angeles, CA: Springer, Jun. 2022, pp. 55-62.";
    let entries = Bibliography::from_contents(CITE_BIB).unwrap();
    let entry = entries.get_entry(key.to_string()).unwrap();
    let stylizer = IeeeStylizer::<PlainTextFormatter>::default();
    let citation = stylizer.fmt_reference(entry);
    assert_eq!(citation, formatted_citation);
}

#[test]
fn ieee_unpublished_formatted_citation() {
    let key = "unpublished";
    let formatted_citation = "M. Suresh, \"Evolution: A revised theory,\" unpublished.";
    let entries = Bibliography::from_contents(CITE_BIB).unwrap();
    let entry = entries.get_entry(key.to_string()).unwrap();
    let stylizer = IeeeStylizer::<PlainTextFormatter>::default();
    let citation = stylizer.fmt_reference(entry);
    assert_eq!(citation, formatted_citation);
}

#[test]
fn ieee_single_author_fmt() {
    let author = OwnedFullName {
        first: vec!["Ada".to_string(), "Maria".to_string()],
        last: vec!["Lovelace".to_string(), "Augusta".to_string()],
        von: vec![],
        title: vec![],
    };
    let stylizer = IeeeStylizer::<PlainTextFormatter>::default();
    let formated = stylizer.fmt_authors(vec![author]);
    assert_eq!(formated, "A. M. Lovelace Augusta");
}

#[test]
fn ieee_dual_authors_fmt() {
    let authors = vec![
        OwnedFullName {
            first: vec!["Ada".to_string(), "Maria".to_string()],
            last: vec!["Lovelace".to_string(), "Augusta".to_string()],
            von: vec![],
            title: vec![],
        },
        OwnedFullName {
            first: vec!["Amalie".to_string(), "Emmy".to_string()],
            last: vec!["Noether".to_string()],
            von: vec![],
            title: vec![],
        },
    ];
    let stylizer = IeeeStylizer::<PlainTextFormatter>::default();
    let formated = stylizer.fmt_authors(authors);
    assert_eq!(formated, "A. M. Lovelace Augusta and A. E. Noether");
}

#[test]
fn ieee_triple_authors_fmt() {
    let authors = vec![
        OwnedFullName {
            first: vec!["Ada".to_string(), "Maria".to_string()],
            last: vec!["Lovelace".to_string(), "Augusta".to_string()],
            von: vec![],
            title: vec![],
        },
        OwnedFullName {
            first: vec!["Amalie".to_string(), "Emmy".to_string()],
            last: vec!["Noether".to_string()],
            von: vec![],
            title: vec![],
        },
        OwnedFullName {
            first: vec!["Sophie".to_string()],
            last: vec!["Germain".to_string()],
            von: vec![],
            title: vec![],
        },
    ];
    let stylizer = IeeeStylizer::<PlainTextFormatter>::default();
    let formated = stylizer.fmt_authors(authors);
    assert_eq!(
        formated,
        "A. M. Lovelace Augusta, A. E. Noether, and S. Germain"
    );
}

#[test]
fn six_authors_fmt() {
    let authors = vec![
        OwnedFullName {
            first: vec!["Ada".to_string(), "Maria".to_string()],
            last: vec!["Lovelace".to_string(), "Augusta".to_string()],
            von: vec![],
            title: vec![],
        },
        OwnedFullName {
            first: vec!["Amalie".to_string(), "Emmy".to_string()],
            last: vec!["Noether".to_string()],
            von: vec![],
            title: vec![],
        },
        OwnedFullName {
            first: vec!["Sophie".to_string()],
            last: vec!["Germain".to_string()],
            von: vec![],
            title: vec![],
        },
        OwnedFullName {
            first: vec!["Sofia".to_string()],
            last: vec!["Kovalevskaya".to_string()],
            von: vec![],
            title: vec![],
        },
        OwnedFullName {
            first: vec!["Dorothy".to_string()],
            last: vec!["Vaughn".to_string()],
            von: vec![],
            title: vec![],
        },
        OwnedFullName {
            first: vec!["Maryam".to_string()],
            last: vec!["Mirzakhani".to_string()],
            von: vec![],
            title: vec![],
        },
    ];
    let stylizer = IeeeStylizer::<PlainTextFormatter>::default();
    let formated = stylizer.fmt_authors(authors);
    assert_eq!(
        formated,
        "A. M. Lovelace Augusta, A. E. Noether, S. Germain, S. Kovalevskaya, D. Vaughn, and M. Mirzakhani"
    );
}

#[test]
fn seven_plus_authors_fmt() {
    let authors = vec![
        OwnedFullName {
            first: vec!["Ada".to_string(), "Maria".to_string()],
            last: vec!["Lovelace".to_string(), "Augusta".to_string()],
            von: vec![],
            title: vec![],
        },
        OwnedFullName {
            first: vec!["Amalie".to_string(), "Emmy".to_string()],
            last: vec!["Noether".to_string()],
            von: vec![],
            title: vec![],
        },
        OwnedFullName {
            first: vec!["Sophie".to_string()],
            last: vec!["Germain".to_string()],
            von: vec![],
            title: vec![],
        },
        OwnedFullName {
            first: vec!["Sofia".to_string()],
            last: vec!["Kovalevskaya".to_string()],
            von: vec![],
            title: vec![],
        },
        OwnedFullName {
            first: vec!["Dorothy".to_string()],
            last: vec!["Vaughn".to_string()],
            von: vec![],
            title: vec![],
        },
        OwnedFullName {
            first: vec!["Maryam".to_string()],
            last: vec!["Mirzakhani".to_string()],
            von: vec![],
            title: vec![],
        },
        OwnedFullName {
            first: vec!["Mae".to_string(), "Carol".to_string()],
            last: vec!["Jemison".to_string()],
            von: vec![],
            title: vec![],
        },
        OwnedFullName {
            first: vec!["Julia".to_string()],
            last: vec!["Robinson".to_string()],
            von: vec![],
            title: vec![],
        },
        OwnedFullName {
            first: vec!["Katherine".to_string()],
            last: vec!["Johnson".to_string()],
            von: vec![],
            title: vec![],
        },
    ];
    let stylizer = IeeeStylizer::<PlainTextFormatter>::default();
    let formated = stylizer.fmt_authors(authors);
    assert_eq!(
        formated,
        "A. M. Lovelace Augusta, A. E. Noether, S. Germain, et al."
    );
}
