//! The APA style: `Last, F. M., & Last, F. (year, Month). Title. ...`.

use super::dates::{check_year_month, fmt_month, month_text, year_month_ok};
use super::{
    check_names_range, each_name, editor_names, editors, field, field_or_empty, fmt_names, initials_then_last, join,
    join_words, last_then_initials, lemma_prefix_extend, lemma_prefix_of_add, lemma_suffix_extend, lemma_suffix_of_add,
    lookup, names_ok, opt_view, required, thesis_entry, value_or_empty, Stylizer, ThesisKind,
};
use crate::formaters::Formatter;
use crate::parsing::entry::{names_parts, EntryType};
use crate::parsing::fields::BibFields;
use crate::parsing::names::{string_views, NameParts, OwnedFullName};
use vstd::prelude::*;
use vstd::string::StringExecFns;

verus! {

/// The APA style, with the markup of `T`.
#[derive(Default)]
pub struct ApaStylizer<T: Formatter> {
    fmt: T,
}

impl<T: Formatter> ApaStylizer<T> {
    /// The APA style with the markup of `fmt`.
    pub fn new(fmt: T) -> (r: Self)
        ensures
            r.markup() == fmt,
    {
        ApaStylizer { fmt }
    }

    /// The markup that the style writes with.
    pub closed spec fn markup(self) -> T {
        self.fmt
    }
}

/// The names that the APA style writes out of a list: all of up to 21, else
/// the first 19 and the last.
pub open spec fn apa_written(a: Seq<NameParts>) -> Seq<NameParts> {
    if a.len() <= 21 {
        a
    } else {
        a.take(19).push(a.last())
    }
}

/// Whether the editors can be read and those the APA style writes out have
/// initials.
pub open spec fn apa_editors_ok(f: Map<Seq<char>, Seq<char>>) -> bool {
    editors(f) matches Some(ns) && names_ok(apa_written(ns))
}

/// APA authors: up to 21 names in full, the last after `, & `; from 22 on,
/// the first 19, then `,...` and the last.
pub open spec fn apa_authors(a: Seq<NameParts>) -> Seq<char> {
    let n = a.len();
    if n == 0 {
        Seq::empty()
    } else if n == 1 {
        last_then_initials(a[0])
    } else if n <= 21 {
        join(each_name(a.take(n - 1), true), ", "@) + ", & "@ + last_then_initials(a[n - 1])
    } else {
        join(each_name(a.take(19), true), ", "@) + ",..."@ + last_then_initials(a[n - 1])
    }
}

/// APA editors: `F. Last & F. Last`; from three on the names before the last
/// are written `Last, F.` and separated by spaces only.
pub open spec fn apa_editors(a: Seq<NameParts>) -> Seq<char> {
    let n = a.len();
    if n == 0 {
        Seq::empty()
    } else if n == 1 {
        initials_then_last(a[0])
    } else if n == 2 {
        initials_then_last(a[0]) + " & "@ + initials_then_last(a[1])
    } else if n <= 21 {
        join(each_name(a.take(n - 1), true), " "@) + " & "@ + initials_then_last(a[n - 1])
    } else {
        join(each_name(a.take(19), true), " "@) + ",..."@ + initials_then_last(a[n - 1])
    }
}

/// The APA date: `n.d.` without a year, the year alone, or `year, Month`.
pub open spec fn apa_year_month(year: Option<Seq<char>>, month: Option<Seq<char>>) -> Seq<char> {
    match (year, month) {
        (Some(y), Some(m)) => y + ", "@ + month_text(m, true),
        (Some(y), None) => y,
        (None, _) => "n.d."@,
    }
}

/// The date of an entry's fields.
pub open spec fn apa_date(f: Map<Seq<char>, Seq<char>>) -> Seq<char> {
    apa_year_month(field(f, "year"@), field(f, "month"@))
}

/// Authors and date, as most kinds of entry start: `Authors (date). `.
pub open spec fn apa_head(a: Seq<NameParts>, f: Map<Seq<char>, Seq<char>>) -> Seq<char> {
    apa_authors(a) + " ("@ + apa_date(f) + "). "@
}

/// Whether `f` has the fields that the APA style cannot do without for an
/// entry of kind `kind`.
pub open spec fn apa_has_required(kind: EntryType, f: Map<Seq<char>, Seq<char>>) -> bool {
    let has = |k: Seq<char>| f.contains_key(k);
    match kind {
        EntryType::Unpublished => has("title"@),
        EntryType::Techreport => has("title"@) && has("number"@) && has("institution"@) && has("address"@),
        EntryType::Proceedings => has("title"@) && has("editor"@) && has("volume"@) && has("publisher"@),
        EntryType::Phdthesis => has("title"@) && has("school"@),
        EntryType::Mastersthesis => has("title"@) && has("school"@),
        EntryType::Misc => has("title"@),
        EntryType::Manual => has("title"@) && has("organization"@) && has("address"@),
        EntryType::Inproceedings => has("title"@) && has("booktitle"@) && has("pages"@),
        EntryType::Incollection => has("title"@) && has("booktitle"@) && has("pages"@) && has("editor"@) && has(
            "publisher"@,
        ),
        EntryType::Inbook => has("title"@) && has("booktitle"@) && has("publisher"@) && has("pages"@),
        EntryType::Conference => has("publisher"@) && has("year"@) && has("booktitle"@) && has("pages"@) && has(
            "title"@,
        ) && has("editor"@),
        EntryType::Booklet => has("title"@) && has("howpublished"@),
        EntryType::Book => has("title"@) && has("publisher"@),
        EntryType::Article => has("title"@),
    }
}

/// Whether the APA style can write an entry: its required fields are there,
/// its authors (editors, where it reads them) have initials, and its date can
/// be printed where it prints one.
pub open spec fn apa_can_format(kind: EntryType, a: Seq<NameParts>, f: Map<Seq<char>, Seq<char>>) -> bool {
    &&& apa_has_required(kind, f)
    &&& (kind != EntryType::Proceedings ==> names_ok(apa_written(a)))
    &&& (kind == EntryType::Proceedings || kind == EntryType::Incollection || kind == EntryType::Conference
        ==> apa_editors_ok(f))
    &&& (kind != EntryType::Conference && kind != EntryType::Article ==> year_month_ok(
        field(f, "year"@),
        field(f, "month"@),
    ))
}

/// The APA reference of an entry, with the markup of `T`.
pub open spec fn apa_reference<T: Formatter>(kind: EntryType, a: Seq<NameParts>, f: Map<Seq<char>, Seq<char>>) -> Seq<char> {
    let title = f["title"@];
    match kind {
        EntryType::Unpublished => apa_head(a, f) + T::italics_spec(title) + "."@,
        EntryType::Techreport => apa_head(a, f) + T::italics_spec(title) + " (tech. rep. No. "@ + f["number"@]
            + "). "@ + f["institution"@] + ". "@ + f["address"@] + "."@,
        EntryType::Proceedings => apa_authors(editors(f).unwrap()) + " (Eds.). ("@ + apa_date(f) + "). "@
            + T::italics_spec(title) + " (Vol. "@ + f["volume"@] + "). "@ + f["publisher"@] + "."@,
        EntryType::Phdthesis => apa_head(a, f) + title + " [Doctoral dissertation, "@ + f["school"@] + "]."@,
        EntryType::Mastersthesis => apa_head(a, f) + title + " [Master's thesis, "@ + f["school"@] + "]."@,
        EntryType::Misc => apa_authors(a) + ". ("@ + apa_date(f) + "). "@ + title + (match field(f, "note"@) {
            Some(n) => " ["@ + n + "]"@,
            None => Seq::empty(),
        }) + "."@,
        EntryType::Manual => apa_authors(a) + ". ("@ + apa_date(f) + "). "@ + title + ". "@ + f["organization"@]
            + ". "@ + f["address"@] + "."@,
        EntryType::Inproceedings => apa_head(a, f) + title + ". "@ + f["booktitle"@] + ", "@ + f["pages"@] + "."@,
        EntryType::Incollection => apa_head(a, f) + title + ". In "@ + apa_editors(editors(f).unwrap()) + " (Eds.), "@
            + f["booktitle"@] + " (pp. "@ + f["pages"@] + "). "@ + f["publisher"@] + "."@,
        EntryType::Inbook => apa_head(a, f) + title + ". In "@ + f["booktitle"@] + " (pp. "@ + f["pages"@] + "). "@
            + f["publisher"@] + "."@,
        EntryType::Conference => apa_authors(a) + " ("@ + f["year"@] + "). "@ + title + " [Review of "@ + title
            + "]. In "@ + apa_editors(editors(f).unwrap()) + " (Ed.), "@ + f["booktitle"@] + " (pp. "@ + f["pages"@]
            + "). "@ + f["publisher"@] + "."@,
        EntryType::Booklet => apa_authors(a) + " "@ + title + ". "@ + f["howpublished"@] + ". "@ + apa_date(f) + "."@,
        EntryType::Book => apa_head(a, f) + T::italics_spec(title) + ". "@ + f["publisher"@] + "."@,
        EntryType::Article => apa_authors(a) + " "@ + pub_date(field(f, "year"@)) + " "@ + (title + "."@) + " "@
            + T::italics_spec(field_or_empty(f, "journal"@) + ", "@ + field_or_empty(f, "volume"@)) + " ("@
            + field_or_empty(f, "number"@) + "),"@ + " "@ + article_links::<T>(f),
    }
}

/// The year of publication in parentheses with a full stop.
pub open spec fn pub_date(year: Option<Seq<char>>) -> Seq<char> {
    "("@ + (match year {
        Some(y) => y,
        None => "n.d."@,
    }) + ")."@
}

/// The pages of an article and the link of its DOI, as far as it has them.
pub open spec fn article_links<T: Formatter>(f: Map<Seq<char>, Seq<char>>) -> Seq<char> {
    (match field(f, "pages"@) {
        Some(p) => p + "."@,
        None => Seq::empty(),
    }) + (match field(f, "doi"@) {
        Some(d) => (if f.contains_key("pages"@) { " "@ } else { Seq::empty() }) + T::hyperlink_spec(d),
        None => Seq::empty(),
    })
}

/// Pages followed by a full stop.
pub fn fmt_pages(pages: &String) -> (r: String)
    ensures
        r@ == pages@ + "."@,
{
    let mut out = pages.clone();
    out.append(".");
    out
}

/// The journal as it is written: unchanged.
pub fn fmt_journal(journal: String) -> (r: String)
    ensures
        r@ == journal@,
{
    journal
}

/// The year in parentheses with a full stop, `(n.d.).` without one.
pub fn fmt_pub_date(year: Option<String>) -> (r: String)
    ensures
        r@ == pub_date(match year {
            Some(y) => Some(y@),
            None => None,
        }),
{
    let mut out = String::from_str("(");
    match year {
        Some(y) => out.append(y.as_str()),
        None => out.append("n.d."),
    }
    out.append(").");
    out
}

/// A title followed by a full stop.
pub fn fmt_title(title: String) -> (r: String)
    ensures
        r@ == title@ + "."@,
{
    let mut out = title;
    out.append(".");
    out
}

/// The editors in APA's way.
fn fmt_editors(names: Vec<OwnedFullName>) -> (r: String)
    requires
        names_ok(apa_written(names_parts(names@))),
    ensures
        r@ == apa_editors(names_parts(names@)),
{
    let n = names.len();
    let ghost ps = names_parts(names@);
    proof {
        if n > 0 {
            lemma_apa_written(ps);
        }
    }
    if n == 0 {
        String::new()
    } else if n == 1 {
        assert(super::has_initials(ps[0]));
        super::fmt_initials_then_last(&names[0])
    } else if n == 2 {
        assert(super::has_initials(ps[0]));
        assert(super::has_initials(ps[1]));
        let mut out = super::fmt_initials_then_last(&names[0]);
        out.append(" & ");
        let second = super::fmt_initials_then_last(&names[1]);
        out.append(second.as_str());
        out
    } else {
        let listed = if n <= 21 { n - 1 } else { 19 };
        let firsts = fmt_names(&names, 0, listed, true);
        let mut out = join_words(&firsts, " ");
        if n <= 21 {
            out.append(" & ");
        } else {
            out.append(",...");
        }
        assert(super::has_initials(ps[n - 1]));
        let last = super::fmt_initials_then_last(&names[n - 1]);
        out.append(last.as_str());
        proof {
            assert(ps.subrange(0, listed as int) =~= ps.take(listed as int));
        }
        out
    }
}

impl<T: Formatter> ApaStylizer<T> {
    /// The pages of an article and the link of its DOI.
    fn links(&self, fields: &BibFields) -> (r: String)
        ensures
            r@ == article_links::<T>(fields@),
    {
        let pages = lookup(fields, "pages");
        let mut out = String::new();
        match pages {
            Some(p) => out.append(fmt_pages(p).as_str()),
            None => {},
        }
        match lookup(fields, "doi") {
            Some(d) => {
                if pages.is_some() {
                    out.append(" ");
                }
                let mut link = d.clone();
                self.fmt.hyperlink(&mut link);
                out.append(link.as_str());
            },
            None => {},
        }
        assert(out@ =~= article_links::<T>(fields@));
        out
    }

    /// `Authors (date). `
    fn head(&self, authors: Vec<OwnedFullName>, fields: &BibFields) -> (r: String)
        requires
            names_ok(apa_written(names_parts(authors@))),
            year_month_ok(field(fields@, "year"@), field(fields@, "month"@)),
        ensures
            r@ == apa_head(names_parts(authors@), fields@),
    {
        let mut out = apa_fmt_authors(authors);
        out.append(" (");
        let date = apa_fmt_year_month(lookup(fields, "year"), lookup(fields, "month"));
        out.append(date.as_str());
        out.append("). ");
        out
    }
}

impl<T: Formatter> Stylizer for ApaStylizer<T> {
    open spec fn can_format(kind: EntryType, authors: Seq<NameParts>, fields: Map<Seq<char>, Seq<char>>) -> bool {
        apa_can_format(kind, authors, fields)
    }

    open spec fn reference(kind: EntryType, authors: Seq<NameParts>, fields: Map<Seq<char>, Seq<char>>) -> Seq<char> {
        apa_reference::<T>(kind, authors, fields)
    }

    open spec fn authors_text(authors: Seq<NameParts>) -> Seq<char> {
        apa_authors(authors)
    }

    open spec fn authors_ok(authors: Seq<NameParts>) -> bool {
        names_ok(apa_written(authors))
    }

    open spec fn year_month_text(year: Option<Seq<char>>, month: Option<Seq<char>>) -> Seq<char> {
        apa_year_month(year, month)
    }

    proof fn lemma_proceedings_authors(authors: Seq<NameParts>, fields: Map<Seq<char>, Seq<char>>) {
    }

    fn fmt_unpublished(&self, authors: Vec<OwnedFullName>, fields: BibFields) -> (r: String) {
        let ghost a = names_parts(authors@);
        let mut title = required(&fields, "title").clone();
        let mut out = self.head(authors, &fields);
        self.fmt.italics(&mut title);
        out.append(title.as_str());
        out.append(".");
        proof {
            assert(out@ == apa_reference::<T>(EntryType::Unpublished, a, fields@));
            assert(out@ == Self::reference(EntryType::Unpublished, a, fields@));
        }
        out
    }

    fn fmt_techreport(&self, authors: Vec<OwnedFullName>, fields: BibFields) -> (r: String) {
        let ghost a = names_parts(authors@);
        let mut title = required(&fields, "title").clone();
        self.fmt.italics(&mut title);
        let mut out = self.head(authors, &fields);
        out.append(title.as_str());
        out.append(" (tech. rep. No. ");
        out.append(required(&fields, "number").as_str());
        out.append("). ");
        out.append(required(&fields, "institution").as_str());
        out.append(". ");
        out.append(required(&fields, "address").as_str());
        out.append(".");
        proof {
            assert(out@ == apa_reference::<T>(EntryType::Techreport, a, fields@));
            assert(out@ == Self::reference(EntryType::Techreport, a, fields@));
        }
        out
    }

    fn fmt_proceedings(&self, fields: BibFields) -> (r: String) {
        let mut title = required(&fields, "title").clone();
        self.fmt.italics(&mut title);
        let eds = editor_names(&fields).unwrap();
        let mut out = apa_fmt_authors(eds);
        out.append(" (Eds.). (");
        let date = apa_fmt_year_month(lookup(&fields, "year"), lookup(&fields, "month"));
        out.append(date.as_str());
        out.append("). ");
        out.append(title.as_str());
        out.append(" (Vol. ");
        out.append(required(&fields, "volume").as_str());
        out.append("). ");
        out.append(required(&fields, "publisher").as_str());
        out.append(".");
        proof {
            assert(out@ == apa_reference::<T>(EntryType::Proceedings, Seq::empty(), fields@));
            assert(out@ == Self::reference(EntryType::Proceedings, Seq::empty(), fields@));
        }
        out
    }

    fn fmt_thesis(&self, kind: ThesisKind, authors: Vec<OwnedFullName>, fields: BibFields) -> (r: String) {
        let ghost a = names_parts(authors@);
        let mut out = self.head(authors, &fields);
        out.append(required(&fields, "title").as_str());
        match kind {
            ThesisKind::Phd => out.append(" [Doctoral dissertation, "),
            ThesisKind::Msc => out.append(" [Master's thesis, "),
        }
        out.append(required(&fields, "school").as_str());
        out.append("].");
        proof {
            assert(out@ == apa_reference::<T>(thesis_entry(kind), a, fields@));
            assert(out@ == Self::reference(thesis_entry(kind), a, fields@));
        }
        out
    }

    fn fmt_misc(&self, authors: Vec<OwnedFullName>, fields: BibFields) -> (r: String) {
        let ghost a = names_parts(authors@);
        let mut out = apa_fmt_authors(authors);
        out.append(". (");
        let date = apa_fmt_year_month(lookup(&fields, "year"), lookup(&fields, "month"));
        out.append(date.as_str());
        out.append("). ");
        out.append(required(&fields, "title").as_str());
        match lookup(&fields, "note") {
            Some(n) => {
                out.append(" [");
                out.append(n.as_str());
                out.append("]");
            },
            None => {},
        }
        out.append(".");
        proof {
            assert(out@ == apa_reference::<T>(EntryType::Misc, a, fields@));
            assert(out@ == Self::reference(EntryType::Misc, a, fields@));
        }
        out
    }

    fn fmt_manual(&self, authors: Vec<OwnedFullName>, fields: BibFields) -> (r: String) {
        let ghost a = names_parts(authors@);
        let mut out = apa_fmt_authors(authors);
        out.append(". (");
        let date = apa_fmt_year_month(lookup(&fields, "year"), lookup(&fields, "month"));
        out.append(date.as_str());
        out.append("). ");
        out.append(required(&fields, "title").as_str());
        out.append(". ");
        out.append(required(&fields, "organization").as_str());
        out.append(". ");
        out.append(required(&fields, "address").as_str());
        out.append(".");
        proof {
            assert(out@ == apa_reference::<T>(EntryType::Manual, a, fields@));
            assert(out@ == Self::reference(EntryType::Manual, a, fields@));
        }
        out
    }

    fn fmt_inproceedings(&self, authors: Vec<OwnedFullName>, fields: BibFields) -> (r: String) {
        let ghost a = names_parts(authors@);
        let mut out = self.head(authors, &fields);
        out.append(required(&fields, "title").as_str());
        out.append(". ");
        out.append(required(&fields, "booktitle").as_str());
        out.append(", ");
        out.append(required(&fields, "pages").as_str());
        out.append(".");
        proof {
            assert(out@ == apa_reference::<T>(EntryType::Inproceedings, a, fields@));
            assert(out@ == Self::reference(EntryType::Inproceedings, a, fields@));
        }
        out
    }

    fn fmt_incollection(&self, authors: Vec<OwnedFullName>, fields: BibFields) -> (r: String) {
        let ghost a = names_parts(authors@);
        let eds = editor_names(&fields).unwrap();
        let mut out = self.head(authors, &fields);
        out.append(required(&fields, "title").as_str());
        out.append(". In ");
        let ed_text = fmt_editors(eds);
        out.append(ed_text.as_str());
        out.append(" (Eds.), ");
        out.append(required(&fields, "booktitle").as_str());
        out.append(" (pp. ");
        out.append(required(&fields, "pages").as_str());
        out.append("). ");
        out.append(required(&fields, "publisher").as_str());
        out.append(".");
        proof {
            assert(out@ == apa_reference::<T>(EntryType::Incollection, a, fields@));
            assert(out@ == Self::reference(EntryType::Incollection, a, fields@));
        }
        out
    }

    fn fmt_inbook(&self, authors: Vec<OwnedFullName>, fields: BibFields) -> (r: String) {
        let ghost a = names_parts(authors@);
        let mut out = self.head(authors, &fields);
        out.append(required(&fields, "title").as_str());
        out.append(". In ");
        out.append(required(&fields, "booktitle").as_str());
        out.append(" (pp. ");
        out.append(required(&fields, "pages").as_str());
        out.append("). ");
        out.append(required(&fields, "publisher").as_str());
        out.append(".");
        proof {
            assert(out@ == apa_reference::<T>(EntryType::Inbook, a, fields@));
            assert(out@ == Self::reference(EntryType::Inbook, a, fields@));
        }
        out
    }

    fn fmt_conference(&self, authors: Vec<OwnedFullName>, fields: BibFields) -> (r: String) {
        let ghost a = names_parts(authors@);
        let eds = editor_names(&fields).unwrap();
        let title = required(&fields, "title");
        let mut out = apa_fmt_authors(authors);
        out.append(" (");
        out.append(required(&fields, "year").as_str());
        out.append("). ");
        out.append(title.as_str());
        out.append(" [Review of ");
        out.append(title.as_str());
        out.append("]. In ");
        let ed_text = fmt_editors(eds);
        out.append(ed_text.as_str());
        out.append(" (Ed.), ");
        out.append(required(&fields, "booktitle").as_str());
        out.append(" (pp. ");
        out.append(required(&fields, "pages").as_str());
        out.append("). ");
        out.append(required(&fields, "publisher").as_str());
        out.append(".");
        proof {
            assert(out@ == apa_reference::<T>(EntryType::Conference, a, fields@));
            assert(out@ == Self::reference(EntryType::Conference, a, fields@));
        }
        out
    }

    fn fmt_booklet(&self, authors: Vec<OwnedFullName>, fields: BibFields) -> (r: String) {
        let ghost a = names_parts(authors@);
        let mut out = apa_fmt_authors(authors);
        out.append(" ");
        out.append(required(&fields, "title").as_str());
        out.append(". ");
        out.append(required(&fields, "howpublished").as_str());
        out.append(". ");
        let date = apa_fmt_year_month(lookup(&fields, "year"), lookup(&fields, "month"));
        out.append(date.as_str());
        out.append(".");
        proof {
            assert(out@ == apa_reference::<T>(EntryType::Booklet, a, fields@));
            assert(out@ == Self::reference(EntryType::Booklet, a, fields@));
        }
        out
    }

    fn fmt_book(&self, authors: Vec<OwnedFullName>, fields: BibFields) -> (r: String) {
        let ghost a = names_parts(authors@);
        let mut title = required(&fields, "title").clone();
        self.fmt.italics(&mut title);
        let mut out = self.head(authors, &fields);
        out.append(title.as_str());
        out.append(". ");
        out.append(required(&fields, "publisher").as_str());
        out.append(".");
        proof {
            assert(out@ == apa_reference::<T>(EntryType::Book, a, fields@));
            assert(out@ == Self::reference(EntryType::Book, a, fields@));
        }
        out
    }

    fn fmt_article(&self, authors: Vec<OwnedFullName>, fields: BibFields) -> (r: String) {
        let ghost a = names_parts(authors@);
        let title = required(&fields, "title").clone();
        let mut journal = value_or_empty(&fields, "journal");
        journal.append(", ");
        let volume = value_or_empty(&fields, "volume");
        journal.append(volume.as_str());
        self.fmt.italics(&mut journal);
        let number = value_or_empty(&fields, "number");
        let year = match lookup(&fields, "year") {
            Some(y) => Some(y.clone()),
            None => None,
        };
        let mut out = apa_fmt_authors(authors);
        out.append(" ");
        out.append(fmt_pub_date(year).as_str());
        out.append(" ");
        out.append(fmt_title(title).as_str());
        out.append(" ");
        out.append(fmt_journal(journal).as_str());
        out.append(" (");
        out.append(number.as_str());
        out.append("),");
        out.append(" ");
        let links = self.links(&fields);
        out.append(links.as_str());
        proof {
            assert(out@ == apa_reference::<T>(EntryType::Article, a, fields@));
            assert(out@ == Self::reference(EntryType::Article, a, fields@));
        }
        out
    }

    fn fmt_year_month(&self, year: Option<&String>, month: Option<&String>) -> (r: String) {
        let r = apa_fmt_year_month(year, month);
        assert(r@ == Self::year_month_text(opt_view(year), opt_view(month)));
        r
    }

    fn fmt_authors(&self, authors: Vec<OwnedFullName>) -> (r: String) {
        let ghost a = names_parts(authors@);
        let r = apa_fmt_authors(authors);
        assert(r@ == Self::authors_text(a));
        r
    }
}

/// The date in APA's way.
fn apa_fmt_year_month(year: Option<&String>, month: Option<&String>) -> (r: String)
    requires
        year_month_ok(opt_view(year), opt_view(month)),
    ensures
        r@ == apa_year_month(opt_view(year), opt_view(month)),
{
    match (year, month) {
        (Some(y), Some(m)) => {
            let mut out = y.clone();
            out.append(", ");
            let month_words = fmt_month(y.as_str(), m.as_str(), true);
            out.append(month_words.as_str());
            out
        },
        (Some(y), None) => y.clone(),
        (None, _) => String::from_str("n.d."),
    }
}

/// The authors in APA's way.
fn apa_fmt_authors(authors: Vec<OwnedFullName>) -> (r: String)
    requires
        names_ok(apa_written(names_parts(authors@))),
    ensures
        r@ == apa_authors(names_parts(authors@)),
{
    let n = authors.len();
    let ghost ps = names_parts(authors@);
    proof {
        if n > 0 {
            lemma_apa_written(ps);
        }
    }
    if n == 0 {
        String::new()
    } else if n == 1 {
        assert(super::has_initials(ps[0]));
        super::fmt_last_then_initials(&authors[0])
    } else {
        let listed = if n <= 21 { n - 1 } else { 19 };
        let firsts = fmt_names(&authors, 0, listed, true);
        let mut out = join_words(&firsts, ", ");
        if n <= 21 {
            out.append(", & ");
        } else {
            out.append(",...");
        }
        assert(super::has_initials(ps[n - 1]));
        let last = super::fmt_last_then_initials(&authors[n - 1]);
        out.append(last.as_str());
        proof {
            assert(ps.subrange(0, listed as int) =~= ps.take(listed as int));
        }
        out
    }
}

/// The names that the APA style writes out have initials exactly when those
/// it lists before the last one and the last one have.
proof fn lemma_apa_written(ps: Seq<NameParts>)
    requires
        ps.len() > 0,
    ensures
        names_ok(apa_written(ps)) == (names_ok(ps.subrange(0, if ps.len() <= 21 { ps.len() - 1 } else { 19 }))
            && super::has_initials(ps.last())),
        names_ok(apa_written(ps)) ==> super::has_initials(ps[0]),
        ps.len() > 1 && ps.len() <= 21 && names_ok(apa_written(ps)) ==> super::has_initials(ps[1]),
{
    let n = ps.len() as int;
    let m = if n <= 21 { n - 1 } else { 19 };
    let w = apa_written(ps);
    if names_ok(w) {
        assert forall|i: int| 0 <= i < m implies super::has_initials(#[trigger] ps.subrange(0, m)[i]) by {
            assert(w[i] == ps[i]);
        }
        assert(w[w.len() - 1] == ps.last());
        assert(w[0] == ps[0]);
        if n > 1 && n <= 21 {
            assert(w[1] == ps[1]);
        }
    }
    if names_ok(ps.subrange(0, m)) && super::has_initials(ps.last()) {
        assert forall|i: int| 0 <= i < w.len() implies super::has_initials(#[trigger] w[i]) by {
            if i < m {
                assert(w[i] == ps.subrange(0, m)[i]);
            } else {
                assert(w[i] == ps.last());
            }
        }
    }
}

/// Whether the names that the APA style writes out of a list have initials.
fn apa_check_names(names: &Vec<OwnedFullName>) -> (b: bool)
    ensures
        b == names_ok(apa_written(names_parts(names@))),
{
    let n = names.len();
    if n == 0 {
        assert(apa_written(names_parts(names@)) =~= Seq::<NameParts>::empty());
        return true;
    }
    proof {
        lemma_apa_written(names_parts(names@));
    }
    let listed = if n <= 21 { n - 1 } else { 19 };
    let before = check_names_range(names, 0, listed);
    let last = check_names_range(names, n - 1, n);
    proof {
        let ps = names_parts(names@);
        assert(ps.subrange(n - 1, n as int)[0] == ps.last());
        if super::has_initials(ps.last()) {
            assert forall|i: int| 0 <= i < 1 implies super::has_initials(#[trigger] ps.subrange(n - 1, n as int)[i]) by {
                assert(ps.subrange(n - 1, n as int)[i] == ps.last());
            }
        }
    }
    before && last
}

/// Whether the APA style can write an entry of kind `kind` with these authors
/// and fields.
pub fn apa_check(kind: EntryType, authors: &Vec<OwnedFullName>, fields: &BibFields) -> (b: bool)
    ensures
        b == apa_can_format(kind, names_parts(authors@), fields@),
{
    let has = match kind {
        EntryType::Unpublished => fields.contains_key("title"),
        EntryType::Techreport => fields.contains_key("title") && fields.contains_key("number") && fields.contains_key(
            "institution",
        ) && fields.contains_key("address"),
        EntryType::Proceedings => fields.contains_key("title") && fields.contains_key("editor") && fields.contains_key(
            "volume",
        ) && fields.contains_key("publisher"),
        EntryType::Phdthesis => fields.contains_key("title") && fields.contains_key("school"),
        EntryType::Mastersthesis => fields.contains_key("title") && fields.contains_key("school"),
        EntryType::Misc => fields.contains_key("title"),
        EntryType::Manual => fields.contains_key("title") && fields.contains_key("organization") && fields.contains_key(
            "address",
        ),
        EntryType::Inproceedings => fields.contains_key("title") && fields.contains_key("booktitle")
            && fields.contains_key("pages"),
        EntryType::Incollection => fields.contains_key("title") && fields.contains_key("booktitle")
            && fields.contains_key("pages") && fields.contains_key("editor") && fields.contains_key("publisher"),
        EntryType::Inbook => fields.contains_key("title") && fields.contains_key("booktitle") && fields.contains_key(
            "publisher",
        ) && fields.contains_key("pages"),
        EntryType::Conference => fields.contains_key("publisher") && fields.contains_key("year") && fields.contains_key(
            "booktitle",
        ) && fields.contains_key("pages") && fields.contains_key("title") && fields.contains_key("editor"),
        EntryType::Booklet => fields.contains_key("title") && fields.contains_key("howpublished"),
        EntryType::Book => fields.contains_key("title") && fields.contains_key("publisher"),
        EntryType::Article => fields.contains_key("title"),
    };
    let is_proc = match kind {
        EntryType::Proceedings => true,
        _ => false,
    };
    let reads_editors = match kind {
        EntryType::Proceedings | EntryType::Incollection | EntryType::Conference => true,
        _ => false,
    };
    let prints_date = match kind {
        EntryType::Conference | EntryType::Article => false,
        _ => true,
    };
    let editors_fine = if reads_editors {
        match editor_names(fields) {
            Some(v) => apa_check_names(&v),
            None => false,
        }
    } else {
        true
    };
    has && (is_proc || apa_check_names(authors)) && editors_fine && (!prints_date
        || check_year_month(lookup(fields, "year"), lookup(fields, "month")))
}

proof fn apa_opening_unpublished<T: Formatter>(a: Seq<NameParts>, f: Map<Seq<char>, Seq<char>>)
    ensures
        ({
            let r = apa_reference::<T>(EntryType::Unpublished, a, f);
            let h = apa_authors(a) + " ("@ + apa_date(f) + "). "@;
            let t = f["title"@];
            (h + T::italics_spec(t) + "."@) == r
        }),
{
    broadcast use lemma_prefix_of_add, lemma_prefix_extend;

    let h = apa_authors(a) + " ("@ + apa_date(f) + "). "@;
    let t = f["title"@];
    assert(h + T::italics_spec(t) + "."@ =~= apa_head(a, f) + T::italics_spec(t) + "."@);
}

proof fn apa_opening_techreport<T: Formatter>(a: Seq<NameParts>, f: Map<Seq<char>, Seq<char>>)
    ensures
        ({
            let r = apa_reference::<T>(EntryType::Techreport, a, f);
            let h = apa_authors(a) + " ("@ + apa_date(f) + "). "@;
            let t = f["title"@];
            (h + T::italics_spec(t) + " (tech. rep. No. "@).is_prefix_of(r)
        }),
{
    broadcast use lemma_prefix_of_add, lemma_prefix_extend;

    let h = apa_authors(a) + " ("@ + apa_date(f) + "). "@;
    let t = f["title"@];
    assert(h + T::italics_spec(t) + " (tech. rep. No. "@ =~= apa_head(a, f) + T::italics_spec(t) + " (tech. rep. No. "@);
}

proof fn apa_opening_book<T: Formatter>(a: Seq<NameParts>, f: Map<Seq<char>, Seq<char>>)
    ensures
        ({
            let r = apa_reference::<T>(EntryType::Book, a, f);
            let h = apa_authors(a) + " ("@ + apa_date(f) + "). "@;
            let t = f["title"@];
            (h + T::italics_spec(t) + ". "@).is_prefix_of(r)
        }),
{
    broadcast use lemma_prefix_of_add, lemma_prefix_extend;

    let h = apa_authors(a) + " ("@ + apa_date(f) + "). "@;
    let t = f["title"@];
    assert(h + T::italics_spec(t) + ". "@ =~= apa_head(a, f) + T::italics_spec(t) + ". "@);
}

proof fn apa_opening_phdthesis<T: Formatter>(a: Seq<NameParts>, f: Map<Seq<char>, Seq<char>>)
    ensures
        ({
            let r = apa_reference::<T>(EntryType::Phdthesis, a, f);
            let h = apa_authors(a) + " ("@ + apa_date(f) + "). "@;
            let t = f["title"@];
            (h + t + " [Doctoral dissertation, "@).is_prefix_of(r)
        }),
{
    broadcast use lemma_prefix_of_add, lemma_prefix_extend;

    let h = apa_authors(a) + " ("@ + apa_date(f) + "). "@;
    let t = f["title"@];
    assert(h + t + " [Doctoral dissertation, "@ =~= apa_head(a, f) + t + " [Doctoral dissertation, "@);
}

proof fn apa_opening_mastersthesis<T: Formatter>(a: Seq<NameParts>, f: Map<Seq<char>, Seq<char>>)
    ensures
        ({
            let r = apa_reference::<T>(EntryType::Mastersthesis, a, f);
            let h = apa_authors(a) + " ("@ + apa_date(f) + "). "@;
            let t = f["title"@];
            (h + t + " [Master's thesis, "@).is_prefix_of(r)
        }),
{
    broadcast use lemma_prefix_of_add, lemma_prefix_extend;

    let h = apa_authors(a) + " ("@ + apa_date(f) + "). "@;
    let t = f["title"@];
    assert(h + t + " [Master's thesis, "@ =~= apa_head(a, f) + t + " [Master's thesis, "@);
}

proof fn apa_opening_inproceedings<T: Formatter>(a: Seq<NameParts>, f: Map<Seq<char>, Seq<char>>)
    ensures
        ({
            let r = apa_reference::<T>(EntryType::Inproceedings, a, f);
            let h = apa_authors(a) + " ("@ + apa_date(f) + "). "@;
            let t = f["title"@];
            (h + t + ". "@).is_prefix_of(r)
        }),
{
    broadcast use lemma_prefix_of_add, lemma_prefix_extend;

    let h = apa_authors(a) + " ("@ + apa_date(f) + "). "@;
    let t = f["title"@];
    assert(h + t + ". "@ =~= apa_head(a, f) + t + ". "@);
}

proof fn apa_opening_incollection<T: Formatter>(a: Seq<NameParts>, f: Map<Seq<char>, Seq<char>>)
    ensures
        ({
            let r = apa_reference::<T>(EntryType::Incollection, a, f);
            let h = apa_authors(a) + " ("@ + apa_date(f) + "). "@;
            let t = f["title"@];
            (h + t + ". In "@).is_prefix_of(r)
        }),
{
    broadcast use lemma_prefix_of_add, lemma_prefix_extend;

    let h = apa_authors(a) + " ("@ + apa_date(f) + "). "@;
    let t = f["title"@];
    assert(h + t + ". In "@ =~= apa_head(a, f) + t + ". In "@);
}

proof fn apa_opening_inbook<T: Formatter>(a: Seq<NameParts>, f: Map<Seq<char>, Seq<char>>)
    ensures
        ({
            let r = apa_reference::<T>(EntryType::Inbook, a, f);
            let h = apa_authors(a) + " ("@ + apa_date(f) + "). "@;
            let t = f["title"@];
            (h + t + ". In "@).is_prefix_of(r)
        }),
{
    broadcast use lemma_prefix_of_add, lemma_prefix_extend;

    let h = apa_authors(a) + " ("@ + apa_date(f) + "). "@;
    let t = f["title"@];
    assert(h + t + ". In "@ =~= apa_head(a, f) + t + ". In "@);
}

proof fn apa_opening_proceedings<T: Formatter>(a: Seq<NameParts>, f: Map<Seq<char>, Seq<char>>)
    ensures
        ({
            let r = apa_reference::<T>(EntryType::Proceedings, a, f);
            let h = apa_authors(a) + " ("@ + apa_date(f) + "). "@;
            let t = f["title"@];
            (apa_authors(editors(f).unwrap()) + " (Eds.). ("@ + apa_date(f) + "). "@ + T::italics_spec(t) + " (Vol. "@).is_prefix_of(r)
        }),
{
    broadcast use lemma_prefix_of_add, lemma_prefix_extend;
}

proof fn apa_opening_misc<T: Formatter>(a: Seq<NameParts>, f: Map<Seq<char>, Seq<char>>)
    ensures
        ({
            let r = apa_reference::<T>(EntryType::Misc, a, f);
            let h = apa_authors(a) + " ("@ + apa_date(f) + "). "@;
            let t = f["title"@];
            (apa_authors(a) + ". ("@ + apa_date(f) + "). "@ + t).is_prefix_of(r)
        }),
{
    broadcast use lemma_prefix_of_add, lemma_prefix_extend;
}

proof fn apa_opening_manual<T: Formatter>(a: Seq<NameParts>, f: Map<Seq<char>, Seq<char>>)
    ensures
        ({
            let r = apa_reference::<T>(EntryType::Manual, a, f);
            let h = apa_authors(a) + " ("@ + apa_date(f) + "). "@;
            let t = f["title"@];
            (apa_authors(a) + ". ("@ + apa_date(f) + "). "@ + t + ". "@).is_prefix_of(r)
        }),
{
    broadcast use lemma_prefix_of_add, lemma_prefix_extend;
}

proof fn apa_opening_conference<T: Formatter>(a: Seq<NameParts>, f: Map<Seq<char>, Seq<char>>)
    ensures
        ({
            let r = apa_reference::<T>(EntryType::Conference, a, f);
            let h = apa_authors(a) + " ("@ + apa_date(f) + "). "@;
            let t = f["title"@];
            (apa_authors(a) + " ("@ + f["year"@] + "). "@ + t + " [Review of "@ + t + "]. In "@).is_prefix_of(r)
        }),
{
    broadcast use lemma_prefix_of_add, lemma_prefix_extend;
}

proof fn apa_opening_booklet<T: Formatter>(a: Seq<NameParts>, f: Map<Seq<char>, Seq<char>>)
    ensures
        ({
            let r = apa_reference::<T>(EntryType::Booklet, a, f);
            let h = apa_authors(a) + " ("@ + apa_date(f) + "). "@;
            let t = f["title"@];
            (apa_authors(a) + " "@ + t + ". "@).is_prefix_of(r)
        }),
{
    broadcast use lemma_prefix_of_add, lemma_prefix_extend;
}

proof fn apa_opening_article<T: Formatter>(a: Seq<NameParts>, f: Map<Seq<char>, Seq<char>>)
    ensures
        ({
            let r = apa_reference::<T>(EntryType::Article, a, f);
            let h = apa_authors(a) + " ("@ + apa_date(f) + "). "@;
            let t = f["title"@];
            (apa_authors(a) + " "@ + pub_date(field(f, "year"@)) + " "@ + (t + "."@) + " "@ + T::italics_spec(field_or_empty(f, "journal"@) + ", "@ + field_or_empty(f, "volume"@)) + " ("@).is_prefix_of(r)
        }),
{
    broadcast use lemma_prefix_of_add, lemma_prefix_extend;
}

/// How an APA reference opens, whatever the markup `T`. Most kinds start
/// with the authors and the date in parentheses, then the title: in `T`'s
/// italics for books, reports and unpublished works (which end right after
/// it), as it is for theses and the parts of larger works. Proceedings start
/// with their editors, `(Eds.)` and the date, then the title in italics and
/// the volume. Manuals and `misc` entries put a full stop after the authors;
/// a conference paper gives the year and then the title twice; a booklet
/// gives the title right after the authors; an article gives its year, its
/// title with a full stop and then its journal and volume in italics.
pub proof fn lemma_apa_opening<T: Formatter>(kind: EntryType, a: Seq<NameParts>, f: Map<Seq<char>, Seq<char>>)
    ensures
        ({
            let r = apa_reference::<T>(kind, a, f);
            let h = apa_authors(a) + " ("@ + apa_date(f) + "). "@;
            let t = f["title"@];
            match kind {
                EntryType::Unpublished => (h + T::italics_spec(t) + "."@) == r,
                EntryType::Techreport => (h + T::italics_spec(t) + " (tech. rep. No. "@).is_prefix_of(r),
                EntryType::Book => (h + T::italics_spec(t) + ". "@).is_prefix_of(r),
                EntryType::Phdthesis => (h + t + " [Doctoral dissertation, "@).is_prefix_of(r),
                EntryType::Mastersthesis => (h + t + " [Master's thesis, "@).is_prefix_of(r),
                EntryType::Inproceedings => (h + t + ". "@).is_prefix_of(r),
                EntryType::Incollection => (h + t + ". In "@).is_prefix_of(r),
                EntryType::Inbook => (h + t + ". In "@).is_prefix_of(r),
                EntryType::Proceedings => (apa_authors(editors(f).unwrap()) + " (Eds.). ("@ + apa_date(f) + "). "@ + T::italics_spec(t) + " (Vol. "@).is_prefix_of(r),
                EntryType::Misc => (apa_authors(a) + ". ("@ + apa_date(f) + "). "@ + t).is_prefix_of(r),
                EntryType::Manual => (apa_authors(a) + ". ("@ + apa_date(f) + "). "@ + t + ". "@).is_prefix_of(r),
                EntryType::Conference => (apa_authors(a) + " ("@ + f["year"@] + "). "@ + t + " [Review of "@ + t + "]. In "@).is_prefix_of(r),
                EntryType::Booklet => (apa_authors(a) + " "@ + t + ". "@).is_prefix_of(r),
                EntryType::Article => (apa_authors(a) + " "@ + pub_date(field(f, "year"@)) + " "@ + (t + "."@) + " "@ + T::italics_spec(field_or_empty(f, "journal"@) + ", "@ + field_or_empty(f, "volume"@)) + " ("@).is_prefix_of(r),
            }
        }),
{
    match kind {
        EntryType::Unpublished => apa_opening_unpublished::<T>(a, f),
        EntryType::Techreport => apa_opening_techreport::<T>(a, f),
        EntryType::Book => apa_opening_book::<T>(a, f),
        EntryType::Phdthesis => apa_opening_phdthesis::<T>(a, f),
        EntryType::Mastersthesis => apa_opening_mastersthesis::<T>(a, f),
        EntryType::Inproceedings => apa_opening_inproceedings::<T>(a, f),
        EntryType::Incollection => apa_opening_incollection::<T>(a, f),
        EntryType::Inbook => apa_opening_inbook::<T>(a, f),
        EntryType::Proceedings => apa_opening_proceedings::<T>(a, f),
        EntryType::Misc => apa_opening_misc::<T>(a, f),
        EntryType::Manual => apa_opening_manual::<T>(a, f),
        EntryType::Conference => apa_opening_conference::<T>(a, f),
        EntryType::Booklet => apa_opening_booklet::<T>(a, f),
        EntryType::Article => apa_opening_article::<T>(a, f),
    }
}

/// An APA article with a DOI ends with it, marked up by `T` as a link.
pub proof fn lemma_apa_article_link<T: Formatter>(a: Seq<NameParts>, f: Map<Seq<char>, Seq<char>>)
    requires
        f.contains_key("doi"@),
    ensures
        T::hyperlink_spec(f["doi"@]).is_suffix_of(apa_reference::<T>(EntryType::Article, a, f)),
{
    broadcast use lemma_suffix_of_add, lemma_suffix_extend;

}

} // verus!
