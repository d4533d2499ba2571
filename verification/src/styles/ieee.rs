//! The IEEE style: `F. M. Last and F. Last, "Title," ...`.

use super::dates::{check_year_month, fmt_month, month_text, year_month_ok};
use super::{
    check_names_range, each_name, editor_names, editors, field, field_or_empty, fmt_initials_then_last, fmt_names,
    has_initials, initials_then_last, join, join_words, lemma_prefix_extend, lemma_prefix_of_add, lemma_suffix_extend,
    lemma_suffix_of_add, lookup, names_ok, opt_view, thesis_entry, value_or_empty, Stylizer, ThesisKind,
};
use crate::formaters::Formatter;
use crate::parsing::entry::{names_parts, EntryType};
use crate::parsing::fields::BibFields;
use crate::parsing::names::{NameParts, OwnedFullName};
use vstd::prelude::*;
use vstd::string::StringExecFns;

verus! {

/// The IEEE style, with the markup of `T`.
#[derive(Default)]
pub struct IeeeStylizer<T: Formatter> {
    fmt: T,
}

impl<T: Formatter> IeeeStylizer<T> {
    /// The IEEE style with the markup of `fmt`.
    pub fn new(fmt: T) -> (r: Self)
        ensures
            r.markup() == fmt,
    {
        IeeeStylizer { fmt }
    }

    /// The markup that the style writes with.
    pub closed spec fn markup(self) -> T {
        self.fmt
    }
}

/// The names that the IEEE style writes out of a list: all of up to six,
/// else the first three.
pub open spec fn ieee_written(a: Seq<NameParts>) -> Seq<NameParts> {
    if a.len() <= 6 {
        a
    } else {
        a.take(3)
    }
}

/// Whether the editors can be read and those the IEEE style writes out have
/// initials.
pub open spec fn ieee_editors_ok(f: Map<Seq<char>, Seq<char>>) -> bool {
    editors(f) matches Some(ns) && names_ok(ieee_written(ns))
}

/// IEEE authors: one, two joined by `and`, up to six with `, and` before the
/// last; from seven on, the first three and `et al.`.
pub open spec fn ieee_authors(a: Seq<NameParts>) -> Seq<char> {
    let n = a.len();
    if n == 0 {
        Seq::empty()
    } else if n == 1 {
        initials_then_last(a[0])
    } else if n == 2 {
        initials_then_last(a[0]) + " and "@ + initials_then_last(a[1])
    } else if n <= 6 {
        join(each_name(a.take(n - 1), false), ", "@) + ", and "@ + initials_then_last(a[n - 1])
    } else {
        join(each_name(a.take(3), false), ", "@) + ", et al."@
    }
}

/// The IEEE date, after a space: `Mon. year`, the year alone, or nothing.
pub open spec fn ieee_year_month(year: Option<Seq<char>>, month: Option<Seq<char>>) -> Seq<char> {
    match (year, month) {
        (Some(y), Some(m)) => " "@ + month_text(m, false) + ". "@ + y,
        (Some(y), None) => " "@ + y,
        (None, _) => Seq::empty(),
    }
}

/// The date of an entry's fields.
pub open spec fn ieee_date(f: Map<Seq<char>, Seq<char>>) -> Seq<char> {
    ieee_year_month(field(f, "year"@), field(f, "month"@))
}

/// A title in quotes, with a comma before the closing quote.
pub open spec fn quoted(t: Seq<char>) -> Seq<char> {
    "\""@ + t + ",\""@
}

/// The editors of an `incollection`: none where they cannot be read.
pub open spec fn editors_or_none(f: Map<Seq<char>, Seq<char>>) -> Seq<NameParts> {
    match editors(f) {
        Some(ns) => ns,
        None => Seq::empty(),
    }
}

/// Whether the IEEE style can write an entry: its authors (editors, where it
/// reads them) have initials, and its date can be printed where it prints one.
pub open spec fn ieee_can_format(kind: EntryType, a: Seq<NameParts>, f: Map<Seq<char>, Seq<char>>) -> bool {
    &&& (kind != EntryType::Proceedings ==> names_ok(ieee_written(a)))
    &&& (kind == EntryType::Proceedings || kind == EntryType::Conference ==> ieee_editors_ok(f))
    &&& (kind == EntryType::Incollection ==> names_ok(ieee_written(editors_or_none(f))))
    &&& (kind == EntryType::Booklet || kind == EntryType::Conference || kind == EntryType::Techreport || kind
        == EntryType::Phdthesis || kind == EntryType::Mastersthesis || kind == EntryType::Article
        ==> year_month_ok(field(f, "year"@), field(f, "month"@)))
}

/// The IEEE reference of an entry, with the markup of `T`. Missing fields are
/// printed as empty texts.
pub open spec fn ieee_reference<T: Formatter>(kind: EntryType, a: Seq<NameParts>, f: Map<Seq<char>, Seq<char>>) -> Seq<char> {
    let head = ieee_authors(a) + ", "@;
    match kind {
        EntryType::Book => head + T::italics_spec(field_or_empty(f, "title"@)) + ". "@ + field_or_empty(f, "address"@) + ": "@ + field_or_empty(f, "publisher"@)
            + ", "@ + field_or_empty(f, "year"@) + "."@,
        EntryType::Booklet => head + T::italics_spec(field_or_empty(f, "title"@)) + ", "@ + field_or_empty(f, "howpublished"@) + ","@ + ieee_date(f)
            + "."@,
        EntryType::Conference => head + quoted(T::italics_spec(field_or_empty(f, "title"@))) + " in "@ + field_or_empty(f, "booktitle"@) + ", "@
            + ieee_authors(editors(f).unwrap()) + ", Ed., "@ + field_or_empty(f, "organization"@) + ", "@ + field_or_empty(f, "address"@) + ": "@
            + field_or_empty(f, "publisher"@) + ","@ + ieee_date(f) + ", pp. "@ + field_or_empty(f, "pages"@) + "."@,
        EntryType::Inbook => head + quoted(field_or_empty(f, "title"@)) + " in "@ + field_or_empty(f, "booktitle"@) + ". "@ + field_or_empty(f, "address"@) + ": "@
            + field_or_empty(f, "publisher"@) + ", "@ + field_or_empty(f, "year"@) + ", pp. "@ + field_or_empty(f, "pages"@) + "."@,
        EntryType::Incollection => head + quoted(field_or_empty(f, "title"@)) + " in "@ + field_or_empty(f, "booktitle"@) + ", "@ + ieee_authors(
            editors_or_none(f),
        ) + ", Eds., "@ + field_or_empty(f, "address"@) + ": "@ + field_or_empty(f, "publisher"@) + ", "@ + field_or_empty(f, "year"@) + ", pp. "@ + field_or_empty(f, "pages"@)
            + "."@,
        EntryType::Manual => head + T::italics_spec(field_or_empty(f, "title"@)) + ", "@ + field_or_empty(f, "organization"@) + ", "@ + field_or_empty(f, "address"@) + ", "@ + field_or_empty(f, "year"@) + "."@,
        EntryType::Inproceedings => head + quoted(field_or_empty(f, "title"@)) + " in "@ + field_or_empty(f, "booktitle"@) + ", ser. "@ + field_or_empty(f, "series"@) + ", "@ + field_or_empty(f, "address"@) + ": "@ + field_or_empty(f, "publisher"@) + ", "@ + field_or_empty(f, "year"@) + ", pp. "@ + field_or_empty(f, "pages"@) + "."@,
        EntryType::Proceedings => ieee_authors(editors(f).unwrap()) + ", Eds., "@ + field_or_empty(f, "title"@) + ", vol. "@ + field_or_empty(f, "volume"@) + ", "@ + field_or_empty(f, "series"@) + ", "@ + field_or_empty(f, "address"@) + ": "@ + field_or_empty(f, "publisher"@) + ", "@ + field_or_empty(f, "year"@),
        EntryType::Unpublished => head + quoted(field_or_empty(f, "title"@)) + " unpublished."@,
        EntryType::Techreport => head + quoted(field_or_empty(f, "title"@)) + " "@ + field_or_empty(f, "institution"@) + ", "@ + field_or_empty(f, "address"@)
            + ", Tech. Rep. "@ + field_or_empty(f, "number"@) + ","@ + ieee_date(f) + "."@,
        EntryType::Phdthesis => head + quoted(field_or_empty(f, "title"@)) + " "@ + "Ph.D. dissertation, "@ + thesis_place(f)
            + ieee_date(f) + "."@,
        EntryType::Mastersthesis => head + quoted(field_or_empty(f, "title"@)) + " "@ + "M.S. thesis, "@ + thesis_place(f)
            + ieee_date(f) + "."@,
        EntryType::Misc => head + field_or_empty(f, "title"@) + opt_after(field(f, "howpublished"@), ", "@, ""@)
            + opt_after(field(f, "note"@), ", "@, ""@) + opt_after(field(f, "year"@), ", "@, "."@),
        EntryType::Article => head + quoted(field_or_empty(f, "title"@)) + " "@ + T::italics_spec(
            field_or_empty(f, "journal"@) + ","@,
        ) + " vol. "@ + field_or_empty(f, "volume"@) + ", no. "@ + field_or_empty(f, "number"@) + ","@ + opt_after(
            field(f, "pages"@),
            " pp. "@,
            ","@,
        ) + ieee_date(f) + opt_after(field(f, "issn"@), ", issn: "@, ""@) + opt_after(
            field(f, "doi"@),
            ". doi: "@,
            "."@,
        ) + opt_after(opt_link::<T>(field(f, "url"@)), " [Online]. Available: "@, "."@) + (if !f.contains_key(
            "url"@,
        ) && !f.contains_key("doi"@) && !f.contains_key("issn"@) {
            "."@
        } else {
            Seq::empty()
        }),
    }
}

/// The text of an optional value between `before` and `after`; nothing
/// without a value.
pub open spec fn opt_after(o: Option<Seq<char>>, before: Seq<char>, after: Seq<char>) -> Seq<char> {
    match o {
        Some(x) => before + x + after,
        None => Seq::empty(),
    }
}

/// An optional link, marked up by `T`.
pub open spec fn opt_link<T: Formatter>(o: Option<Seq<char>>) -> Option<Seq<char>> {
    match o {
        Some(u) => Some(T::hyperlink_spec(u)),
        None => None,
    }
}

/// Appends the optional value between `before` and `after`.
fn append_opt(out: &mut String, o: Option<&String>, before: &str, after: &str)
    ensures
        final(out)@ == old(out)@ + opt_after(opt_view(o), before@, after@),
{
    match o {
        Some(x) => {
            out.append(before);
            out.append(x.as_str());
            out.append(after);
        },
        None => {},
    }
}

/// The school and the address of a thesis, each followed by a comma.
pub open spec fn thesis_place(f: Map<Seq<char>, Seq<char>>) -> Seq<char> {
    opt_after(field(f, "school"@), ""@, ","@) + opt_after(field(f, "address"@), " "@, ","@)
}

/// The date in IEEE's way.
fn ieee_fmt_year_month(year: Option<&String>, month: Option<&String>) -> (r: String)
    requires
        year_month_ok(opt_view(year), opt_view(month)),
    ensures
        r@ == ieee_year_month(opt_view(year), opt_view(month)),
{
    match (year, month) {
        (Some(y), Some(m)) => {
            let mut out = String::from_str(" ");
            let month_words = fmt_month(y.as_str(), m.as_str(), false);
            out.append(month_words.as_str());
            out.append(". ");
            out.append(y.as_str());
            out
        },
        (Some(y), None) => {
            let mut out = String::from_str(" ");
            out.append(y.as_str());
            out
        },
        (None, _) => String::new(),
    }
}

/// The authors in IEEE's way.
fn ieee_fmt_authors(authors: Vec<OwnedFullName>) -> (r: String)
    requires
        names_ok(ieee_written(names_parts(authors@))),
    ensures
        r@ == ieee_authors(names_parts(authors@)),
{
    let n = authors.len();
    let ghost ps = names_parts(authors@);
    proof {
        if n > 6 {
            assert(ieee_written(ps) =~= ps.subrange(0, 3));
        } else {
            assert(ps.subrange(0, n as int) =~= ps);
            if n > 0 {
                assert(ps.subrange(0, n - 1) =~= ieee_written(ps).subrange(0, n - 1));
            }
        }
    }
    if n == 0 {
        String::new()
    } else if n == 1 {
        assert(has_initials(ps[0]));
        fmt_initials_then_last(&authors[0])
    } else if n == 2 {
        assert(has_initials(ps[0]));
        assert(has_initials(ps[1]));
        let mut out = fmt_initials_then_last(&authors[0]);
        out.append(" and ");
        let second = fmt_initials_then_last(&authors[1]);
        out.append(second.as_str());
        out
    } else if n <= 6 {
        let firsts = fmt_names(&authors, 0, n - 1, false);
        let mut out = join_words(&firsts, ", ");
        out.append(", and ");
        assert(has_initials(ps[n - 1]));
        let last = fmt_initials_then_last(&authors[n - 1]);
        out.append(last.as_str());
        proof {
            assert(ps.subrange(0, n - 1) =~= ps.take(n - 1));
        }
        out
    } else {
        let firsts = fmt_names(&authors, 0, 3, false);
        let mut out = join_words(&firsts, ", ");
        out.append(", et al.");
        proof {
            assert(ps.subrange(0, 3) =~= ps.take(3));
        }
        out
    }
}

/// A title in quotes, with a comma before the closing quote.
fn fmt_title(title: &str) -> (r: String)
    ensures
        r@ == quoted(title@),
{
    let mut out = String::from_str("\"");
    out.append(title);
    out.append(",\"");
    out
}

impl<T: Formatter> Stylizer for IeeeStylizer<T> {
    open spec fn can_format(kind: EntryType, authors: Seq<NameParts>, fields: Map<Seq<char>, Seq<char>>) -> bool {
        ieee_can_format(kind, authors, fields)
    }

    open spec fn reference(kind: EntryType, authors: Seq<NameParts>, fields: Map<Seq<char>, Seq<char>>) -> Seq<char> {
        ieee_reference::<T>(kind, authors, fields)
    }

    open spec fn authors_text(authors: Seq<NameParts>) -> Seq<char> {
        ieee_authors(authors)
    }

    open spec fn authors_ok(authors: Seq<NameParts>) -> bool {
        names_ok(ieee_written(authors))
    }

    open spec fn year_month_text(year: Option<Seq<char>>, month: Option<Seq<char>>) -> Seq<char> {
        ieee_year_month(year, month)
    }

    proof fn lemma_proceedings_authors(authors: Seq<NameParts>, fields: Map<Seq<char>, Seq<char>>) {
    }

    fn fmt_book(&self, authors: Vec<OwnedFullName>, fields: BibFields) -> (r: String) {
        let ghost a = names_parts(authors@);
        let mut title = value_or_empty(&fields, "title");
        let mut out = ieee_fmt_authors(authors);
        out.append(", ");
        self.fmt.italics(&mut title);
        out.append(title.as_str());
        out.append(". ");
        out.append(value_or_empty(&fields, "address").as_str());
        out.append(": ");
        out.append(value_or_empty(&fields, "publisher").as_str());
        out.append(", ");
        out.append(value_or_empty(&fields, "year").as_str());
        out.append(".");
        proof {
            assert(out@ == ieee_reference::<T>(EntryType::Book, a, fields@));
            assert(out@ == Self::reference(EntryType::Book, a, fields@));
        }
        out
    }

    fn fmt_booklet(&self, authors: Vec<OwnedFullName>, fields: BibFields) -> (r: String) {
        let ghost a = names_parts(authors@);
        let mut title = value_or_empty(&fields, "title");
        self.fmt.italics(&mut title);
        let mut out = ieee_fmt_authors(authors);
        out.append(", ");
        out.append(title.as_str());
        out.append(", ");
        out.append(value_or_empty(&fields, "howpublished").as_str());
        out.append(",");
        let date = ieee_fmt_year_month(lookup(&fields, "year"), lookup(&fields, "month"));
        out.append(date.as_str());
        out.append(".");
        proof {
            assert(out@ == ieee_reference::<T>(EntryType::Booklet, a, fields@));
            assert(out@ == Self::reference(EntryType::Booklet, a, fields@));
        }
        out
    }

    fn fmt_conference(&self, authors: Vec<OwnedFullName>, fields: BibFields) -> (r: String) {
        let ghost a = names_parts(authors@);
        let mut title = value_or_empty(&fields, "title");
        self.fmt.italics(&mut title);
        let eds = editor_names(&fields).unwrap();
        assert(names_parts(eds@) == editors(fields@).unwrap());
        assert(names_ok(ieee_written(names_parts(eds@))));
        let ed_text = ieee_fmt_authors(eds);
        let mut out = ieee_fmt_authors(authors);
        out.append(", ");
        out.append(fmt_title(title.as_str()).as_str());
        out.append(" in ");
        out.append(value_or_empty(&fields, "booktitle").as_str());
        out.append(", ");
        out.append(ed_text.as_str());
        out.append(", Ed., ");
        out.append(value_or_empty(&fields, "organization").as_str());
        out.append(", ");
        out.append(value_or_empty(&fields, "address").as_str());
        out.append(": ");
        out.append(value_or_empty(&fields, "publisher").as_str());
        out.append(",");
        let date = ieee_fmt_year_month(lookup(&fields, "year"), lookup(&fields, "month"));
        out.append(date.as_str());
        out.append(", pp. ");
        out.append(value_or_empty(&fields, "pages").as_str());
        out.append(".");
        proof {
            assert(out@ == ieee_reference::<T>(EntryType::Conference, a, fields@));
            assert(out@ == Self::reference(EntryType::Conference, a, fields@));
        }
        out
    }

    fn fmt_inbook(&self, authors: Vec<OwnedFullName>, fields: BibFields) -> (r: String) {
        let ghost a = names_parts(authors@);
        let mut out = ieee_fmt_authors(authors);
        out.append(", ");
        out.append(fmt_title(value_or_empty(&fields, "title").as_str()).as_str());
        out.append(" in ");
        out.append(value_or_empty(&fields, "booktitle").as_str());
        out.append(". ");
        out.append(value_or_empty(&fields, "address").as_str());
        out.append(": ");
        out.append(value_or_empty(&fields, "publisher").as_str());
        out.append(", ");
        out.append(value_or_empty(&fields, "year").as_str());
        out.append(", pp. ");
        out.append(value_or_empty(&fields, "pages").as_str());
        out.append(".");
        proof {
            assert(out@ == ieee_reference::<T>(EntryType::Inbook, a, fields@));
            assert(out@ == Self::reference(EntryType::Inbook, a, fields@));
        }
        out
    }

    fn fmt_incollection(&self, authors: Vec<OwnedFullName>, fields: BibFields) -> (r: String) {
        let ghost a = names_parts(authors@);
        let mut out = ieee_fmt_authors(authors);
        out.append(", ");
        out.append(fmt_title(value_or_empty(&fields, "title").as_str()).as_str());
        out.append(" in ");
        out.append(value_or_empty(&fields, "booktitle").as_str());
        out.append(", ");
        let eds = match editor_names(&fields) {
            Some(v) => v,
            None => Vec::new(),
        };
        proof {
            assert(names_parts(eds@) =~= editors_or_none(fields@));
        }
        out.append(ieee_fmt_authors(eds).as_str());
        out.append(", Eds., ");
        out.append(value_or_empty(&fields, "address").as_str());
        out.append(": ");
        out.append(value_or_empty(&fields, "publisher").as_str());
        out.append(", ");
        out.append(value_or_empty(&fields, "year").as_str());
        out.append(", pp. ");
        out.append(value_or_empty(&fields, "pages").as_str());
        out.append(".");
        proof {
            assert(out@ == ieee_reference::<T>(EntryType::Incollection, a, fields@));
            assert(out@ == Self::reference(EntryType::Incollection, a, fields@));
        }
        out
    }

    fn fmt_manual(&self, authors: Vec<OwnedFullName>, fields: BibFields) -> (r: String) {
        let ghost a = names_parts(authors@);
        let mut title = value_or_empty(&fields, "title");
        self.fmt.italics(&mut title);
        let mut out = ieee_fmt_authors(authors);
        out.append(", ");
        out.append(title.as_str());
        out.append(", ");
        out.append(value_or_empty(&fields, "organization").as_str());
        out.append(", ");
        out.append(value_or_empty(&fields, "address").as_str());
        out.append(", ");
        out.append(value_or_empty(&fields, "year").as_str());
        out.append(".");
        proof {
            assert(out@ == ieee_reference::<T>(EntryType::Manual, a, fields@));
            assert(out@ == Self::reference(EntryType::Manual, a, fields@));
        }
        out
    }

    fn fmt_inproceedings(&self, authors: Vec<OwnedFullName>, fields: BibFields) -> (r: String) {
        let ghost a = names_parts(authors@);
        let mut out = ieee_fmt_authors(authors);
        out.append(", ");
        out.append(fmt_title(value_or_empty(&fields, "title").as_str()).as_str());
        out.append(" in ");
        out.append(value_or_empty(&fields, "booktitle").as_str());
        out.append(", ser. ");
        out.append(value_or_empty(&fields, "series").as_str());
        out.append(", ");
        out.append(value_or_empty(&fields, "address").as_str());
        out.append(": ");
        out.append(value_or_empty(&fields, "publisher").as_str());
        out.append(", ");
        out.append(value_or_empty(&fields, "year").as_str());
        out.append(", pp. ");
        out.append(value_or_empty(&fields, "pages").as_str());
        out.append(".");
        proof {
            assert(out@ == ieee_reference::<T>(EntryType::Inproceedings, a, fields@));
            assert(out@ == Self::reference(EntryType::Inproceedings, a, fields@));
        }
        out
    }

    fn fmt_proceedings(&self, fields: BibFields) -> (r: String) {
        let eds = editor_names(&fields).unwrap();
        assert(names_parts(eds@) == editors(fields@).unwrap());
        assert(names_ok(ieee_written(names_parts(eds@))));
        let mut out = ieee_fmt_authors(eds);
        let ghost head = out@;
        out.append(", Eds., ");
        out.append(value_or_empty(&fields, "title").as_str());
        out.append(", vol. ");
        out.append(value_or_empty(&fields, "volume").as_str());
        out.append(", ");
        out.append(value_or_empty(&fields, "series").as_str());
        out.append(", ");
        out.append(value_or_empty(&fields, "address").as_str());
        out.append(": ");
        out.append(value_or_empty(&fields, "publisher").as_str());
        out.append(", ");
        out.append(value_or_empty(&fields, "year").as_str());
        proof {
            assert(head == ieee_authors(editors(fields@).unwrap()));
            assert(out@ == ieee_reference::<T>(EntryType::Proceedings, Seq::empty(), fields@));
            assert(out@ == Self::reference(EntryType::Proceedings, Seq::empty(), fields@));
        }
        out
    }

    fn fmt_unpublished(&self, authors: Vec<OwnedFullName>, fields: BibFields) -> (r: String) {
        let ghost a = names_parts(authors@);
        let mut out = ieee_fmt_authors(authors);
        out.append(", ");
        out.append(fmt_title(value_or_empty(&fields, "title").as_str()).as_str());
        out.append(" unpublished.");
        proof {
            assert(out@ == ieee_reference::<T>(EntryType::Unpublished, a, fields@));
            assert(out@ == Self::reference(EntryType::Unpublished, a, fields@));
        }
        out
    }

    fn fmt_techreport(&self, authors: Vec<OwnedFullName>, fields: BibFields) -> (r: String) {
        let ghost a = names_parts(authors@);
        let mut out = ieee_fmt_authors(authors);
        out.append(", ");
        out.append(fmt_title(value_or_empty(&fields, "title").as_str()).as_str());
        out.append(" ");
        out.append(value_or_empty(&fields, "institution").as_str());
        out.append(", ");
        out.append(value_or_empty(&fields, "address").as_str());
        out.append(", Tech. Rep. ");
        out.append(value_or_empty(&fields, "number").as_str());
        out.append(",");
        let date = ieee_fmt_year_month(lookup(&fields, "year"), lookup(&fields, "month"));
        out.append(date.as_str());
        out.append(".");
        proof {
            assert(out@ == ieee_reference::<T>(EntryType::Techreport, a, fields@));
            assert(out@ == Self::reference(EntryType::Techreport, a, fields@));
        }
        out
    }

    fn fmt_thesis(&self, kind: ThesisKind, authors: Vec<OwnedFullName>, fields: BibFields) -> (r: String) {
        let ghost a = names_parts(authors@);
        let mut out = ieee_fmt_authors(authors);
        out.append(", ");
        out.append(fmt_title(value_or_empty(&fields, "title").as_str()).as_str());
        out.append(" ");
        match kind {
            ThesisKind::Phd => out.append("Ph.D. dissertation, "),
            ThesisKind::Msc => out.append("M.S. thesis, "),
        }
        append_opt(&mut out, lookup(&fields, "school"), "", ",");
        append_opt(&mut out, lookup(&fields, "address"), " ", ",");
        let date = ieee_fmt_year_month(lookup(&fields, "year"), lookup(&fields, "month"));
        out.append(date.as_str());
        out.append(".");
        proof {
            assert(out@ == ieee_reference::<T>(thesis_entry(kind), a, fields@));
            assert(out@ == Self::reference(thesis_entry(kind), a, fields@));
        }
        out
    }

    fn fmt_misc(&self, authors: Vec<OwnedFullName>, fields: BibFields) -> (r: String) {
        let ghost a = names_parts(authors@);
        let mut out = ieee_fmt_authors(authors);
        out.append(", ");
        out.append(value_or_empty(&fields, "title").as_str());
        append_opt(&mut out, lookup(&fields, "howpublished"), ", ", "");
        append_opt(&mut out, lookup(&fields, "note"), ", ", "");
        append_opt(&mut out, lookup(&fields, "year"), ", ", ".");
        proof {
            assert(out@ == ieee_reference::<T>(EntryType::Misc, a, fields@));
            assert(out@ == Self::reference(EntryType::Misc, a, fields@));
        }
        out
    }

    fn fmt_article(&self, authors: Vec<OwnedFullName>, fields: BibFields) -> (r: String) {
        let ghost a = names_parts(authors@);
        let mut journal = value_or_empty(&fields, "journal");
        journal.append(",");
        self.fmt.italics(&mut journal);
        let doi = lookup(&fields, "doi");
        let issn = lookup(&fields, "issn");
        let url = lookup(&fields, "url");
        let link = match url {
            Some(u) => {
                let mut l = u.clone();
                self.fmt.hyperlink(&mut l);
                Some(l)
            },
            None => None,
        };
        let link_ref = link.as_ref();
        assert(opt_view(link_ref) == opt_link::<T>(field(fields@, "url"@)));
        let mut out = ieee_fmt_authors(authors);
        out.append(", ");
        out.append(fmt_title(value_or_empty(&fields, "title").as_str()).as_str());
        out.append(" ");
        out.append(journal.as_str());
        out.append(" vol. ");
        out.append(value_or_empty(&fields, "volume").as_str());
        out.append(", no. ");
        out.append(value_or_empty(&fields, "number").as_str());
        out.append(",");
        append_opt(&mut out, lookup(&fields, "pages"), " pp. ", ",");
        let date = ieee_fmt_year_month(lookup(&fields, "year"), lookup(&fields, "month"));
        out.append(date.as_str());
        append_opt(&mut out, issn, ", issn: ", "");
        append_opt(&mut out, doi, ". doi: ", ".");
        append_opt(&mut out, link_ref, " [Online]. Available: ", ".");
        if url.is_none() && doi.is_none() && issn.is_none() {
            out.append(".");
        }
        proof {
            assert(out@ == ieee_reference::<T>(EntryType::Article, a, fields@));
            assert(out@ == Self::reference(EntryType::Article, a, fields@));
        }
        out
    }

    fn fmt_year_month(&self, year: Option<&String>, month: Option<&String>) -> (r: String) {
        let r = ieee_fmt_year_month(year, month);
        assert(r@ == Self::year_month_text(opt_view(year), opt_view(month)));
        r
    }

    fn fmt_authors(&self, authors: Vec<OwnedFullName>) -> (r: String) {
        let ghost a = names_parts(authors@);
        let r = ieee_fmt_authors(authors);
        assert(r@ == Self::authors_text(a));
        r
    }
}

/// Whether the names that the IEEE style writes out of a list have initials.
fn ieee_check_names(names: &Vec<OwnedFullName>) -> (b: bool)
    ensures
        b == names_ok(ieee_written(names_parts(names@))),
{
    let n = names.len();
    let written = if n <= 6 { n } else { 3 };
    let b = check_names_range(names, 0, written);
    proof {
        let ps = names_parts(names@);
        if n <= 6 {
            assert(ps.subrange(0, n as int) =~= ps);
        } else {
            assert(ps.subrange(0, 3) =~= ps.take(3));
        }
    }
    b
}

/// Whether the IEEE style can write an entry of kind `kind` with these
/// authors and fields.
pub fn ieee_check(kind: EntryType, authors: &Vec<OwnedFullName>, fields: &BibFields) -> (b: bool)
    ensures
        b == ieee_can_format(kind, names_parts(authors@), fields@),
{
    let is_proc = match kind {
        EntryType::Proceedings => true,
        _ => false,
    };
    let needs_editors = match kind {
        EntryType::Proceedings | EntryType::Conference => true,
        _ => false,
    };
    let optional_editors = match kind {
        EntryType::Incollection => true,
        _ => false,
    };
    let prints_date = match kind {
        EntryType::Booklet | EntryType::Conference | EntryType::Techreport | EntryType::Phdthesis
        | EntryType::Mastersthesis | EntryType::Article => true,
        _ => false,
    };
    let editors_fine = if optional_editors {
        match editor_names(fields) {
            Some(v) => ieee_check_names(&v),
            None => {
                assert(editors_or_none(fields@) =~= Seq::<NameParts>::empty());
                assert(ieee_written(editors_or_none(fields@)) =~= Seq::<NameParts>::empty());
                true
            },
        }
    } else if needs_editors {
        match editor_names(fields) {
            Some(v) => ieee_check_names(&v),
            None => false,
        }
    } else {
        true
    };
    (is_proc || ieee_check_names(authors)) && editors_fine && (!prints_date || check_year_month(
        lookup(fields, "year"),
        lookup(fields, "month"),
    ))
}

proof fn ieee_opening_book<T: Formatter>(a: Seq<NameParts>, f: Map<Seq<char>, Seq<char>>)
    ensures
        ({
            let r = ieee_reference::<T>(EntryType::Book, a, f);
            let h = ieee_authors(a) + ", "@;
            let t = field_or_empty(f, "title"@);
            (h + T::italics_spec(t) + ". "@).is_prefix_of(r)
        }),
{
    broadcast use lemma_prefix_of_add, lemma_prefix_extend;
}

proof fn ieee_opening_booklet<T: Formatter>(a: Seq<NameParts>, f: Map<Seq<char>, Seq<char>>)
    ensures
        ({
            let r = ieee_reference::<T>(EntryType::Booklet, a, f);
            let h = ieee_authors(a) + ", "@;
            let t = field_or_empty(f, "title"@);
            (h + T::italics_spec(t) + ", "@).is_prefix_of(r)
        }),
{
    broadcast use lemma_prefix_of_add, lemma_prefix_extend;
}

proof fn ieee_opening_manual<T: Formatter>(a: Seq<NameParts>, f: Map<Seq<char>, Seq<char>>)
    ensures
        ({
            let r = ieee_reference::<T>(EntryType::Manual, a, f);
            let h = ieee_authors(a) + ", "@;
            let t = field_or_empty(f, "title"@);
            (h + T::italics_spec(t) + ", "@).is_prefix_of(r)
        }),
{
    broadcast use lemma_prefix_of_add, lemma_prefix_extend;
}

proof fn ieee_opening_conference<T: Formatter>(a: Seq<NameParts>, f: Map<Seq<char>, Seq<char>>)
    ensures
        ({
            let r = ieee_reference::<T>(EntryType::Conference, a, f);
            let h = ieee_authors(a) + ", "@;
            let t = field_or_empty(f, "title"@);
            (h + "\""@ + T::italics_spec(t) + ",\""@ + " in "@).is_prefix_of(r)
        }),
{
    broadcast use lemma_prefix_of_add, lemma_prefix_extend;

    let h = ieee_authors(a) + ", "@;
    let t = field_or_empty(f, "title"@);
    assert(h + "\""@ + T::italics_spec(t) + ",\""@ + " in "@ =~= h + quoted(T::italics_spec(t)) + " in "@);
}

proof fn ieee_opening_inbook<T: Formatter>(a: Seq<NameParts>, f: Map<Seq<char>, Seq<char>>)
    ensures
        ({
            let r = ieee_reference::<T>(EntryType::Inbook, a, f);
            let h = ieee_authors(a) + ", "@;
            let t = field_or_empty(f, "title"@);
            (h + "\""@ + t + ",\""@ + " in "@).is_prefix_of(r)
        }),
{
    broadcast use lemma_prefix_of_add, lemma_prefix_extend;

    let h = ieee_authors(a) + ", "@;
    let t = field_or_empty(f, "title"@);
    assert(h + "\""@ + t + ",\""@ + " in "@ =~= h + quoted(t) + " in "@);
}

proof fn ieee_opening_incollection<T: Formatter>(a: Seq<NameParts>, f: Map<Seq<char>, Seq<char>>)
    ensures
        ({
            let r = ieee_reference::<T>(EntryType::Incollection, a, f);
            let h = ieee_authors(a) + ", "@;
            let t = field_or_empty(f, "title"@);
            (h + "\""@ + t + ",\""@ + " in "@).is_prefix_of(r)
        }),
{
    broadcast use lemma_prefix_of_add, lemma_prefix_extend;

    let h = ieee_authors(a) + ", "@;
    let t = field_or_empty(f, "title"@);
    assert(h + "\""@ + t + ",\""@ + " in "@ =~= h + quoted(t) + " in "@);
}

proof fn ieee_opening_inproceedings<T: Formatter>(a: Seq<NameParts>, f: Map<Seq<char>, Seq<char>>)
    ensures
        ({
            let r = ieee_reference::<T>(EntryType::Inproceedings, a, f);
            let h = ieee_authors(a) + ", "@;
            let t = field_or_empty(f, "title"@);
            (h + "\""@ + t + ",\""@ + " in "@).is_prefix_of(r)
        }),
{
    broadcast use lemma_prefix_of_add, lemma_prefix_extend;

    let h = ieee_authors(a) + ", "@;
    let t = field_or_empty(f, "title"@);
    assert(h + "\""@ + t + ",\""@ + " in "@ =~= h + quoted(t) + " in "@);
}

proof fn ieee_opening_unpublished<T: Formatter>(a: Seq<NameParts>, f: Map<Seq<char>, Seq<char>>)
    ensures
        ({
            let r = ieee_reference::<T>(EntryType::Unpublished, a, f);
            let h = ieee_authors(a) + ", "@;
            let t = field_or_empty(f, "title"@);
            (h + "\""@ + t + ",\""@ + " unpublished."@) == r
        }),
{
    broadcast use lemma_prefix_of_add, lemma_prefix_extend;

    let h = ieee_authors(a) + ", "@;
    let t = field_or_empty(f, "title"@);
    assert(h + "\""@ + t + ",\""@ + " unpublished."@ =~= h + quoted(t) + " unpublished."@);
}

proof fn ieee_opening_techreport<T: Formatter>(a: Seq<NameParts>, f: Map<Seq<char>, Seq<char>>)
    ensures
        ({
            let r = ieee_reference::<T>(EntryType::Techreport, a, f);
            let h = ieee_authors(a) + ", "@;
            let t = field_or_empty(f, "title"@);
            (h + "\""@ + t + ",\""@ + " "@).is_prefix_of(r)
        }),
{
    broadcast use lemma_prefix_of_add, lemma_prefix_extend;

    let h = ieee_authors(a) + ", "@;
    let t = field_or_empty(f, "title"@);
    assert(h + "\""@ + t + ",\""@ + " "@ =~= h + quoted(t) + " "@);
}

proof fn ieee_opening_phdthesis<T: Formatter>(a: Seq<NameParts>, f: Map<Seq<char>, Seq<char>>)
    ensures
        ({
            let r = ieee_reference::<T>(EntryType::Phdthesis, a, f);
            let h = ieee_authors(a) + ", "@;
            let t = field_or_empty(f, "title"@);
            (h + "\""@ + t + ",\""@ + " "@ + "Ph.D. dissertation, "@).is_prefix_of(r)
        }),
{
    broadcast use lemma_prefix_of_add, lemma_prefix_extend;

    let h = ieee_authors(a) + ", "@;
    let t = field_or_empty(f, "title"@);
    assert(h + "\""@ + t + ",\""@ + " "@ + "Ph.D. dissertation, "@ =~= h + quoted(t) + " "@ + "Ph.D. dissertation, "@);
}

proof fn ieee_opening_mastersthesis<T: Formatter>(a: Seq<NameParts>, f: Map<Seq<char>, Seq<char>>)
    ensures
        ({
            let r = ieee_reference::<T>(EntryType::Mastersthesis, a, f);
            let h = ieee_authors(a) + ", "@;
            let t = field_or_empty(f, "title"@);
            (h + "\""@ + t + ",\""@ + " "@ + "M.S. thesis, "@).is_prefix_of(r)
        }),
{
    broadcast use lemma_prefix_of_add, lemma_prefix_extend;

    let h = ieee_authors(a) + ", "@;
    let t = field_or_empty(f, "title"@);
    assert(h + "\""@ + t + ",\""@ + " "@ + "M.S. thesis, "@ =~= h + quoted(t) + " "@ + "M.S. thesis, "@);
}

proof fn ieee_opening_misc<T: Formatter>(a: Seq<NameParts>, f: Map<Seq<char>, Seq<char>>)
    ensures
        ({
            let r = ieee_reference::<T>(EntryType::Misc, a, f);
            let h = ieee_authors(a) + ", "@;
            let t = field_or_empty(f, "title"@);
            (h + t).is_prefix_of(r)
        }),
{
    broadcast use lemma_prefix_of_add, lemma_prefix_extend;
}

proof fn ieee_opening_article<T: Formatter>(a: Seq<NameParts>, f: Map<Seq<char>, Seq<char>>)
    ensures
        ({
            let r = ieee_reference::<T>(EntryType::Article, a, f);
            let h = ieee_authors(a) + ", "@;
            let t = field_or_empty(f, "title"@);
            (h + "\""@ + t + ",\""@ + " "@ + T::italics_spec(field_or_empty(f, "journal"@) + ","@) + " vol. "@).is_prefix_of(r)
        }),
{
    broadcast use lemma_prefix_of_add, lemma_prefix_extend;

    let h = ieee_authors(a) + ", "@;
    let t = field_or_empty(f, "title"@);
    assert(h + "\""@ + t + ",\""@ + " "@ + T::italics_spec(field_or_empty(f, "journal"@) + ","@) + " vol. "@ =~= h + quoted(t) + " "@ + T::italics_spec(field_or_empty(f, "journal"@) + ","@) + " vol. "@);
}

proof fn ieee_opening_proceedings<T: Formatter>(a: Seq<NameParts>, f: Map<Seq<char>, Seq<char>>)
    ensures
        ({
            let r = ieee_reference::<T>(EntryType::Proceedings, a, f);
            let h = ieee_authors(a) + ", "@;
            let t = field_or_empty(f, "title"@);
            (ieee_authors(editors(f).unwrap()) + ", Eds., "@ + t + ", vol. "@).is_prefix_of(r)
        }),
{
    broadcast use lemma_prefix_of_add, lemma_prefix_extend;
}

/// How an IEEE reference opens, whatever the markup `T`: the authors, a
/// comma, then the title. Books, booklets and manuals set the title in `T`'s
/// italics; a conference paper sets it in quotes and in italics; the parts
/// of larger works, reports, theses, unpublished works and articles set it in
/// quotes, and an article follows it with its journal in italics; a `misc`
/// entry writes it as it is. Proceedings open with their editors, `Eds.`,
/// and the title as it is.
pub proof fn lemma_ieee_opening<T: Formatter>(kind: EntryType, a: Seq<NameParts>, f: Map<Seq<char>, Seq<char>>)
    ensures
        ({
            let r = ieee_reference::<T>(kind, a, f);
            let h = ieee_authors(a) + ", "@;
            let t = field_or_empty(f, "title"@);
            match kind {
                EntryType::Book => (h + T::italics_spec(t) + ". "@).is_prefix_of(r),
                EntryType::Booklet => (h + T::italics_spec(t) + ", "@).is_prefix_of(r),
                EntryType::Manual => (h + T::italics_spec(t) + ", "@).is_prefix_of(r),
                EntryType::Conference => (h + "\""@ + T::italics_spec(t) + ",\""@ + " in "@).is_prefix_of(r),
                EntryType::Inbook => (h + "\""@ + t + ",\""@ + " in "@).is_prefix_of(r),
                EntryType::Incollection => (h + "\""@ + t + ",\""@ + " in "@).is_prefix_of(r),
                EntryType::Inproceedings => (h + "\""@ + t + ",\""@ + " in "@).is_prefix_of(r),
                EntryType::Unpublished => (h + "\""@ + t + ",\""@ + " unpublished."@) == r,
                EntryType::Techreport => (h + "\""@ + t + ",\""@ + " "@).is_prefix_of(r),
                EntryType::Phdthesis => (h + "\""@ + t + ",\""@ + " "@ + "Ph.D. dissertation, "@).is_prefix_of(r),
                EntryType::Mastersthesis => (h + "\""@ + t + ",\""@ + " "@ + "M.S. thesis, "@).is_prefix_of(r),
                EntryType::Misc => (h + t).is_prefix_of(r),
                EntryType::Article => (h + "\""@ + t + ",\""@ + " "@ + T::italics_spec(field_or_empty(f, "journal"@) + ","@) + " vol. "@).is_prefix_of(r),
                EntryType::Proceedings => (ieee_authors(editors(f).unwrap()) + ", Eds., "@ + t + ", vol. "@).is_prefix_of(r),
            }
        }),
{
    match kind {
        EntryType::Book => ieee_opening_book::<T>(a, f),
        EntryType::Booklet => ieee_opening_booklet::<T>(a, f),
        EntryType::Manual => ieee_opening_manual::<T>(a, f),
        EntryType::Conference => ieee_opening_conference::<T>(a, f),
        EntryType::Inbook => ieee_opening_inbook::<T>(a, f),
        EntryType::Incollection => ieee_opening_incollection::<T>(a, f),
        EntryType::Inproceedings => ieee_opening_inproceedings::<T>(a, f),
        EntryType::Unpublished => ieee_opening_unpublished::<T>(a, f),
        EntryType::Techreport => ieee_opening_techreport::<T>(a, f),
        EntryType::Phdthesis => ieee_opening_phdthesis::<T>(a, f),
        EntryType::Mastersthesis => ieee_opening_mastersthesis::<T>(a, f),
        EntryType::Misc => ieee_opening_misc::<T>(a, f),
        EntryType::Article => ieee_opening_article::<T>(a, f),
        EntryType::Proceedings => ieee_opening_proceedings::<T>(a, f),
    }
}

/// An IEEE article with a URL ends with the link, marked up by `T` as a
/// link to the URL: `[Online]. Available: <link>.`
pub proof fn lemma_ieee_article_link<T: Formatter>(a: Seq<NameParts>, f: Map<Seq<char>, Seq<char>>)
    requires
        f.contains_key("url"@),
    ensures
        (" [Online]. Available: "@ + T::hyperlink_spec(f["url"@]) + "."@).is_suffix_of(
            ieee_reference::<T>(EntryType::Article, a, f),
        ),
{
    broadcast use lemma_suffix_of_add, lemma_suffix_extend, Seq::add_empty_right;

}

} // verus!
