//! Citation styles: a reference's text in the IEEE or APA style.
//!
//! A style writes names as initials of the first names and the last names
//! joined; it prints the fields of an entry in an order of its own. What a
//! style writes for an entry is stated by a spec function of the style.

pub mod apa;
pub mod dates;
pub mod ieee;

use crate::formaters::html::HtmlFormatter;
use crate::formaters::markdown::MarkdownFormatter;
use crate::formaters::plain::PlainTextFormatter;
use crate::parsing::entry::{names_parts, BibEntry, EntryModel, EntryType};
use crate::parsing::fields::BibFields;
use crate::parsing::names::{and_seperated_names, names_spec, string_views, NameParts, OwnedFullName};
use crate::parsing::text::{ascii_lowercase, is_ascii_text, lowercase, text_eq, to_lowercase};
use crate::Format;
use apa::ApaStylizer;
use ieee::IeeeStylizer;

use unicode_segmentation::UnicodeSegmentation;
use vstd::prelude::*;
use vstd::string::StringExecFns;

verus! {

broadcast use vstd::seq_lib::group_seq_properties;

/// `sep` between each two of the texts `ws`.
pub open spec fn join(ws: Seq<Seq<char>>, sep: Seq<char>) -> Seq<char>
    decreases ws.len(),
{
    if ws.len() == 0 {
        Seq::empty()
    } else if ws.len() == 1 {
        ws[0]
    } else {
        join(ws.drop_last(), sep) + sep + ws.last()
    }
}

/// The texts of `ws` with `sep` between each two.
pub fn join_words(ws: &Vec<String>, sep: &str) -> (r: String)
    ensures
        r@ == join(string_views(ws@), sep@),
{
    let ghost v = string_views(ws@);
    if ws.len() == 0 {
        return String::new();
    }
    let mut out = ws[0].clone();
    let mut i: usize = 1;
    proof {
        assert(v.take(1).drop_last() =~= Seq::<Seq<char>>::empty());
    }
    while i < ws.len()
        invariant
            1 <= i <= ws.len(),
            v == string_views(ws@),
            out@ == join(v.take(i as int), sep@),
        decreases ws.len() - i,
    {
        out.append(sep);
        out.append(ws[i].as_str());
        proof {
            assert(v.take(i + 1).drop_last() =~= v.take(i as int));
        }
        i = i + 1;
    }
    proof {
        assert(v.take(ws.len() as int) =~= v);
    }
    out
}

/// What `graphemes(true).next()` of unicode-segmentation gives for a text:
/// its first extended grapheme cluster.
pub uninterp spec fn first_grapheme_of(s: Seq<char>) -> Seq<char>;

/// `UnicodeSegmentation::graphemes(s, true).next()`: the first extended
/// grapheme cluster of a text that is not empty. Which characters form it is a
/// function of the text alone (UAX #29); what is stated here is that it is a
/// prefix of the text that is not empty, the whole of a text of one
/// character, and the first character alone when the first two are ASCII and
/// not a carriage return followed by a line feed (UAX #29 breaks between any
/// other two ASCII characters).
#[verifier::external_body]
fn first_grapheme(s: &str) -> (r: &str)
    requires
        s@.len() > 0,
    ensures
        r@ == first_grapheme_of(s@),
        0 < r@.len() <= s@.len(),
        r@ == s@.subrange(0, r@.len() as int),
        s@.len() == 1 ==> r@ == s@,
        s@.len() >= 2 && (s@[0] as u32) < 128 && (s@[1] as u32) < 128 && !(s@[0] == '\r' && s@[1] == '\n')
            ==> r@ == seq![s@[0]],
{
    s.graphemes(true).next().unwrap()
}

/// What is known of the first grapheme of a text that is not empty: a
/// prefix of it that is not empty, the whole of a text of one character, the
/// first character alone when the first two are ASCII and not a carriage
/// return followed by a line feed.
pub open spec fn first_grapheme_known(s: Seq<char>) -> bool {
    let g = first_grapheme_of(s);
    &&& 0 < g.len() <= s.len()
    &&& g == s.subrange(0, g.len() as int)
    &&& s.len() == 1 ==> g == s
    &&& s.len() >= 2 && (s[0] as u32) < 128 && (s[1] as u32) < 128 && !(s[0] == '\r' && s[1] == '\n') ==> g == seq![
        s[0],
    ]
}

/// Whether every first name of `n` has a first letter to abbreviate it by.
pub open spec fn has_initials(n: NameParts) -> bool {
    forall|j: int| 0 <= j < n.first.len() ==> (#[trigger] n.first[j]).len() > 0
}

/// Whether every name of `ns` has initials.
pub open spec fn names_ok(ns: Seq<NameParts>) -> bool {
    forall|i: int| 0 <= i < ns.len() ==> has_initials(#[trigger] ns[i])
}

/// Each text followed by a full stop.
pub open spec fn dotted(gs: Seq<Seq<char>>) -> Seq<Seq<char>> {
    gs.map_values(|g: Seq<char>| g + "."@)
}

/// The initials of the first names: the first grapheme of each with a full
/// stop, separated by spaces.
pub open spec fn initials(first: Seq<Seq<char>>) -> Seq<char> {
    join(dotted(first.map_values(|w: Seq<char>| first_grapheme_of(w))), " "@)
}

/// The first grapheme of each word.
pub fn first_graphemes(words: &Vec<String>) -> (r: Vec<&str>)
    requires
        forall|j: int| 0 <= j < words@.len() ==> (#[trigger] words@[j])@.len() > 0,
    ensures
        r@.len() == words@.len(),
        forall|j: int| 0 <= j < words@.len() ==> (#[trigger] r@[j])@ == first_grapheme_of(words@[j]@),
        forall|j: int| 0 <= j < words@.len() ==> first_grapheme_known(#[trigger] words@[j]@),
{
    let mut r: Vec<&str> = Vec::new();
    let mut i: usize = 0;
    while i < words.len()
        invariant
            i <= words.len(),
            forall|j: int| 0 <= j < words@.len() ==> (#[trigger] words@[j])@.len() > 0,
            r@.len() == i,
            forall|j: int| 0 <= j < i ==> (#[trigger] r@[j])@ == first_grapheme_of(words@[j]@),
            forall|j: int| 0 <= j < i ==> first_grapheme_known(#[trigger] words@[j]@),
        decreases words.len() - i,
    {
        r.push(first_grapheme(words[i].as_str()));
        i = i + 1;
    }
    r
}

/// Initials made of given first graphemes: each with a full stop, separated
/// by spaces.
pub fn initials_from(graphemes: &Vec<&str>) -> (r: String)
    ensures
        r@ == join(dotted(graphemes@.map_values(|g: &str| g@)), " "@),
{
    let mut parts: Vec<String> = Vec::new();
    let mut i: usize = 0;
    while i < graphemes.len()
        invariant
            i <= graphemes.len(),
            parts@.len() == i,
            forall|j: int| 0 <= j < i ==> (#[trigger] parts@[j])@ == graphemes@[j]@ + "."@,
        decreases graphemes.len() - i,
    {
        let mut p = String::from_str(graphemes[i]);
        p.append(".");
        parts.push(p);
        i = i + 1;
    }
    proof {
        assert(string_views(parts@) =~= dotted(graphemes@.map_values(|g: &str| g@)));
    }
    join_words(&parts, " ")
}

/// The initials of the first names of a name.
pub fn fmt_initials(first: &Vec<String>) -> (r: String)
    requires
        forall|j: int| 0 <= j < first@.len() ==> (#[trigger] first@[j])@.len() > 0,
    ensures
        r@ == initials(string_views(first@)),
        forall|j: int| 0 <= j < first@.len() ==> first_grapheme_known(#[trigger] first@[j]@),
{
    let gs = first_graphemes(first);
    proof {
        assert(gs@.map_values(|g: &str| g@) =~= string_views(first@).map_values(|w: Seq<char>| first_grapheme_of(w)));
    }
    initials_from(&gs)
}

/// A name as `Last, F. M.`: the last names, a comma when both parts are
/// there, the initials.
pub open spec fn last_then_initials(n: NameParts) -> Seq<char> {
    join(n.last, " "@) + (if n.last.len() > 0 && n.first.len() > 0 { ", "@ } else { Seq::empty() }) + initials(n.first)
}

/// A name as `F. M. Last`: the initials, a space when both parts are there,
/// the last names.
pub open spec fn initials_then_last(n: NameParts) -> Seq<char> {
    initials(n.first) + (if n.last.len() > 0 && n.first.len() > 0 { " "@ } else { Seq::empty() }) + join(n.last, " "@)
}

proof fn lemma_initials_ok(name: &OwnedFullName)
    requires
        has_initials(name.parts()),
    ensures
        forall|j: int| 0 <= j < name.first@.len() ==> (#[trigger] name.first@[j])@.len() > 0,
{
    assert forall|j: int| 0 <= j < name.first@.len() implies (#[trigger] name.first@[j])@.len() > 0 by {
        assert(name.parts().first[j] == name.first@[j]@);
    }
}

/// `name` as `Last, F. M.`.
pub fn fmt_last_then_initials(name: &OwnedFullName) -> (r: String)
    requires
        has_initials(name.parts()),
    ensures
        r@ == last_then_initials(name.parts()),
{
    proof {
        lemma_initials_ok(name);
    }
    let mut out = join_words(&name.last, " ");
    if name.last.len() > 0 && name.first.len() > 0 {
        out.append(", ");
    }
    let ini = fmt_initials(&name.first);
    out.append(ini.as_str());
    out
}

/// `name` as `F. M. Last`.
pub fn fmt_initials_then_last(name: &OwnedFullName) -> (r: String)
    requires
        has_initials(name.parts()),
    ensures
        r@ == initials_then_last(name.parts()),
{
    proof {
        lemma_initials_ok(name);
    }
    let mut out = fmt_initials(&name.first);
    if name.last.len() > 0 && name.first.len() > 0 {
        out.append(" ");
    }
    let last = join_words(&name.last, " ");
    out.append(last.as_str());
    out
}

/// Each name of `ns[from..to]`, `Last, F. M.` if `last_first`, else
/// `F. M. Last`.
pub open spec fn each_name(ns: Seq<NameParts>, last_first: bool) -> Seq<Seq<char>> {
    ns.map_values(|n: NameParts| if last_first { last_then_initials(n) } else { initials_then_last(n) })
}

/// The names `names[from..to]`, each formatted.
pub fn fmt_names(names: &Vec<OwnedFullName>, from: usize, to: usize, last_first: bool) -> (r: Vec<String>)
    requires
        from <= to <= names@.len(),
        names_ok(names_parts(names@).subrange(from as int, to as int)),
    ensures
        string_views(r@) == each_name(names_parts(names@).subrange(from as int, to as int), last_first),
{
    let ghost ps = names_parts(names@);
    let mut r: Vec<String> = Vec::new();
    let mut i: usize = from;
    while i < to
        invariant
            from <= i <= to <= names@.len(),
            ps == names_parts(names@),
            names_ok(ps.subrange(from as int, to as int)),
            string_views(r@) == each_name(ps.subrange(from as int, i as int), last_first),
        decreases to - i,
    {
        assert(has_initials(ps.subrange(from as int, to as int)[i - from]));
        let s = if last_first {
            fmt_last_then_initials(&names[i])
        } else {
            fmt_initials_then_last(&names[i])
        };
        let ghost before = r@;
        r.push(s);
        proof {
            let sub = ps.subrange(from as int, i as int);
            assert(ps.subrange(from as int, i + 1) =~= sub.push(ps[i as int]));
            assert(each_name(sub.push(ps[i as int]), last_first) =~= each_name(sub, last_first).push(s@));
            assert(string_views(r@) =~= string_views(before).push(s@));
        }
        i = i + 1;
    }
    r
}

/// The value of field `k`, if there is one.
pub open spec fn field(f: Map<Seq<char>, Seq<char>>, k: Seq<char>) -> Option<Seq<char>> {
    if f.contains_key(k) {
        Some(f[k])
    } else {
        None
    }
}

/// The value of field `k`, or nothing.
pub open spec fn field_or_empty(f: Map<Seq<char>, Seq<char>>, k: Seq<char>) -> Seq<char> {
    if f.contains_key(k) {
        f[k]
    } else {
        Seq::empty()
    }
}

/// The text of an optional string.
pub open spec fn opt_view(o: Option<&String>) -> Option<Seq<char>> {
    match o {
        Some(s) => Some(s@),
        None => None,
    }
}

/// The field `key` of `fields`, if there is one.
pub fn lookup<'a>(fields: &'a BibFields, key: &str) -> (r: Option<&'a String>)
    ensures
        opt_view(r) == field(fields@, key@),
{
    fields.get(key)
}

/// The value of field `key`, which `fields` has.
pub fn required<'a>(fields: &'a BibFields, key: &str) -> (r: &'a String)
    requires
        fields@.contains_key(key@),
    ensures
        r@ == fields@[key@],
{
    fields.get(key).unwrap()
}

/// The value of field `key`, or an empty string.
pub fn value_or_empty(fields: &BibFields, key: &str) -> (r: String)
    ensures
        r@ == field_or_empty(fields@, key@),
{
    match fields.get(key) {
        Some(v) => v.clone(),
        None => String::new(),
    }
}

/// The names of the `editor` field (read as an empty text when it is
/// missing), if they can be read.
pub open spec fn editors(f: Map<Seq<char>, Seq<char>>) -> Option<Seq<NameParts>> {
    match names_spec(field_or_empty(f, "editor"@), 0) {
        Some((_, ns)) => Some(ns),
        None => None,
    }
}

/// The names of the `editor` field, if they can be read.
pub fn editor_names(fields: &BibFields) -> (r: Option<Vec<OwnedFullName>>)
    ensures
        match (r, editors(fields@)) {
            (Some(v), Some(ns)) => names_parts(v@) == ns,
            (None, None) => true,
            _ => false,
        },
{
    let text = value_or_empty(fields, "editor");
    match and_seperated_names(text.as_str()) {
        Ok((_, ns)) => {
            let mut v: Vec<OwnedFullName> = Vec::new();
            let mut j: usize = 0;
            while j < ns.len()
                invariant
                    j <= ns.len(),
                    v@.len() == j,
                    forall|m: int| 0 <= m < j ==> #[trigger] v@[m].parts() == ns@[m].parts(),
                decreases ns.len() - j,
            {
                v.push(OwnedFullName::from_name(&ns[j]));
                j = j + 1;
            }
            proof {
                let sp = names_spec(text@, 0).unwrap().1;
                assert(names_parts(v@) =~= sp);
            }
            Some(v)
        },
        Err(_) => None,
    }
}

/// Whether every name of `names[from..to]` has initials.
pub fn check_names_range(names: &Vec<OwnedFullName>, from: usize, to: usize) -> (b: bool)
    requires
        from <= to <= names@.len(),
    ensures
        b == names_ok(names_parts(names@).subrange(from as int, to as int)),
{
    let ghost ps = names_parts(names@);
    let mut i: usize = from;
    while i < to
        invariant
            from <= i <= to <= names@.len(),
            ps == names_parts(names@),
            forall|k: int| from <= k < i ==> has_initials(#[trigger] ps[k]),
        decreases to - i,
    {
        let first = &names[i].first;
        let ghost p = ps[i as int];
        assert(p == names@[i as int].parts());
        let mut j: usize = 0;
        while j < first.len()
            invariant
                j <= first.len(),
                from <= i < to <= names@.len(),
                p == ps[i as int],
                ps == names_parts(names@),
                p.first == string_views(first@),
                forall|m: int| 0 <= m < j ==> (#[trigger] first@[m])@.len() > 0,
            decreases first.len() - j,
        {
            if first[j].as_str().unicode_len() == 0 {
                proof {
                    assert(p.first[j as int].len() == 0);
                    assert(!has_initials(ps.subrange(from as int, to as int)[i - from]));
                }
                return false;
            }
            j = j + 1;
        }
        proof {
            assert forall|m: int| 0 <= m < p.first.len() implies (#[trigger] p.first[m]).len() > 0 by {
                assert(p.first[m] == first@[m]@);
            }
        }
        i = i + 1;
    }
    proof {
        assert forall|k: int| 0 <= k < to - from implies has_initials(#[trigger] ps.subrange(from as int, to as int)[k]) by {
            assert(ps.subrange(from as int, to as int)[k] == ps[from + k]);
        }
    }
    true
}

/// Whether every name has initials.
pub fn check_names(names: &Vec<OwnedFullName>) -> (b: bool)
    ensures
        b == names_ok(names_parts(names@)),
{
    let b = check_names_range(names, 0, names.len());
    assert(names_parts(names@).subrange(0, names@.len() as int) =~= names_parts(names@));
    b
}

/// The kinds of thesis.
#[derive(Debug, Clone, Copy, PartialEq, Eq, Structural)]
pub enum ThesisKind {
    Phd,
    Msc,
}

/// The kind of entry of a thesis.
pub open spec fn thesis_entry(kind: ThesisKind) -> EntryType {
    match kind {
        ThesisKind::Phd => EntryType::Phdthesis,
        ThesisKind::Msc => EntryType::Mastersthesis,
    }
}

/// A citation style: how it writes names, dates, and each kind of entry.
pub trait Stylizer {
    /// Whether the style can write an entry of this kind with these authors
    /// and fields.
    spec fn can_format(kind: EntryType, authors: Seq<NameParts>, fields: Map<Seq<char>, Seq<char>>) -> bool;

    /// The reference that the style writes for an entry.
    spec fn reference(kind: EntryType, authors: Seq<NameParts>, fields: Map<Seq<char>, Seq<char>>) -> Seq<char>;

    /// How the style writes a list of authors.
    spec fn authors_text(authors: Seq<NameParts>) -> Seq<char>;

    /// Whether the style can write a list of authors: the names it writes out
    /// have initials.
    spec fn authors_ok(authors: Seq<NameParts>) -> bool;

    /// How the style writes a year and a month.
    spec fn year_month_text(year: Option<Seq<char>>, month: Option<Seq<char>>) -> Seq<char>;

    /// A proceedings has editors in place of authors: what is written of it
    /// does not depend on the authors.
    proof fn lemma_proceedings_authors(authors: Seq<NameParts>, fields: Map<Seq<char>, Seq<char>>)
        ensures
            Self::can_format(EntryType::Proceedings, authors, fields) == Self::can_format(EntryType::Proceedings, Seq::empty(), fields),
            Self::reference(EntryType::Proceedings, authors, fields) == Self::reference(EntryType::Proceedings, Seq::empty(), fields),
    ;

    fn fmt_unpublished(&self, authors: Vec<OwnedFullName>, fields: BibFields) -> (r: String)
        requires
            Self::can_format(EntryType::Unpublished, names_parts(authors@), fields@),
        ensures
            r@ == Self::reference(EntryType::Unpublished, names_parts(authors@), fields@),
    ;

    fn fmt_techreport(&self, authors: Vec<OwnedFullName>, fields: BibFields) -> (r: String)
        requires
            Self::can_format(EntryType::Techreport, names_parts(authors@), fields@),
        ensures
            r@ == Self::reference(EntryType::Techreport, names_parts(authors@), fields@),
    ;

    fn fmt_proceedings(&self, fields: BibFields) -> (r: String)
        requires
            Self::can_format(EntryType::Proceedings, Seq::empty(), fields@),
        ensures
            r@ == Self::reference(EntryType::Proceedings, Seq::empty(), fields@),
    ;

    fn fmt_thesis(&self, kind: ThesisKind, authors: Vec<OwnedFullName>, fields: BibFields) -> (r: String)
        requires
            Self::can_format(thesis_entry(kind), names_parts(authors@), fields@),
        ensures
            r@ == Self::reference(thesis_entry(kind), names_parts(authors@), fields@),
    ;

    fn fmt_misc(&self, authors: Vec<OwnedFullName>, fields: BibFields) -> (r: String)
        requires
            Self::can_format(EntryType::Misc, names_parts(authors@), fields@),
        ensures
            r@ == Self::reference(EntryType::Misc, names_parts(authors@), fields@),
    ;

    fn fmt_manual(&self, authors: Vec<OwnedFullName>, fields: BibFields) -> (r: String)
        requires
            Self::can_format(EntryType::Manual, names_parts(authors@), fields@),
        ensures
            r@ == Self::reference(EntryType::Manual, names_parts(authors@), fields@),
    ;

    fn fmt_inproceedings(&self, authors: Vec<OwnedFullName>, fields: BibFields) -> (r: String)
        requires
            Self::can_format(EntryType::Inproceedings, names_parts(authors@), fields@),
        ensures
            r@ == Self::reference(EntryType::Inproceedings, names_parts(authors@), fields@),
    ;

    fn fmt_incollection(&self, authors: Vec<OwnedFullName>, fields: BibFields) -> (r: String)
        requires
            Self::can_format(EntryType::Incollection, names_parts(authors@), fields@),
        ensures
            r@ == Self::reference(EntryType::Incollection, names_parts(authors@), fields@),
    ;

    fn fmt_inbook(&self, authors: Vec<OwnedFullName>, fields: BibFields) -> (r: String)
        requires
            Self::can_format(EntryType::Inbook, names_parts(authors@), fields@),
        ensures
            r@ == Self::reference(EntryType::Inbook, names_parts(authors@), fields@),
    ;

    fn fmt_conference(&self, authors: Vec<OwnedFullName>, fields: BibFields) -> (r: String)
        requires
            Self::can_format(EntryType::Conference, names_parts(authors@), fields@),
        ensures
            r@ == Self::reference(EntryType::Conference, names_parts(authors@), fields@),
    ;

    fn fmt_booklet(&self, authors: Vec<OwnedFullName>, fields: BibFields) -> (r: String)
        requires
            Self::can_format(EntryType::Booklet, names_parts(authors@), fields@),
        ensures
            r@ == Self::reference(EntryType::Booklet, names_parts(authors@), fields@),
    ;

    fn fmt_book(&self, authors: Vec<OwnedFullName>, fields: BibFields) -> (r: String)
        requires
            Self::can_format(EntryType::Book, names_parts(authors@), fields@),
        ensures
            r@ == Self::reference(EntryType::Book, names_parts(authors@), fields@),
    ;

    fn fmt_article(&self, authors: Vec<OwnedFullName>, fields: BibFields) -> (r: String)
        requires
            Self::can_format(EntryType::Article, names_parts(authors@), fields@),
        ensures
            r@ == Self::reference(EntryType::Article, names_parts(authors@), fields@),
    ;

    fn fmt_year_month(&self, year: Option<&String>, month: Option<&String>) -> (r: String)
        requires
            dates::year_month_ok(opt_view(year), opt_view(month)),
        ensures
            r@ == Self::year_month_text(opt_view(year), opt_view(month)),
    ;

    fn fmt_authors(&self, authors: Vec<OwnedFullName>) -> (r: String)
        requires
            Self::authors_ok(names_parts(authors@)),
        ensures
            r@ == Self::authors_text(names_parts(authors@)),
    ;

    /// The reference of an entry, written by the method for its kind.
    fn fmt_reference(&self, entry: BibEntry) -> (r: String)
        requires
            Self::can_format(entry.kind, names_parts(entry.authors@), entry.fields@),
        ensures
            r@ == Self::reference(entry.kind, names_parts(entry.authors@), entry.fields@),
    {
        let (kind, _key, authors, fields) = entry.into_components();
        match kind {
            EntryType::Article => self.fmt_article(authors, fields),
            EntryType::Book => self.fmt_book(authors, fields),
            EntryType::Booklet => self.fmt_booklet(authors, fields),
            EntryType::Conference => self.fmt_conference(authors, fields),
            EntryType::Inbook => self.fmt_inbook(authors, fields),
            EntryType::Incollection => self.fmt_incollection(authors, fields),
            EntryType::Inproceedings => self.fmt_inproceedings(authors, fields),
            EntryType::Manual => self.fmt_manual(authors, fields),
            EntryType::Mastersthesis => self.fmt_thesis(ThesisKind::Msc, authors, fields),
            EntryType::Misc => self.fmt_misc(authors, fields),
            EntryType::Phdthesis => self.fmt_thesis(ThesisKind::Phd, authors, fields),
            EntryType::Proceedings => {
                proof {
                    Self::lemma_proceedings_authors(names_parts(authors@), fields@);
                }
                self.fmt_proceedings(fields)
            },
            EntryType::Techreport => self.fmt_techreport(authors, fields),
            EntryType::Unpublished => self.fmt_unpublished(authors, fields),
        }
    }
}

/// The citation styles.
#[derive(Debug, Clone, Copy, PartialEq, Eq, Structural)]
pub enum ReferenceStyle {
    IEEE,
    APA,
}

impl Default for ReferenceStyle {
    fn default() -> (r: Self)
        ensures
            r == ReferenceStyle::IEEE,
    {
        ReferenceStyle::IEEE
    }
}

/// A name that is not one of the styles.
#[derive(Debug, Clone, Copy, PartialEq, Eq, Structural)]
pub struct InvalidStyle;

impl InvalidStyle {
    /// What went wrong, in words.
    pub fn message(&self) -> (r: &'static str)
        ensures
            r@ == "invalid style"@,
    {
        "invalid style"
    }
}

/// The style that a lower case name stands for.
pub open spec fn style_named(s: Seq<char>) -> Option<ReferenceStyle> {
    if s == "ieee"@ {
        Some(ReferenceStyle::IEEE)
    } else if s == "apa"@ {
        Some(ReferenceStyle::APA)
    } else {
        None
    }
}

/// Whether `style` can write an entry.
pub open spec fn style_can_format(
    style: ReferenceStyle,
    kind: EntryType,
    authors: Seq<NameParts>,
    fields: Map<Seq<char>, Seq<char>>,
) -> bool {
    match style {
        ReferenceStyle::IEEE => ieee::ieee_can_format(kind, authors, fields),
        ReferenceStyle::APA => apa::apa_can_format(kind, authors, fields),
    }
}

/// The reference that `style` writes for an entry, in `format`.
pub open spec fn style_reference(
    style: ReferenceStyle,
    format: Format,
    kind: EntryType,
    authors: Seq<NameParts>,
    fields: Map<Seq<char>, Seq<char>>,
) -> Seq<char> {
    match (style, format) {
        (ReferenceStyle::IEEE, Format::Plain) => ieee::ieee_reference::<PlainTextFormatter>(kind, authors, fields),
        (ReferenceStyle::IEEE, Format::Markdown) => ieee::ieee_reference::<MarkdownFormatter>(kind, authors, fields),
        (ReferenceStyle::IEEE, Format::Html) => ieee::ieee_reference::<HtmlFormatter>(kind, authors, fields),
        (ReferenceStyle::APA, Format::Plain) => apa::apa_reference::<PlainTextFormatter>(kind, authors, fields),
        (ReferenceStyle::APA, Format::Markdown) => apa::apa_reference::<MarkdownFormatter>(kind, authors, fields),
        (ReferenceStyle::APA, Format::Html) => apa::apa_reference::<HtmlFormatter>(kind, authors, fields),
    }
}

/// Whether `style` can write the entry `e`.
pub open spec fn entry_can_format(style: ReferenceStyle, e: EntryModel) -> bool {
    style_can_format(style, e.kind, e.authors, e.fields)
}

/// The reference that `style` writes for the entry `e`, in `format`.
pub open spec fn entry_reference(style: ReferenceStyle, format: Format, e: EntryModel) -> Seq<char> {
    style_reference(style, format, e.kind, e.authors, e.fields)
}

/// An entry's reference does not depend on its key.
pub proof fn lemma_reference_ignores_key(style: ReferenceStyle, format: Format, e: EntryModel, key: Seq<char>)
    ensures
        entry_reference(style, format, EntryModel { key, ..e }) == entry_reference(style, format, e),
        entry_can_format(style, EntryModel { key, ..e }) == entry_can_format(style, e),
{
}

impl ReferenceStyle {
    /// The style named `value`, in any case of its letters.
    pub fn try_from(value: &str) -> (r: Result<ReferenceStyle, InvalidStyle>)
        ensures
            match style_named(lowercase(value@)) {
                Some(s) => r == Ok::<ReferenceStyle, InvalidStyle>(s),
                None => r is Err,
            },
            is_ascii_text(value@) ==> match style_named(ascii_lowercase(value@)) {
                Some(s) => r == Ok::<ReferenceStyle, InvalidStyle>(s),
                None => r is Err,
            },
    {
        let low = to_lowercase(value);
        ReferenceStyle::from_lowercase(low.as_str())
    }

    /// The style of a lower case name: `ieee` or `apa`.
    pub fn from_lowercase(name: &str) -> (r: Result<ReferenceStyle, InvalidStyle>)
        ensures
            match style_named(name@) {
                Some(s) => r == Ok::<ReferenceStyle, InvalidStyle>(s),
                None => r is Err,
            },
    {
        if text_eq(name, "ieee") {
            Ok(ReferenceStyle::IEEE)
        } else if text_eq(name, "apa") {
            Ok(ReferenceStyle::APA)
        } else {
            Err(InvalidStyle)
        }
    }

    /// Whether the style can write `entry`: the fields it cannot do without
    /// are there, the names it abbreviates have initials, and the dates it
    /// prints can be read.
    pub fn can_format(&self, entry: &BibEntry) -> (b: bool)
        ensures
            b == entry_can_format(*self, entry.model()),
    {
        match self {
            ReferenceStyle::IEEE => ieee::ieee_check(entry.kind, &entry.authors, &entry.fields),
            ReferenceStyle::APA => apa::apa_check(entry.kind, &entry.authors, &entry.fields),
        }
    }

    /// The reference of `entry` in this style and `format`, if the style can
    /// write it; `None` where it cannot.
    pub fn try_fmt_reference(&self, entry: BibEntry, format: Format) -> (r: Option<String>)
        ensures
            (r is Some) == entry_can_format(*self, entry.model()),
            r matches Some(t) ==> t@ == entry_reference(*self, format, entry.model()),
    {
        if self.can_format(&entry) {
            Some(self.fmt_reference(entry, format))
        } else {
            None
        }
    }

    /// The reference of `entry` in this style and `format`.
    pub fn fmt_reference(&self, entry: BibEntry, format: Format) -> (r: String)
        requires
            entry_can_format(*self, entry.model()),
        ensures
            r@ == entry_reference(*self, format, entry.model()),
    {
        let ghost (k, a, f) = (entry.kind, names_parts(entry.authors@), entry.fields@);
        match (self, format) {
            (ReferenceStyle::IEEE, Format::Plain) => {
                let st = IeeeStylizer::new(PlainTextFormatter);
                assert(IeeeStylizer::<PlainTextFormatter>::can_format(k, a, f));
                let r = st.fmt_reference(entry);
                assert(r@ == ieee::ieee_reference::<PlainTextFormatter>(k, a, f));
                r
            },
            (ReferenceStyle::IEEE, Format::Markdown) => {
                let st = IeeeStylizer::new(MarkdownFormatter);
                assert(IeeeStylizer::<MarkdownFormatter>::can_format(k, a, f));
                let r = st.fmt_reference(entry);
                assert(r@ == ieee::ieee_reference::<MarkdownFormatter>(k, a, f));
                r
            },
            (ReferenceStyle::IEEE, Format::Html) => {
                let st = IeeeStylizer::new(HtmlFormatter);
                assert(IeeeStylizer::<HtmlFormatter>::can_format(k, a, f));
                let r = st.fmt_reference(entry);
                assert(r@ == ieee::ieee_reference::<HtmlFormatter>(k, a, f));
                r
            },
            (ReferenceStyle::APA, Format::Plain) => {
                let st = ApaStylizer::new(PlainTextFormatter);
                assert(ApaStylizer::<PlainTextFormatter>::can_format(k, a, f));
                let r = st.fmt_reference(entry);
                assert(r@ == apa::apa_reference::<PlainTextFormatter>(k, a, f));
                r
            },
            (ReferenceStyle::APA, Format::Markdown) => {
                let st = ApaStylizer::new(MarkdownFormatter);
                assert(ApaStylizer::<MarkdownFormatter>::can_format(k, a, f));
                let r = st.fmt_reference(entry);
                assert(r@ == apa::apa_reference::<MarkdownFormatter>(k, a, f));
                r
            },
            (ReferenceStyle::APA, Format::Html) => {
                let st = ApaStylizer::new(HtmlFormatter);
                assert(ApaStylizer::<HtmlFormatter>::can_format(k, a, f));
                let r = st.fmt_reference(entry);
                assert(r@ == apa::apa_reference::<HtmlFormatter>(k, a, f));
                r
            },
        }
    }
}

/// A text begins with itself.
pub broadcast proof fn lemma_prefix_of_add(p: Seq<char>, q: Seq<char>)
    ensures
        #[trigger] p.is_prefix_of(p + q),
{
    assert(p =~= (p + q).subrange(0, p.len() as int));
}

/// What begins a text also begins that text with more after it.
pub broadcast proof fn lemma_prefix_extend(p: Seq<char>, s: Seq<char>, q: Seq<char>)
    requires
        p.is_prefix_of(s),
    ensures
        #[trigger] p.is_prefix_of(s + q),
{
    assert((s + q).subrange(0, p.len() as int) =~= s.subrange(0, p.len() as int));
}

/// A text ends with itself.
pub broadcast proof fn lemma_suffix_of_add(p: Seq<char>, q: Seq<char>)
    ensures
        #[trigger] q.is_suffix_of(p + q),
{
    assert(q =~= (p + q).subrange(p.len() as int, (p + q).len() as int));
}

/// What ends a text also ends that text with more before it.
pub broadcast proof fn lemma_suffix_extend(x: Seq<char>, p: Seq<char>, q: Seq<char>)
    requires
        x.is_suffix_of(q),
    ensures
        #[trigger] x.is_suffix_of(p + q),
{
    assert((p + q).subrange((p + q).len() - x.len(), (p + q).len() as int) =~= q.subrange(
        q.len() - x.len(),
        q.len() as int,
    ));
}

} // verus!
