//! BibTeX entries: `@kind{key, name = value, ...}`, and `\cite{key}` in text.

use super::fields::BibFields;
use super::names::{
    and_seperated_names, delimited_spec, names_spec, NameParts, OwnedFullName,
};
use super::text::{
    chars_of, find, find_from, first_tag, lemma_find_from, lemma_first_tag, lemma_span,
    lemma_unbalanced_end, span, span_end, starts_with, starts_with_at, tag_no_case,
    tag_no_case_at, take_until_unbalanced, text_eq, unbalanced_end, CharClass, ascii_lowercase, is_ascii_text,
};
pub use crate::ops::bibligraphy::Bibliography;
use vstd::prelude::*;
use vstd::string::StrSliceExecFns;

verus! {

broadcast use vstd::seq_lib::group_seq_properties;

/// The kinds of BibTeX entries.
#[derive(Debug, PartialEq, Eq, Clone, Copy)]
pub enum EntryType {
    Article,
    Book,
    Booklet,
    Conference,
    Inbook,
    Incollection,
    Inproceedings,
    Manual,
    Mastersthesis,
    Misc,
    Phdthesis,
    Proceedings,
    Techreport,
    Unpublished,
}

/// Why a text could not be read as BibTeX.
#[derive(Debug, PartialEq, Eq, Clone, Copy)]
pub enum BibError {
    /// The text does not follow the grammar of entries.
    Syntax,
    /// An entry's kind is written with capital letters (such as `@Book`).
    EntryTypeCase,
    /// The `author` field of an entry does not hold a list of names.
    Authors,
}

// ----- the grammar -----

/// The kinds of entries, in the order in which they are tried.
pub open spec fn entry_tags() -> Seq<Seq<char>> {
    seq![
        "article"@, "booklet"@, "conference"@, "inbook"@, "book"@, "incollection"@,
        "inproceedings"@, "manual"@, "mastersthesis"@, "misc"@, "phdthesis"@, "proceedings"@,
        "techreport"@, "unpublished"@,
    ]
}

/// The kind that the `k`th of `entry_tags` names.
pub open spec fn kind_of(k: int) -> EntryType {
    if k == 0 {
        EntryType::Article
    } else if k == 1 {
        EntryType::Booklet
    } else if k == 2 {
        EntryType::Conference
    } else if k == 3 {
        EntryType::Inbook
    } else if k == 4 {
        EntryType::Book
    } else if k == 5 {
        EntryType::Incollection
    } else if k == 6 {
        EntryType::Inproceedings
    } else if k == 7 {
        EntryType::Manual
    } else if k == 8 {
        EntryType::Mastersthesis
    } else if k == 9 {
        EntryType::Misc
    } else if k == 10 {
        EntryType::Phdthesis
    } else if k == 11 {
        EntryType::Proceedings
    } else if k == 12 {
        EntryType::Techreport
    } else {
        EntryType::Unpublished
    }
}

/// The names of the fields that an entry can hold, in the order in which they
/// are tried.
pub open spec fn field_tags() -> Seq<Seq<char>> {
    seq![
        "address"@, "annote"@, "author"@, "booktitle"@, "chapter"@, "edition"@, "editor"@,
        "howpublished"@, "institution"@, "journal"@, "month"@, "note"@, "number"@,
        "organization"@, "pages"@, "publisher"@, "school"@, "series"@, "title"@, "type"@,
        "volume"@, "year"@, "doi"@, "issn"@, "isbn"@, "url"@,
    ]
}

/// What reading an entry kind gives.
pub enum KindOutcome {
    /// No kind starts here.
    NoMatch,
    /// A kind starts here, but not in lower case.
    Miscased,
    /// The kind, and where its name ends.
    Found(EntryType, int),
}

/// An entry kind at `i`: the first of `entry_tags` that `s[i..]` starts with in
/// any case, which must be written in lower case.
pub open spec fn entry_type_spec(s: Seq<char>, i: int) -> KindOutcome {
    match first_tag(s, i, entry_tags(), 0) {
        None => KindOutcome::NoMatch,
        Some(k) => if starts_with_at(s, i, entry_tags()[k]) {
            KindOutcome::Found(kind_of(k), i + entry_tags()[k].len())
        } else {
            KindOutcome::Miscased
        },
    }
}

/// A field name at `i`: the first of `field_tags` that `s[i..]` starts with in
/// any case; the name is the text as written.
pub open spec fn field_type_spec(s: Seq<char>, i: int) -> Option<(int, Seq<char>)> {
    match first_tag(s, i, field_tags(), 0) {
        None => None,
        Some(k) => Some((i + field_tags()[k].len(), s.subrange(i, i + field_tags()[k].len()))),
    }
}

/// `{...}` with balanced braces inside; the value is what is inside.
pub open spec fn brace_field_spec(s: Seq<char>, i: int) -> Option<(int, Seq<char>)> {
    if 0 <= i < s.len() && s[i] == '{' {
        match unbalanced_end(s, i + 1, 0) {
            Some(e) => if e < s.len() {
                Some((e + 1, s.subrange(i + 1, e)))
            } else {
                None
            },
            None => None,
        }
    } else {
        None
    }
}

/// `"..."`; the value is what is inside.
pub open spec fn quote_field_spec(s: Seq<char>, i: int) -> Option<(int, Seq<char>)> {
    delimited_spec(s, i, '"', CharClass::NotQuote)
}

/// A bare value: everything up to the next `,` or `}` is read, and the value
/// is that text up to its first space or tab (as a byte, see `is_space_byte`).
pub open spec fn unquoted_field_spec(s: Seq<char>, i: int) -> (int, Seq<char>) {
    let e = span_end(s, i, CharClass::NotCommaOrBrace);
    let v = span_end(s, i, CharClass::NotSpaceByte);
    (e, s.subrange(i, if v < e { v } else { e }))
}

/// A value: braced, else quoted, else bare.
pub open spec fn field_value_spec(s: Seq<char>, i: int) -> (int, Seq<char>) {
    match brace_field_spec(s, i) {
        Some(r) => r,
        None => match quote_field_spec(s, i) {
            Some(r) => r,
            None => unquoted_field_spec(s, i),
        },
    }
}

/// `name = value`, with any white space around `=`.
pub open spec fn field_spec(s: Seq<char>, i: int) -> Option<(int, (Seq<char>, Seq<char>))> {
    match field_type_spec(s, i) {
        Some((j, name)) => {
            let k = span_end(s, j, CharClass::MultiSpace);
            if 0 <= k < s.len() && s[k] == '=' {
                let r = field_value_spec(s, span_end(s, k + 1, CharClass::MultiSpace));
                Some((r.0, (name, r.1)))
            } else {
                None
            }
        },
        None => None,
    }
}

/// A field with any white space around it.
pub open spec fn element_spec(s: Seq<char>, i: int) -> Option<(int, (Seq<char>, Seq<char>))> {
    match field_spec(s, span_end(s, i, CharClass::MultiSpace)) {
        Some((e, f)) => Some((span_end(s, e, CharClass::MultiSpace), f)),
        None => None,
    }
}

/// The separator between two fields: a comma with any white space around it.
/// (A line break after white space cannot occur: the white space takes it.)
pub open spec fn field_sep_spec(s: Seq<char>, i: int) -> Option<int> {
    let a = span_end(s, i, CharClass::MultiSpace);
    if 0 <= a < s.len() && s[a] == ',' {
        Some(span_end(s, a + 1, CharClass::MultiSpace))
    } else {
        None
    }
}

/// The fields after the first one, each after a separator.
pub open spec fn more_fields_spec(s: Seq<char>, i: int) -> (int, Seq<(Seq<char>, Seq<char>)>)
    decreases s.len() - i,
{
    if 0 <= i <= s.len() {
        match field_sep_spec(s, i) {
            Some(k) => match element_spec(s, k) {
                Some((e, f)) => {
                    proof {
                        lemma_field_sep(s, i);
                        lemma_element_bounds(s, k);
                    }
                    let r = more_fields_spec(s, e);
                    (r.0, seq![f] + r.1)
                },
                None => (i, seq![]),
            },
            None => (i, seq![]),
        }
    } else {
        (i, seq![])
    }
}

/// One or more fields separated by commas.
pub open spec fn fields_spec(s: Seq<char>, i: int) -> Option<(int, Seq<(Seq<char>, Seq<char>)>)> {
    match element_spec(s, i) {
        Some((e, f)) => {
            let r = more_fields_spec(s, e);
            Some((r.0, seq![f] + r.1))
        },
        None => None,
    }
}

/// The key of an entry: the text of `content` before its first comma, which
/// must not be empty; the result is where the comma ends and the key.
pub open spec fn entry_key_spec(content: Seq<char>) -> Option<(int, Seq<char>)> {
    let k = span_end(content, 0, CharClass::NotComma);
    if 0 < k < content.len() {
        Some((k + 1, content.subrange(0, k)))
    } else {
        None
    }
}

/// `{...}` with balanced braces inside, at `j`; the result is where it ends
/// and where its inside ends.
pub open spec fn entry_content_spec(s: Seq<char>, j: int) -> Option<(int, int)> {
    if 0 <= j < s.len() && s[j] == '{' {
        match unbalanced_end(s, j + 1, 0) {
            Some(c) => if c < s.len() {
                Some((c + 1, c))
            } else {
                None
            },
            None => None,
        }
    } else {
        None
    }
}

/// An entry as read: its kind, its key and its fields in the order written.
pub struct RawEntry {
    pub kind: EntryType,
    pub key: Seq<char>,
    pub fields: Seq<(Seq<char>, Seq<char>)>,
}

/// What reading an entry gives.
pub enum EntryOutcome {
    /// No entry starts here.
    Fail,
    /// An entry starts here whose kind is not in lower case.
    Miscased,
    /// The entry, and where it ends (white space after it included).
    Found(int, RawEntry),
}

/// `@kind{key, fields}` after any white space, and any white space after it.
/// Whatever follows the fields inside the braces is not read.
pub open spec fn entry_spec(s: Seq<char>, i: int) -> EntryOutcome {
    let a = span_end(s, i, CharClass::MultiSpace);
    if 0 <= a < s.len() && s[a] == '@' {
        match entry_type_spec(s, a + 1) {
            KindOutcome::NoMatch => EntryOutcome::Fail,
            KindOutcome::Miscased => EntryOutcome::Miscased,
            KindOutcome::Found(kind, j) => match entry_content_spec(s, j) {
                Some((t, c)) => {
                    let content = s.subrange(j + 1, c);
                    match entry_key_spec(content) {
                        Some((k, key)) => match fields_spec(content, k) {
                            Some((_, fs)) => EntryOutcome::Found(
                                span_end(s, t, CharClass::MultiSpace),
                                RawEntry { kind, key, fields: fs },
                            ),
                            None => EntryOutcome::Fail,
                        },
                        None => EntryOutcome::Fail,
                    }
                },
                None => EntryOutcome::Fail,
            },
        }
    } else {
        EntryOutcome::Fail
    }
}

// ----- bounds -----

/// A separator ends after where it starts, within the text.
pub proof fn lemma_field_sep(s: Seq<char>, i: int)
    requires
        0 <= i <= s.len(),
    ensures
        field_sep_spec(s, i) matches Some(k) ==> i < k <= s.len(),
{
    lemma_span(s, i, CharClass::MultiSpace);
    let a = span_end(s, i, CharClass::MultiSpace);
    if 0 <= a < s.len() && s[a] == ',' {
        lemma_span(s, a + 1, CharClass::MultiSpace);
    }
}

/// The pieces of a field end within the text, after where they start.
pub proof fn lemma_element_bounds(s: Seq<char>, i: int)
    requires
        0 <= i <= s.len(),
    ensures
        field_type_spec(s, i) matches Some((e, _)) ==> i <= e <= s.len(),
        brace_field_spec(s, i) matches Some((e, _)) ==> i < e <= s.len(),
        quote_field_spec(s, i) matches Some((e, _)) ==> i < e <= s.len(),
        i <= unquoted_field_spec(s, i).0 <= s.len(),
        i <= field_value_spec(s, i).0 <= s.len(),
        field_spec(s, i) matches Some((e, _)) ==> i < e <= s.len(),
        element_spec(s, i) matches Some((e, _)) ==> i < e <= s.len(),
{
    lemma_first_tag(s, i, field_tags(), 0);
    lemma_span(s, i, CharClass::NotCommaOrBrace);
    lemma_span(s, i, CharClass::NotSpaceByte);
    if i < s.len() {
        lemma_unbalanced_end(s, i + 1, 0);
        lemma_span(s, i + 1, CharClass::NotQuote);
    }
    if let Some((j, name)) = field_type_spec(s, i) {
        lemma_span(s, j, CharClass::MultiSpace);
        let k = span_end(s, j, CharClass::MultiSpace);
        if 0 <= k < s.len() && s[k] == '=' {
            lemma_span(s, k + 1, CharClass::MultiSpace);
            lemma_value_bounds(s, span_end(s, k + 1, CharClass::MultiSpace));
        }
    }
    lemma_span(s, i, CharClass::MultiSpace);
    let a = span_end(s, i, CharClass::MultiSpace);
    lemma_field_bounds(s, a);
    if let Some((e, f)) = field_spec(s, a) {
        lemma_span(s, e, CharClass::MultiSpace);
    }
}

proof fn lemma_value_bounds(s: Seq<char>, i: int)
    requires
        0 <= i <= s.len(),
    ensures
        i <= field_value_spec(s, i).0 <= s.len(),
{
    lemma_span(s, i, CharClass::NotCommaOrBrace);
    if i < s.len() {
        lemma_unbalanced_end(s, i + 1, 0);
        lemma_span(s, i + 1, CharClass::NotQuote);
    }
}

proof fn lemma_field_bounds(s: Seq<char>, i: int)
    requires
        0 <= i <= s.len(),
    ensures
        field_spec(s, i) matches Some((e, _)) ==> i < e <= s.len(),
{
    lemma_first_tag(s, i, field_tags(), 0);
    if let Some((j, name)) = field_type_spec(s, i) {
        lemma_span(s, j, CharClass::MultiSpace);
        let k = span_end(s, j, CharClass::MultiSpace);
        if 0 <= k < s.len() && s[k] == '=' {
            lemma_span(s, k + 1, CharClass::MultiSpace);
            lemma_value_bounds(s, span_end(s, k + 1, CharClass::MultiSpace));
        }
    }
}

/// The rest of a list of fields ends within the text, no earlier than it starts.
pub proof fn lemma_more_fields_bounds(s: Seq<char>, i: int)
    requires
        0 <= i <= s.len(),
    ensures
        i <= more_fields_spec(s, i).0 <= s.len(),
    decreases s.len() - i,
{
    lemma_field_sep(s, i);
    if let Some(k) = field_sep_spec(s, i) {
        lemma_element_bounds(s, k);
        if let Some((e, f)) = element_spec(s, k) {
            lemma_more_fields_bounds(s, e);
        }
    }
}

/// An entry ends after where it starts, within the text.
pub proof fn lemma_entry_bounds(s: Seq<char>, i: int)
    requires
        0 <= i <= s.len(),
    ensures
        entry_spec(s, i) matches EntryOutcome::Found(e, _) ==> i < e <= s.len(),
{
    lemma_span(s, i, CharClass::MultiSpace);
    let a = span_end(s, i, CharClass::MultiSpace);
    if 0 <= a < s.len() && s[a] == '@' {
        lemma_first_tag(s, a + 1, entry_tags(), 0);
        if let KindOutcome::Found(kind, j) = entry_type_spec(s, a + 1) {
            if 0 <= j < s.len() && s[j] == '{' {
                lemma_unbalanced_end(s, j + 1, 0);
                if let Some((t, c)) = entry_content_spec(s, j) {
                    lemma_span(s, t, CharClass::MultiSpace);
                }
            }
        }
    }
}

// ----- whole files -----

/// The entries of a text, from `i` on, until one cannot be read; an entry
/// whose kind is not in lower case stops the reading with an error.
pub open spec fn entries_from(s: Seq<char>, i: int) -> Result<(int, Seq<RawEntry>), BibError>
    decreases s.len() - i,
{
    if 0 <= i <= s.len() {
        match entry_spec(s, i) {
            EntryOutcome::Found(e, r) => {
                proof {
                    lemma_entry_bounds(s, i);
                }
                match entries_from(s, e) {
                    Ok((f, rs)) => Ok((f, seq![r] + rs)),
                    Err(x) => Err(x),
                }
            },
            EntryOutcome::Fail => Ok((i, seq![])),
            EntryOutcome::Miscased => Err(BibError::EntryTypeCase),
        }
    } else {
        Ok((i, seq![]))
    }
}

/// A whole text as one or more entries, with nothing left over.
pub open spec fn raw_entries_spec(s: Seq<char>) -> Result<Seq<RawEntry>, BibError> {
    match entry_spec(s, 0) {
        EntryOutcome::Fail => Err(BibError::Syntax),
        EntryOutcome::Miscased => Err(BibError::EntryTypeCase),
        EntryOutcome::Found(e, r) => match entries_from(s, e) {
            Err(x) => Err(x),
            Ok((f, rs)) => if f == s.len() {
                Ok(seq![r] + rs)
            } else {
                Err(BibError::Syntax)
            },
        },
    }
}

/// The map that setting the pairs one after the other gives: a later value
/// for a name replaces an earlier one.
pub open spec fn pairs_map(ps: Seq<(Seq<char>, Seq<char>)>) -> Map<Seq<char>, Seq<char>>
    decreases ps.len(),
{
    if ps.len() == 0 {
        Map::empty()
    } else {
        pairs_map(ps.drop_last()).insert(ps.last().0, ps.last().1)
    }
}

/// An entry as the library holds it.
pub struct EntryModel {
    pub kind: EntryType,
    pub key: Seq<char>,
    pub authors: Seq<NameParts>,
    pub fields: Map<Seq<char>, Seq<char>>,
}

/// The name of the field whose value is the list of authors.
pub open spec fn author_key() -> Seq<char> {
    "author"@
}

/// An entry read: its fields go into a map, and the `author` field, if there
/// is one, leaves the map and is read as a list of names. `None` if that
/// field holds no list of names.
pub open spec fn entry_model_spec(r: RawEntry) -> Option<EntryModel> {
    let m = pairs_map(r.fields);
    if m.contains_key(author_key()) {
        match names_spec(m[author_key()], 0) {
            Some((_, ns)) => Some(EntryModel { kind: r.kind, key: r.key, authors: ns, fields: m.remove(author_key()) }),
            None => None,
        }
    } else {
        Some(EntryModel { kind: r.kind, key: r.key, authors: seq![], fields: m })
    }
}

/// What reading a whole BibTeX text gives: its entries in order, or why it
/// cannot be read.
pub open spec fn bib_spec(s: Seq<char>) -> Result<Seq<EntryModel>, BibError> {
    match raw_entries_spec(s) {
        Err(x) => Err(x),
        Ok(rs) => if forall|k: int| 0 <= k < rs.len() ==> #[trigger] entry_model_spec(rs[k]) is Some {
            Ok(rs.map_values(|r: RawEntry| entry_model_spec(r).unwrap()))
        } else {
            Err(BibError::Authors)
        },
    }
}

// ----- citations in text -----

/// The command that cites an entry.
pub open spec fn cite_tag() -> Seq<char> {
    "\\cite"@
}

/// The command that cites has five characters.
pub proof fn lemma_cite_tag_len()
    ensures
        cite_tag().len() == 5,
{
    reveal_strlit("\\cite");
}

/// `\cite{key}` at `i`: the key is everything up to the first closing brace.
pub open spec fn citation_spec(s: Seq<char>, i: int) -> Option<(int, Seq<char>)> {
    let b = i + cite_tag().len();
    if starts_with_at(s, i, cite_tag()) && b < s.len() && s[b] == '{' {
        let e = span_end(s, b + 1, CharClass::NotCloseBrace);
        if e < s.len() {
            Some((e + 1, s.subrange(b + 1, e)))
        } else {
            None
        }
    } else {
        None
    }
}

/// The text up to the next `\cite`, and that citation's key.
pub open spec fn next_citation_spec(s: Seq<char>, i: int) -> Option<(int, (Seq<char>, Seq<char>))> {
    match find_from(s, i, cite_tag()) {
        Some(p) => match citation_spec(s, p) {
            Some((e, key)) => Some((e, (s.subrange(i, p), key))),
            None => None,
        },
        None => None,
    }
}

/// The pieces of text and the keys of the citations from `i` on, until no
/// further citation can be read; the result starts with where that is.
pub open spec fn citations_from(s: Seq<char>, i: int) -> (int, Seq<(Seq<char>, Seq<char>)>)
    decreases s.len() - i,
{
    if 0 <= i <= s.len() {
        match next_citation_spec(s, i) {
            Some((e, piece)) => {
                proof {
                    lemma_cite_tag_len();
                    lemma_next_citation(s, i);
                }
                let r = citations_from(s, e);
                (r.0, seq![piece] + r.1)
            },
            None => (i, seq![]),
        }
    } else {
        (i, seq![])
    }
}

/// A citation read from `i` ends after it, within the text, and is exactly
/// the text before it, `\cite{`, the key and `}`.
pub proof fn lemma_next_citation(s: Seq<char>, i: int)
    requires
        0 <= i <= s.len(),
        cite_tag().len() > 0,
    ensures
        next_citation_spec(s, i) matches Some((e, (before, key))) ==> i < e <= s.len() && s.subrange(i, e)
            == before + cite_tag() + seq!['{'] + key + seq!['}'],
{
    lemma_find_from(s, i, cite_tag());
    if let Some(p) = find_from(s, i, cite_tag()) {
        let b = p + cite_tag().len();
        if b < s.len() {
            lemma_span(s, b + 1, CharClass::NotCloseBrace);
        }
        if let Some((e, key)) = citation_spec(s, p) {
            assert(s[e - 1] == '}');
            assert(s.subrange(i, e) =~= s.subrange(i, p) + cite_tag() + seq!['{'] + key + seq!['}']);
        }
    }
}

// ----- reading -----

fn entry_tag(k: usize) -> (t: &'static str)
    requires
        k < 14,
    ensures
        t@ == entry_tags()[k as int],
{
    match k {
        0 => "article",
        1 => "booklet",
        2 => "conference",
        3 => "inbook",
        4 => "book",
        5 => "incollection",
        6 => "inproceedings",
        7 => "manual",
        8 => "mastersthesis",
        9 => "misc",
        10 => "phdthesis",
        11 => "proceedings",
        12 => "techreport",
        _ => "unpublished",
    }
}

fn field_tag(k: usize) -> (t: &'static str)
    requires
        k < 26,
    ensures
        t@ == field_tags()[k as int],
{
    match k {
        0 => "address",
        1 => "annote",
        2 => "author",
        3 => "booktitle",
        4 => "chapter",
        5 => "edition",
        6 => "editor",
        7 => "howpublished",
        8 => "institution",
        9 => "journal",
        10 => "month",
        11 => "note",
        12 => "number",
        13 => "organization",
        14 => "pages",
        15 => "publisher",
        16 => "school",
        17 => "series",
        18 => "title",
        19 => "type",
        20 => "volume",
        21 => "year",
        22 => "doi",
        23 => "issn",
        24 => "isbn",
        _ => "url",
    }
}

fn kind_at(k: usize) -> (t: EntryType)
    requires
        k < 14,
    ensures
        t == kind_of(k as int),
{
    match k {
        0 => EntryType::Article,
        1 => EntryType::Booklet,
        2 => EntryType::Conference,
        3 => EntryType::Inbook,
        4 => EntryType::Book,
        5 => EntryType::Incollection,
        6 => EntryType::Inproceedings,
        7 => EntryType::Manual,
        8 => EntryType::Mastersthesis,
        9 => EntryType::Misc,
        10 => EntryType::Phdthesis,
        11 => EntryType::Proceedings,
        12 => EntryType::Techreport,
        _ => EntryType::Unpublished,
    }
}

/// The texts of a list of borrowed name and value pairs.
pub open spec fn pair_views<'a>(v: Seq<(&'a str, &'a str)>) -> Seq<(Seq<char>, Seq<char>)> {
    v.map_values(|p: (&'a str, &'a str)| (p.0@, p.1@))
}

fn entry_type_at(cs: &Vec<char>, i: usize) -> (r: Option<Result<(EntryType, usize), BibError>>)
    requires
        i <= cs.len(),
    ensures
        match (r, entry_type_spec(cs@, i as int)) {
            (None, KindOutcome::NoMatch) => true,
            (Some(Err(x)), KindOutcome::Miscased) => x == BibError::EntryTypeCase,
            (Some(Ok((k, e))), KindOutcome::Found(sk, se)) => k == sk && e as int == se,
            _ => false,
        },
{
    let mut k: usize = 0;
    while k < 14
        invariant
            k <= 14,
            i <= cs.len(),
            entry_tags().len() == 14,
            first_tag(cs@, i as int, entry_tags(), 0) == first_tag(cs@, i as int, entry_tags(), k as int),
        decreases 14 - k,
    {
        let t = chars_of(entry_tag(k));
        if tag_no_case(cs, i, &t) {
            if starts_with(cs, i, &t) {
                return Some(Ok((kind_at(k), i + t.len())));
            } else {
                return Some(Err(BibError::EntryTypeCase));
            }
        }
        k = k + 1;
    }
    None
}

fn field_type_at<'a>(input: &'a str, cs: &Vec<char>, i: usize) -> (r: Option<(usize, &'a str)>)
    requires
        cs@ == input@,
        i <= cs.len(),
    ensures
        super::names::token_agrees(r, field_type_spec(cs@, i as int)),
{
    let mut k: usize = 0;
    while k < 26
        invariant
            k <= 26,
            i <= cs.len(),
            cs@ == input@,
            field_tags().len() == 26,
            first_tag(cs@, i as int, field_tags(), 0) == first_tag(cs@, i as int, field_tags(), k as int),
        decreases 26 - k,
    {
        let t = chars_of(field_tag(k));
        if tag_no_case(cs, i, &t) {
            let e = i + t.len();
            return Some((e, input.substring_char(i, e)));
        }
        k = k + 1;
    }
    None
}

fn brace_field_at<'a>(input: &'a str, cs: &Vec<char>, i: usize) -> (r: Option<(usize, &'a str)>)
    requires
        cs@ == input@,
        i <= cs.len(),
    ensures
        super::names::token_agrees(r, brace_field_spec(cs@, i as int)),
{
    if i < cs.len() && cs[i] == '{' {
        proof {
            lemma_unbalanced_end(cs@, i + 1, 0);
        }
        match take_until_unbalanced(cs, i + 1) {
            Some(e) => if e < cs.len() {
                Some((e + 1, input.substring_char(i + 1, e)))
            } else {
                None
            },
            None => None,
        }
    } else {
        None
    }
}

fn unquoted_field_at<'a>(input: &'a str, cs: &Vec<char>, i: usize) -> (r: (usize, &'a str))
    requires
        cs@ == input@,
        i <= cs.len(),
    ensures
        r.0 as int == unquoted_field_spec(cs@, i as int).0,
        r.1@ == unquoted_field_spec(cs@, i as int).1,
{
    let e = span(cs, i, CharClass::NotCommaOrBrace);
    let v = span(cs, i, CharClass::NotSpaceByte);
    let ve = if v < e { v } else { e };
    (e, input.substring_char(i, ve))
}

fn field_value_at<'a>(input: &'a str, cs: &Vec<char>, i: usize) -> (r: (usize, &'a str))
    requires
        cs@ == input@,
        i <= cs.len(),
    ensures
        r.0 as int == field_value_spec(cs@, i as int).0,
        r.1@ == field_value_spec(cs@, i as int).1,
{
    if let Some(r) = brace_field_at(input, cs, i) {
        return r;
    }
    if let Some(r) = super::names::delimited_at(input, cs, i, '"', CharClass::NotQuote) {
        return r;
    }
    unquoted_field_at(input, cs, i)
}

/// An exec field result agrees with a spec one.
pub open spec fn field_agrees<'a>(
    r: Option<(usize, (&'a str, &'a str))>,
    sp: Option<(int, (Seq<char>, Seq<char>))>,
) -> bool {
    match (r, sp) {
        (Some((e, (n, v))), Some((se, (sn, sv)))) => e as int == se && n@ == sn && v@ == sv,
        (None, None) => true,
        _ => false,
    }
}

fn field_at<'a>(input: &'a str, cs: &Vec<char>, i: usize) -> (r: Option<(usize, (&'a str, &'a str))>)
    requires
        cs@ == input@,
        i <= cs.len(),
    ensures
        field_agrees(r, field_spec(cs@, i as int)),
{
    proof {
        lemma_element_bounds(cs@, i as int);
    }
    let (j, name) = match field_type_at(input, cs, i) {
        Some(x) => x,
        None => return None,
    };
    let k = span(cs, j, CharClass::MultiSpace);
    if !(k < cs.len() && cs[k] == '=') {
        return None;
    }
    let k2 = span(cs, k + 1, CharClass::MultiSpace);
    let (e, value) = field_value_at(input, cs, k2);
    Some((e, (name, value)))
}

fn element_at<'a>(input: &'a str, cs: &Vec<char>, i: usize) -> (r: Option<(usize, (&'a str, &'a str))>)
    requires
        cs@ == input@,
        i <= cs.len(),
    ensures
        field_agrees(r, element_spec(cs@, i as int)),
{
    let a = span(cs, i, CharClass::MultiSpace);
    proof {
        lemma_element_bounds(cs@, a as int);
    }
    match field_at(input, cs, a) {
        Some((e, f)) => Some((span(cs, e, CharClass::MultiSpace), f)),
        None => None,
    }
}

fn field_sep_at(cs: &Vec<char>, i: usize) -> (r: Option<usize>)
    requires
        i <= cs.len(),
    ensures
        match (r, field_sep_spec(cs@, i as int)) {
            (Some(k), Some(sk)) => k as int == sk,
            (None, None) => true,
            _ => false,
        },
{
    let a = span(cs, i, CharClass::MultiSpace);
    if a < cs.len() && cs[a] == ',' {
        Some(span(cs, a + 1, CharClass::MultiSpace))
    } else {
        None
    }
}

/// An exec list of fields agrees with a spec one.
pub open spec fn fields_agree<'a>(
    r: Option<(usize, Vec<(&'a str, &'a str)>)>,
    sp: Option<(int, Seq<(Seq<char>, Seq<char>)>)>,
) -> bool {
    match (r, sp) {
        (Some((e, fs)), Some((se, sfs))) => e as int == se && pair_views(fs@) == sfs,
        (None, None) => true,
        _ => false,
    }
}

fn fields_at<'a>(input: &'a str, cs: &Vec<char>, i: usize) -> (r: Option<(usize, Vec<(&'a str, &'a str)>)>)
    requires
        cs@ == input@,
        i <= cs.len(),
    ensures
        fields_agree(r, fields_spec(cs@, i as int)),
{
    proof {
        lemma_element_bounds(cs@, i as int);
    }
    let (e, f) = match element_at(input, cs, i) {
        Some(x) => x,
        None => return None,
    };
    let mut fs: Vec<(&'a str, &'a str)> = Vec::new();
    fs.push(f);
    let mut j = e;
    let ghost f0 = (f.0@, f.1@);
    let ghost seen: Seq<(Seq<char>, Seq<char>)> = seq![f0];
    proof {
        assert(pair_views(fs@) =~= seen);
        assert(more_fields_spec(cs@, e as int) == (more_fields_spec(cs@, j as int).0, seen.drop_first() + more_fields_spec(cs@, j as int).1)) by {
            assert(seen.drop_first() + more_fields_spec(cs@, j as int).1 =~= more_fields_spec(cs@, j as int).1);
        }
    }
    loop
        invariant
            e <= j <= cs.len(),
            cs@ == input@,
            seen.len() >= 1,
            seen[0] == f0,
            pair_views(fs@) == seen,
            more_fields_spec(cs@, e as int) == (more_fields_spec(cs@, j as int).0, seen.drop_first() + more_fields_spec(cs@, j as int).1),
        ensures
            e <= j <= cs.len(),
            seen.len() >= 1,
            seen[0] == f0,
            pair_views(fs@) == seen,
            more_fields_spec(cs@, e as int) == (j as int, seen.drop_first()),
        decreases cs.len() - j,
    {
        proof {
            lemma_field_sep(cs@, j as int);
        }
        let k = match field_sep_at(cs, j) {
            Some(k) => k,
            None => {
                proof {
                    assert(seen.drop_first() + seq![] =~= seen.drop_first());
                }
                break;
            },
        };
        proof {
            lemma_element_bounds(cs@, k as int);
        }
        match element_at(input, cs, k) {
            Some((e2, f2)) => {
                proof {
                    let r = more_fields_spec(cs@, e2 as int);
                    assert(more_fields_spec(cs@, j as int) == (r.0, seq![(f2.0@, f2.1@)] + r.1));
                    assert(seen.drop_first() + (seq![(f2.0@, f2.1@)] + r.1) =~= seen.push((f2.0@, f2.1@)).drop_first() + r.1);
                    seen = seen.push((f2.0@, f2.1@));
                }
                fs.push(f2);
                proof {
                    assert(pair_views(fs@) =~= seen);
                }
                j = e2;
            },
            None => {
                proof {
                    assert(seen.drop_first() + seq![] =~= seen.drop_first());
                }
                break;
            },
        }
    }
    proof {
        assert(seq![f0] + seen.drop_first() =~= seen);
    }
    Some((j, fs))
}

fn entry_key_at<'a>(content: &'a str, ccs: &Vec<char>) -> (r: Option<(usize, &'a str)>)
    requires
        ccs@ == content@,
    ensures
        super::names::token_agrees(r, entry_key_spec(ccs@)),
{
    let k = span(ccs, 0, CharClass::NotComma);
    if 0 < k && k < ccs.len() {
        Some((k + 1, content.substring_char(0, k)))
    } else {
        None
    }
}

fn entry_content_at(cs: &Vec<char>, j: usize) -> (r: Option<(usize, usize)>)
    requires
        j <= cs.len(),
    ensures
        match (r, entry_content_spec(cs@, j as int)) {
            (Some((t, c)), Some((st, sc))) => t as int == st && c as int == sc && j < c < t <= cs.len(),
            (None, None) => true,
            _ => false,
        },
{
    if j < cs.len() && cs[j] == '{' {
        proof {
            lemma_unbalanced_end(cs@, j + 1, 0);
        }
        match take_until_unbalanced(cs, j + 1) {
            Some(c) => if c < cs.len() {
                Some((c + 1, c))
            } else {
                None
            },
            None => None,
        }
    } else {
        None
    }
}

/// An entry as read from a text, borrowing from it.
pub type EntrySubComponents<'a> = (EntryType, &'a str, Vec<(&'a str, &'a str)>);

/// An exec entry result agrees with a spec one.
pub open spec fn entry_agrees<'a>(r: Result<Option<(usize, EntrySubComponents<'a>)>, BibError>, sp: EntryOutcome) -> bool {
    match (r, sp) {
        (Ok(None), EntryOutcome::Fail) => true,
        (Err(x), EntryOutcome::Miscased) => x == BibError::EntryTypeCase,
        (Ok(Some((e, (kind, key, fs)))), EntryOutcome::Found(se, raw)) => e as int == se && kind == raw.kind
            && key@ == raw.key && pair_views(fs@) == raw.fields,
        _ => false,
    }
}

fn entry_at<'a>(input: &'a str, cs: &Vec<char>, i: usize) -> (r: Result<Option<(usize, EntrySubComponents<'a>)>, BibError>)
    requires
        cs@ == input@,
        i <= cs.len(),
    ensures
        entry_agrees(r, entry_spec(cs@, i as int)),
{
    let a = span(cs, i, CharClass::MultiSpace);
    if !(a < cs.len() && cs[a] == '@') {
        return Ok(None);
    }
    let (kind, j) = match entry_type_at(cs, a + 1) {
        None => return Ok(None),
        Some(Err(x)) => return Err(x),
        Some(Ok(x)) => x,
    };
    proof {
        lemma_first_tag(cs@, (a + 1) as int, entry_tags(), 0);
    }
    let (t, c) = match entry_content_at(cs, j) {
        Some(x) => x,
        None => return Ok(None),
    };
    let content = input.substring_char(j + 1, c);
    let ccs = chars_of(content);
    let (k, key) = match entry_key_at(content, &ccs) {
        Some(x) => x,
        None => return Ok(None),
    };
    proof {
        lemma_span(ccs@, 0, CharClass::NotComma);
    }
    let fs = match fields_at(content, &ccs, k) {
        Some((_, fs)) => fs,
        None => return Ok(None),
    };
    proof {
        lemma_span(cs@, t as int, CharClass::MultiSpace);
    }
    Ok(Some((span(cs, t, CharClass::MultiSpace), (kind, key, fs))))
}

/// A BibTeX entry.
#[derive(PartialEq, Eq, Debug)]
pub struct BibEntry {
    pub kind: EntryType,
    pub key: String,
    /// The names of the `author` field.
    pub authors: Vec<OwnedFullName>,
    /// The other fields.
    pub fields: BibFields,
}

/// The parts of a list of names.
pub open spec fn names_parts(v: Seq<OwnedFullName>) -> Seq<NameParts> {
    v.map_values(|n: OwnedFullName| n.parts())
}

impl Clone for BibEntry {
    fn clone(&self) -> (r: Self)
        ensures
            r.model() == self.model(),
    {
        let mut authors: Vec<OwnedFullName> = Vec::new();
        let mut i: usize = 0;
        while i < self.authors.len()
            invariant
                i <= self.authors.len(),
                authors@.len() == i,
                forall|j: int| 0 <= j < i ==> #[trigger] authors@[j].parts() == self.authors@[j].parts(),
            decreases self.authors.len() - i,
        {
            authors.push(self.authors[i].clone());
            i = i + 1;
        }
        assert(names_parts(authors@) =~= names_parts(self.authors@));
        BibEntry { kind: self.kind, key: self.key.clone(), authors, fields: self.fields.clone() }
    }
}

impl BibEntry {
    /// The entry's kind, key, names of authors and other fields.
    pub open spec fn model(&self) -> EntryModel {
        EntryModel { kind: self.kind, key: self.key@, authors: names_parts(self.authors@), fields: self.fields@ }
    }

    /// The entry's kind, key, authors and other fields.
    pub fn into_components(self) -> (r: (EntryType, String, Vec<OwnedFullName>, BibFields))
        ensures
            r.0 == self.kind,
            r.1@ == self.key@,
            names_parts(r.2@) == names_parts(self.authors@),
            r.3@ == self.fields@,
    {
        (self.kind, self.key, self.authors, self.fields)
    }

    /// The entry that the pieces read from a text make: the fields are set in
    /// the order read, and the `author` field becomes the list of authors.
    pub fn from_components<'a>(value: &EntrySubComponents<'a>) -> (r: Result<BibEntry, BibError>)
        ensures
            match (r, entry_model_spec(RawEntry { kind: value.0, key: value.1@, fields: pair_views(value.2@) })) {
                (Ok(e), Some(m)) => e.model() == m,
                (Err(x), None) => x == BibError::Authors,
                _ => false,
            },
    {
        let kind = value.0;
        let key = value.1;
        let pairs = &value.2;
        let ghost pv = pair_views(pairs@);
        let mut fields = BibFields::new();
        let mut i: usize = 0;
        proof {
            assert(pv.take(0) =~= Seq::<(Seq<char>, Seq<char>)>::empty());
        }
        while i < pairs.len()
            invariant
                i <= pairs.len(),
                pv == pair_views(pairs@),
                fields@ == pairs_map(pv.take(i as int)),
            decreases pairs.len() - i,
        {
            let (k, v) = pairs[i];
            fields.insert(String::from_str(k), String::from_str(v));
            proof {
                assert(pv.take(i + 1).drop_last() =~= pv.take(i as int));
            }
            i = i + 1;
        }
        proof {
            assert(pv.take(pairs.len() as int) =~= pv);
        }
        let mut authors: Vec<OwnedFullName> = Vec::new();
        let ghost before = fields@;
        let removed = fields.remove("author");
        assert(fields@ == pairs_map(pv).remove(author_key()));
        match removed {
            Some(v) => {
                match and_seperated_names(v.as_str()) {
                    Ok((_, ns)) => {
                        let mut j: usize = 0;
                        while j < ns.len()
                            invariant
                                j <= ns.len(),
                                authors@.len() == j,
                                forall|m: int| 0 <= m < j ==> #[trigger] authors@[m].parts() == ns@[m].parts(),
                            decreases ns.len() - j,
                        {
                            authors.push(OwnedFullName::from_name(&ns[j]));
                            j = j + 1;
                        }
                    },
                    Err(_) => return Err(BibError::Authors),
                }
            },
            None => {},
        }
        let e = BibEntry { kind, key: String::from_str(key), authors, fields };
        proof {
            if let Some(m) = entry_model_spec(RawEntry { kind, key: key@, fields: pv }) {
                assert(names_parts(e.authors@) =~= m.authors);
                if !pairs_map(pv).contains_key(author_key()) {
                    assert(pairs_map(pv).remove(author_key()) =~= pairs_map(pv));
                }
            }
        }
        Ok(e)
    }
}

/// An exec raw entry agrees with a spec one.
pub open spec fn raw_agrees<'a>(x: EntrySubComponents<'a>, r: RawEntry) -> bool {
    x.0 == r.kind && x.1@ == r.key && pair_views(x.2@) == r.fields
}

/// `a` is what `b` gives with `prefix` before its entries.
pub open spec fn extends(
    a: Result<(int, Seq<RawEntry>), BibError>,
    b: Result<(int, Seq<RawEntry>), BibError>,
    prefix: Seq<RawEntry>,
) -> bool {
    match b {
        Ok((f, rs)) => a == Ok::<(int, Seq<RawEntry>), BibError>((f, prefix + rs)),
        Err(x) => a == Err::<(int, Seq<RawEntry>), BibError>(x),
    }
}

proof fn lemma_extends_empty(a: Result<(int, Seq<RawEntry>), BibError>)
    ensures
        extends(a, a, Seq::<RawEntry>::empty()),
{
    if let Ok((f, rs)) = a {
        assert(Seq::<RawEntry>::empty() + rs =~= rs);
    }
}

proof fn lemma_entries_step(s: Seq<char>, j: int)
    requires
        0 <= j <= s.len(),
    ensures
        entry_spec(s, j) matches EntryOutcome::Found(e, r) ==> extends(entries_from(s, j), entries_from(s, e), seq![r]),
{
    lemma_entry_bounds(s, j);
}

proof fn lemma_extends_push(
    a: Result<(int, Seq<RawEntry>), BibError>,
    b: Result<(int, Seq<RawEntry>), BibError>,
    c: Result<(int, Seq<RawEntry>), BibError>,
    seen: Seq<RawEntry>,
    r: RawEntry,
)
    requires
        seen.len() >= 1,
        extends(a, b, seen.drop_first()),
        extends(b, c, seq![r]),
    ensures
        extends(a, c, seen.push(r).drop_first()),
{
    if let Ok((f, rs)) = c {
        assert(seen.drop_first() + (seq![r] + rs) =~= seen.push(r).drop_first() + rs);
    }
}

/// The entries of a BibTeX text, in order.
pub fn parse_bib(contents: &str) -> (r: Result<Vec<BibEntry>, BibError>)
    ensures
        match (r, bib_spec(contents@)) {
            (Ok(es), Ok(ms)) => es@.len() == ms.len() && forall|k: int| 0 <= k < ms.len() ==> #[trigger] es@[k].model() == ms[k],
            (Err(x), Err(y)) => x == y,
            _ => false,
        },
{
    let cs = chars_of(contents);
    proof {
        lemma_entry_bounds(cs@, 0);
    }
    let (e0, first) = match entry_at(contents, &cs, 0) {
        Ok(Some(x)) => x,
        Ok(None) => return Err(BibError::Syntax),
        Err(x) => return Err(x),
    };
    let ghost r0 = RawEntry { kind: first.0, key: first.1@, fields: pair_views(first.2@) };
    let mut raws: Vec<EntrySubComponents> = Vec::new();
    raws.push(first);
    let ghost seen: Seq<RawEntry> = seq![r0];
    let mut j = e0;
    proof {
        lemma_extends_empty(entries_from(cs@, e0 as int));
    }
    loop
        invariant
            e0 <= j <= cs.len(),
            cs@ == contents@,
            seen.len() >= 1,
            seen[0] == r0,
            raws@.len() == seen.len(),
            forall|k: int| 0 <= k < seen.len() ==> #[trigger] raw_agrees(raws@[k], seen[k]),
            extends(entries_from(cs@, e0 as int), entries_from(cs@, j as int), seen.drop_first()),
            entry_spec(cs@, 0) == EntryOutcome::Found(e0 as int, r0),
        ensures
            e0 <= j <= cs.len(),
            seen.len() >= 1,
            seen[0] == r0,
            raws@.len() == seen.len(),
            forall|k: int| 0 <= k < seen.len() ==> #[trigger] raw_agrees(raws@[k], seen[k]),
            entries_from(cs@, e0 as int) == Ok::<(int, Seq<RawEntry>), BibError>((j as int, seen.drop_first())),
        decreases cs.len() - j,
    {
        proof {
            lemma_entry_bounds(cs@, j as int);
        }
        match entry_at(contents, &cs, j) {
            Ok(Some((e, x))) => {
                proof {
                    let rx = RawEntry { kind: x.0, key: x.1@, fields: pair_views(x.2@) };
                    lemma_entries_step(cs@, j as int);
                    lemma_extends_push(entries_from(cs@, e0 as int), entries_from(cs@, j as int), entries_from(cs@, e as int), seen, rx);
                    seen = seen.push(rx);
                }
                raws.push(x);
                j = e;
            },
            Ok(None) => {
                proof {
                    assert(seen.drop_first() + seq![] =~= seen.drop_first());
                }
                break;
            },
            Err(x) => {
                proof {
                    assert(entries_from(cs@, j as int) == Err::<(int, Seq<RawEntry>), BibError>(BibError::EntryTypeCase));
                    assert(entries_from(cs@, e0 as int) == Err::<(int, Seq<RawEntry>), BibError>(BibError::EntryTypeCase));
                    assert(raw_entries_spec(cs@) == Err::<Seq<RawEntry>, BibError>(BibError::EntryTypeCase));
                }
                return Err(x);
            },
        }
    }
    if j != cs.len() {
        return Err(BibError::Syntax);
    }
    proof {
        assert(seq![r0] + seen.drop_first() =~= seen);
    }
    let ghost rs = seen;
    assert(raw_entries_spec(cs@) == Ok::<Seq<RawEntry>, BibError>(rs));
    let mut out: Vec<BibEntry> = Vec::new();
    let mut k: usize = 0;
    let n = raws.len();
    while k < n
        invariant
            k <= n == raws@.len() == rs.len(),
            raw_entries_spec(cs@) == Ok::<Seq<RawEntry>, BibError>(rs),
            cs@ == contents@,
            forall|m: int| 0 <= m < rs.len() ==> #[trigger] raw_agrees(raws@[m], rs[m]),
            out@.len() == k,
            forall|m: int| 0 <= m < k ==> (#[trigger] entry_model_spec(rs[m])) is Some && out@[m].model() == entry_model_spec(rs[m]).unwrap(),
        decreases n - k,
    {
        assert(raw_agrees(raws@[k as int], rs[k as int]));
        assert(RawEntry { kind: raws@[k as int].0, key: raws@[k as int].1@, fields: pair_views(raws@[k as int].2@) } == rs[k as int]);
        match BibEntry::from_components(&raws[k]) {
            Ok(e) => out.push(e),
            Err(x) => {
                proof {
                    assert(!(entry_model_spec(rs[k as int]) is Some));
                }
                return Err(x);
            },
        }
        k = k + 1;
    }
    proof {
        let ms = rs.map_values(|r: RawEntry| entry_model_spec(r).unwrap());
        assert forall|m: int| 0 <= m < rs.len() implies #[trigger] out@[m].model() == ms[m] by {}
    }
    Ok(out)
}

// ----- citations -----

fn citation_at<'a>(input: &'a str, cs: &Vec<char>, i: usize) -> (r: Option<(usize, &'a str)>)
    requires
        cs@ == input@,
        i <= cs.len(),
    ensures
        super::names::token_agrees(r, citation_spec(cs@, i as int)),
{
    let tag = chars_of("\\cite");
    if !starts_with(cs, i, &tag) {
        return None;
    }
    let b = i + tag.len();
    if !(b < cs.len() && cs[b] == '{') {
        return None;
    }
    let e = span(cs, b + 1, CharClass::NotCloseBrace);
    if e < cs.len() {
        Some((e + 1, input.substring_char(b + 1, e)))
    } else {
        None
    }
}

/// An exec citation piece agrees with a spec one.
pub open spec fn piece_agrees<'a>(
    r: Option<(usize, (&'a str, &'a str))>,
    sp: Option<(int, (Seq<char>, Seq<char>))>,
) -> bool {
    field_agrees(r, sp)
}

fn next_citation_at<'a>(input: &'a str, cs: &Vec<char>, i: usize) -> (r: Option<(usize, (&'a str, &'a str))>)
    requires
        cs@ == input@,
        i <= cs.len(),
    ensures
        piece_agrees(r, next_citation_spec(cs@, i as int)),
{
    let tag = chars_of("\\cite");
    proof {
        lemma_cite_tag_len();
        lemma_find_from(cs@, i as int, cite_tag());
    }
    match find(cs, i, &tag) {
        Some(p) => match citation_at(input, cs, p) {
            Some((e, key)) => Some((e, (input.substring_char(i, p), key))),
            None => None,
        },
        None => None,
    }
}

/// `\cite{key}` at the start of `input`; the key is everything up to the
/// first closing brace.
pub fn citation<'a>(input: &'a str) -> (r: Result<(&'a str, &'a str), BibError>)
    ensures
        match (r, citation_spec(input@, 0)) {
            (Ok((tail, key)), Some((e, sk))) => tail@ == input@.skip(e) && key@ == sk,
            (Err(x), None) => x == BibError::Syntax,
            _ => false,
        },
{
    let cs = chars_of(input);
    proof {
        if cs@.len() > cite_tag().len() {
            lemma_span(cs@, cite_tag().len() as int + 1, CharClass::NotCloseBrace);
        }
    }
    match citation_at(input, &cs, 0) {
        Some((e, key)) => Ok((input.substring_char(e, cs.len()), key)),
        None => Err(BibError::Syntax),
    }
}

/// The text of `input` up to its first `\cite{key}`, and that key; the rest
/// of `input` comes first.
pub fn next_citation<'a>(input: &'a str) -> (r: Result<(&'a str, (&'a str, &'a str)), BibError>)
    ensures
        match (r, next_citation_spec(input@, 0)) {
            (Ok((tail, (before, key))), Some((e, (sb, sk)))) => tail@ == input@.skip(e) && before@ == sb && key@ == sk,
            (Err(x), None) => x == BibError::Syntax,
            _ => false,
        },
{
    let cs = chars_of(input);
    proof {
        lemma_cite_tag_len();
        lemma_next_citation(cs@, 0);
    }
    match next_citation_at(input, &cs, 0) {
        Some((e, piece)) => Ok((input.substring_char(e, cs.len()), piece)),
        None => Err(BibError::Syntax),
    }
}

/// The pieces of text of `input` with the keys of the citations that follow
/// them, as long as citations can be read; the rest of `input` comes first.
pub fn all_citations<'a>(input: &'a str) -> (r: (&'a str, Vec<(&'a str, &'a str)>))
    ensures
        r.0@ == input@.skip(citations_from(input@, 0).0),
        pair_views(r.1@) == citations_from(input@, 0).1,
{
    let cs = chars_of(input);
    let mut pieces: Vec<(&'a str, &'a str)> = Vec::new();
    let mut j: usize = 0;
    proof {
        assert(pair_views(pieces@) + citations_from(cs@, 0).1 =~= citations_from(cs@, 0).1);
    }
    loop
        invariant
            j <= cs.len(),
            cs@ == input@,
            citations_from(cs@, 0) == (citations_from(cs@, j as int).0, pair_views(pieces@) + citations_from(cs@, j as int).1),
        ensures
            j <= cs.len(),
            citations_from(cs@, 0) == (j as int, pair_views(pieces@)),
        decreases cs.len() - j,
    {
        proof {
            lemma_cite_tag_len();
            lemma_next_citation(cs@, j as int);
        }
        match next_citation_at(input, &cs, j) {
            Some((e, piece)) => {
                let ghost before = pieces@;
                pieces.push(piece);
                proof {
                    assert(pair_views(pieces@) =~= pair_views(before).push((piece.0@, piece.1@)));
                    assert(pair_views(before) + (seq![(piece.0@, piece.1@)] + citations_from(cs@, e as int).1)
                        =~= pair_views(pieces@) + citations_from(cs@, e as int).1);
                }
                j = e;
            },
            None => {
                proof {
                    assert(pair_views(pieces@) + seq![] =~= pair_views(pieces@));
                }
                break;
            },
        }
    }
    (input.substring_char(j, cs.len()), pieces)
}

// ----- readers of the pieces of an entry -----

/// An exec reader result agrees with a spec one: the rest of the input and the
/// text read.
pub open spec fn read_agrees<'a>(input: &'a str, r: Result<(&'a str, &'a str), BibError>, sp: Option<(int, Seq<char>)>) -> bool {
    match (r, sp) {
        (Ok((tail, v)), Some((e, sv))) => tail@ == input@.skip(e) && v@ == sv,
        (Err(x), None) => x == BibError::Syntax,
        _ => false,
    }
}

/// A field name at the start of `input`, in any case.
pub fn field_type<'a>(input: &'a str) -> (r: Result<(&'a str, &'a str), BibError>)
    ensures
        read_agrees(input, r, field_type_spec(input@, 0)),
{
    let cs = chars_of(input);
    proof {
        lemma_element_bounds(cs@, 0);
    }
    match field_type_at(input, &cs, 0) {
        Some((e, v)) => Ok((input.substring_char(e, cs.len()), v)),
        None => Err(BibError::Syntax),
    }
}

/// `{...}` with balanced braces inside, at the start of `input`.
pub fn brace_quoted_field<'a>(input: &'a str) -> (r: Result<(&'a str, &'a str), BibError>)
    ensures
        read_agrees(input, r, brace_field_spec(input@, 0)),
{
    let cs = chars_of(input);
    proof {
        lemma_element_bounds(cs@, 0);
    }
    match brace_field_at(input, &cs, 0) {
        Some((e, v)) => Ok((input.substring_char(e, cs.len()), v)),
        None => Err(BibError::Syntax),
    }
}

/// `"..."` at the start of `input`.
pub fn quote_quoted_field<'a>(input: &'a str) -> (r: Result<(&'a str, &'a str), BibError>)
    ensures
        read_agrees(input, r, quote_field_spec(input@, 0)),
{
    let cs = chars_of(input);
    proof {
        lemma_element_bounds(cs@, 0);
    }
    match super::names::delimited_at(input, &cs, 0, '"', CharClass::NotQuote) {
        Some((e, v)) => Ok((input.substring_char(e, cs.len()), v)),
        None => Err(BibError::Syntax),
    }
}

/// A bare value at the start of `input` (see `unquoted_field_spec`).
pub fn unquoted_field<'a>(input: &'a str) -> (r: (&'a str, &'a str))
    ensures
        r.0@ == input@.skip(unquoted_field_spec(input@, 0).0),
        r.1@ == unquoted_field_spec(input@, 0).1,
{
    let cs = chars_of(input);
    proof {
        lemma_element_bounds(cs@, 0);
    }
    let (e, v) = unquoted_field_at(input, &cs, 0);
    (input.substring_char(e, cs.len()), v)
}

/// `name = value` at the start of `input`.
pub fn field<'a>(input: &'a str) -> (r: Result<(&'a str, (&'a str, &'a str)), BibError>)
    ensures
        match (r, field_spec(input@, 0)) {
            (Ok((tail, (n, v))), Some((e, (sn, sv)))) => tail@ == input@.skip(e) && n@ == sn && v@ == sv,
            (Err(x), None) => x == BibError::Syntax,
            _ => false,
        },
{
    let cs = chars_of(input);
    proof {
        lemma_element_bounds(cs@, 0);
    }
    match field_at(input, &cs, 0) {
        Some((e, f)) => Ok((input.substring_char(e, cs.len()), f)),
        None => Err(BibError::Syntax),
    }
}

/// One or more fields separated by commas at the start of `input`.
pub fn fields<'a>(input: &'a str) -> (r: Result<(&'a str, Vec<(&'a str, &'a str)>), BibError>)
    ensures
        match (r, fields_spec(input@, 0)) {
            (Ok((tail, fs)), Some((e, sfs))) => tail@ == input@.skip(e) && pair_views(fs@) == sfs,
            (Err(x), None) => x == BibError::Syntax,
            _ => false,
        },
{
    let cs = chars_of(input);
    proof {
        lemma_element_bounds(cs@, 0);
        if let Some((e, f)) = element_spec(cs@, 0) {
            lemma_more_fields_bounds(cs@, e);
        }
    }
    match fields_at(input, &cs, 0) {
        Some((e, fs)) => Ok((input.substring_char(e, cs.len()), fs)),
        None => Err(BibError::Syntax),
    }
}

/// `@kind` after any white space at the start of `input`.
pub fn entry_kind<'a>(input: &'a str) -> (r: Result<(&'a str, EntryType), BibError>)
    ensures
        ({
            let a = span_end(input@, 0, CharClass::MultiSpace);
            if 0 <= a < input@.len() && input@[a] == '@' {
                match (r, entry_type_spec(input@, a + 1)) {
                    (Ok((tail, k)), KindOutcome::Found(sk, e)) => tail@ == input@.skip(e) && k == sk,
                    (Err(x), KindOutcome::NoMatch) => x == BibError::Syntax,
                    (Err(x), KindOutcome::Miscased) => x == BibError::EntryTypeCase,
                    _ => false,
                }
            } else {
                r == Err::<(&'a str, EntryType), BibError>(BibError::Syntax)
            }
        }),
{
    let cs = chars_of(input);
    let a = span(&cs, 0, CharClass::MultiSpace);
    if !(a < cs.len() && cs[a] == '@') {
        return Err(BibError::Syntax);
    }
    proof {
        lemma_first_tag(cs@, a + 1, entry_tags(), 0);
    }
    match entry_type_at(&cs, a + 1) {
        None => Err(BibError::Syntax),
        Some(Err(x)) => Err(x),
        Some(Ok((k, e))) => Ok((input.substring_char(e, cs.len()), k)),
    }
}

/// `{...}` with balanced braces inside, at the start of `input`; the text is
/// what is inside.
pub fn entry_content<'a>(input: &'a str) -> (r: Result<(&'a str, &'a str), BibError>)
    ensures
        match (r, entry_content_spec(input@, 0)) {
            (Ok((tail, content)), Some((t, c))) => tail@ == input@.skip(t) && content@ == input@.subrange(1, c),
            (Err(x), None) => x == BibError::Syntax,
            _ => false,
        },
{
    let cs = chars_of(input);
    match entry_content_at(&cs, 0) {
        Some((t, c)) => Ok((input.substring_char(t, cs.len()), input.substring_char(1, c))),
        None => Err(BibError::Syntax),
    }
}

/// The key of an entry at the start of `input`: the text before the first
/// comma, which must not be empty; the comma is read too.
pub fn entry_key<'a>(input: &'a str) -> (r: Result<(&'a str, &'a str), BibError>)
    ensures
        read_agrees(input, r, entry_key_spec(input@)),
{
    let cs = chars_of(input);
    proof {
        lemma_span(cs@, 0, CharClass::NotComma);
    }
    match entry_key_at(input, &cs) {
        Some((e, key)) => Ok((input.substring_char(e, cs.len()), key)),
        None => Err(BibError::Syntax),
    }
}

/// One entry at the start of `input`, with the white space around it.
pub fn entry<'a>(input: &'a str) -> (r: Result<(&'a str, EntrySubComponents<'a>), BibError>)
    ensures
        match (r, entry_spec(input@, 0)) {
            (Ok((tail, (kind, key, fs))), EntryOutcome::Found(e, raw)) => tail@ == input@.skip(e) && kind == raw.kind
                && key@ == raw.key && pair_views(fs@) == raw.fields,
            (Err(x), EntryOutcome::Fail) => x == BibError::Syntax,
            (Err(x), EntryOutcome::Miscased) => x == BibError::EntryTypeCase,
            _ => false,
        },
{
    let cs = chars_of(input);
    proof {
        lemma_entry_bounds(cs@, 0);
    }
    match entry_at(input, &cs, 0) {
        Ok(Some((e, x))) => Ok((input.substring_char(e, cs.len()), x)),
        Ok(None) => Err(BibError::Syntax),
        Err(x) => Err(x),
    }
}

impl EntryType {
    /// The kind whose name `value` is, in lower case: "article", "book", ...
    pub fn try_from(value: &str) -> (r: Result<EntryType, &'static str>)
        ensures
            match r {
                Ok(k) => exists|i: int| 0 <= i < 14 && value@ == entry_tags()[i] && k == kind_of(i),
                Err(m) => m@ == "unknown kind"@ && forall|i: int| 0 <= i < 14 ==> value@ != #[trigger] entry_tags()[i],
            },
    {
        let mut k: usize = 0;
        while k < 14
            invariant
                k <= 14,
                entry_tags().len() == 14,
                forall|i: int| 0 <= i < k ==> value@ != #[trigger] entry_tags()[i],
            decreases 14 - k,
        {
            if text_eq(value, entry_tag(k)) {
                return Ok(kind_at(k));
            }
            k = k + 1;
        }
        Err("unknown kind")
    }

    /// The name of the kind with a capital initial: "Article", "Book", ...
    pub fn display_name(&self) -> (r: &'static str)
        ensures
            r@ == kind_display(*self),
    {
        match self {
            EntryType::Article => "Article",
            EntryType::Book => "Book",
            EntryType::Booklet => "Booklet",
            EntryType::Conference => "Conference",
            EntryType::Inbook => "Inbook",
            EntryType::Incollection => "Incollection",
            EntryType::Inproceedings => "Inproceedings",
            EntryType::Manual => "Manual",
            EntryType::Mastersthesis => "Mastersthesis",
            EntryType::Misc => "Misc",
            EntryType::Phdthesis => "Phdthesis",
            EntryType::Proceedings => "Proceedings",
            EntryType::Techreport => "Techreport",
            EntryType::Unpublished => "Unpublished",
        }
    }
}

/// The name of a kind with a capital initial.
pub open spec fn kind_display(k: EntryType) -> Seq<char> {
    match k {
        EntryType::Article => "Article"@,
        EntryType::Book => "Book"@,
        EntryType::Booklet => "Booklet"@,
        EntryType::Conference => "Conference"@,
        EntryType::Inbook => "Inbook"@,
        EntryType::Incollection => "Incollection"@,
        EntryType::Inproceedings => "Inproceedings"@,
        EntryType::Manual => "Manual"@,
        EntryType::Mastersthesis => "Mastersthesis"@,
        EntryType::Misc => "Misc"@,
        EntryType::Phdthesis => "Phdthesis"@,
        EntryType::Proceedings => "Proceedings"@,
        EntryType::Techreport => "Techreport"@,
        EntryType::Unpublished => "Unpublished"@,
    }
}

/// The position of a kind among `entry_tags`.
pub open spec fn kind_index(k: EntryType) -> int {
    match k {
        EntryType::Article => 0,
        EntryType::Booklet => 1,
        EntryType::Conference => 2,
        EntryType::Inbook => 3,
        EntryType::Book => 4,
        EntryType::Incollection => 5,
        EntryType::Inproceedings => 6,
        EntryType::Manual => 7,
        EntryType::Mastersthesis => 8,
        EntryType::Misc => 9,
        EntryType::Phdthesis => 10,
        EntryType::Proceedings => 11,
        EntryType::Techreport => 12,
        EntryType::Unpublished => 13,
    }
}

/// The length of the `i`th of `entry_tags`.
spec fn tag_len(i: int) -> nat {
    if i == 0 { 7 } else if i == 1 { 7 } else if i == 2 { 10 } else if i == 3 { 6 }
    else if i == 4 { 4 } else if i == 5 { 12 } else if i == 6 { 13 } else if i == 7 { 6 }
    else if i == 8 { 13 } else if i == 9 { 4 } else if i == 10 { 9 } else if i == 11 { 11 }
    else if i == 12 { 10 } else { 11 }
}

/// The first character of the `i`th of `entry_tags`.
spec fn tag_head(i: int) -> char {
    if i == 0 { 'a' } else if i == 1 { 'b' } else if i == 2 { 'c' } else if i == 3 { 'i' }
    else if i == 4 { 'b' } else if i == 5 { 'i' } else if i == 6 { 'i' } else if i == 7 { 'm' }
    else if i == 8 { 'm' } else if i == 9 { 'm' } else if i == 10 { 'p' } else if i == 11 { 'p' }
    else if i == 12 { 't' } else { 'u' }
}

proof fn lemma_tag_shape(i: int)
    requires
        0 <= i < 14,
    ensures
        entry_tags()[i].len() == tag_len(i),
        entry_tags()[i][0] == tag_head(i),
{
    let t = entry_tags();
    if i == 0 {
        reveal_strlit("article");
        assert(t[0] == "article"@);
    } else if i == 1 {
        reveal_strlit("booklet");
        assert(t[1] == "booklet"@);
    } else if i == 2 {
        reveal_strlit("conference");
        assert(t[2] == "conference"@);
    } else if i == 3 {
        reveal_strlit("inbook");
        assert(t[3] == "inbook"@);
    } else if i == 4 {
        reveal_strlit("book");
        assert(t[4] == "book"@);
    } else if i == 5 {
        reveal_strlit("incollection");
        assert(t[5] == "incollection"@);
    } else if i == 6 {
        reveal_strlit("inproceedings");
        assert(t[6] == "inproceedings"@);
    } else if i == 7 {
        reveal_strlit("manual");
        assert(t[7] == "manual"@);
    } else if i == 8 {
        reveal_strlit("mastersthesis");
        assert(t[8] == "mastersthesis"@);
    } else if i == 9 {
        reveal_strlit("misc");
        assert(t[9] == "misc"@);
    } else if i == 10 {
        reveal_strlit("phdthesis");
        assert(t[10] == "phdthesis"@);
    } else if i == 11 {
        reveal_strlit("proceedings");
        assert(t[11] == "proceedings"@);
    } else if i == 12 {
        reveal_strlit("techreport");
        assert(t[12] == "techreport"@);
    } else {
        reveal_strlit("unpublished");
        assert(t[13] == "unpublished"@);
    }
}

/// No two of `entry_tags` are equal.
proof fn lemma_tags_distinct(i: int, j: int)
    requires
        0 <= i < 14,
        0 <= j < 14,
        entry_tags()[i] == entry_tags()[j],
    ensures
        i == j,
{
    lemma_tag_shape(i);
    lemma_tag_shape(j);
}

/// The display name of a kind is ASCII, and in lower case it is the tag of
/// that kind and of no other: `try_from` of the lower-cased display name gives
/// the kind back.
pub proof fn lemma_kind_name_round_trip(k: EntryType)
    ensures
        is_ascii_text(kind_display(k)),
        entry_tags()[kind_index(k)] == ascii_lowercase(kind_display(k)),
        kind_of(kind_index(k)) == k,
        forall|i: int| 0 <= i < 14 && #[trigger] entry_tags()[i] == ascii_lowercase(kind_display(k)) ==> i == kind_index(k),
{
    let t = entry_tags();
    let d = kind_display(k);
    match k {
        EntryType::Article => {
            reveal_strlit("Article");
            reveal_strlit("article");
            assert(ascii_lowercase(d) =~= t[0]);
        },
        EntryType::Booklet => {
            reveal_strlit("Booklet");
            reveal_strlit("booklet");
            assert(ascii_lowercase(d) =~= t[1]);
        },
        EntryType::Conference => {
            reveal_strlit("Conference");
            reveal_strlit("conference");
            assert(ascii_lowercase(d) =~= t[2]);
        },
        EntryType::Inbook => {
            reveal_strlit("Inbook");
            reveal_strlit("inbook");
            assert(ascii_lowercase(d) =~= t[3]);
        },
        EntryType::Book => {
            reveal_strlit("Book");
            reveal_strlit("book");
            assert(ascii_lowercase(d) =~= t[4]);
        },
        EntryType::Incollection => {
            reveal_strlit("Incollection");
            reveal_strlit("incollection");
            assert(ascii_lowercase(d) =~= t[5]);
        },
        EntryType::Inproceedings => {
            reveal_strlit("Inproceedings");
            reveal_strlit("inproceedings");
            assert(ascii_lowercase(d) =~= t[6]);
        },
        EntryType::Manual => {
            reveal_strlit("Manual");
            reveal_strlit("manual");
            assert(ascii_lowercase(d) =~= t[7]);
        },
        EntryType::Mastersthesis => {
            reveal_strlit("Mastersthesis");
            reveal_strlit("mastersthesis");
            assert(ascii_lowercase(d) =~= t[8]);
        },
        EntryType::Misc => {
            reveal_strlit("Misc");
            reveal_strlit("misc");
            assert(ascii_lowercase(d) =~= t[9]);
        },
        EntryType::Phdthesis => {
            reveal_strlit("Phdthesis");
            reveal_strlit("phdthesis");
            assert(ascii_lowercase(d) =~= t[10]);
        },
        EntryType::Proceedings => {
            reveal_strlit("Proceedings");
            reveal_strlit("proceedings");
            assert(ascii_lowercase(d) =~= t[11]);
        },
        EntryType::Techreport => {
            reveal_strlit("Techreport");
            reveal_strlit("techreport");
            assert(ascii_lowercase(d) =~= t[12]);
        },
        EntryType::Unpublished => {
            reveal_strlit("Unpublished");
            reveal_strlit("unpublished");
            assert(ascii_lowercase(d) =~= t[13]);
        },
    }
    assert forall|i: int| 0 <= i < 14 && #[trigger] t[i] == ascii_lowercase(d) implies i == kind_index(k) by {
        lemma_tags_distinct(i, kind_index(k));
    }
}

} // verus!
