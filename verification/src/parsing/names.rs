//! Author and editor names as BibTeX writes them: `Last, First`,
//! `First von Last`, braced or quoted literals, and lists joined by `and`.

use super::text::{
    chars_of, lemma_span, lowercase, span, span_end, text_eq, to_lowercase, CharClass,
};
use vstd::multiset::Multiset;
use vstd::prelude::*;
use vstd::string::{StrSliceExecFns, StringExecFns};

verus! {

broadcast use vstd::seq_lib::group_seq_properties;

/// Why a name could not be read.
#[derive(Clone, Copy, PartialEq, Eq, Debug)]
pub struct NameError;

/// A name whose parts borrow from the text they were read from.
#[derive(Default, Clone, PartialEq, Eq, Debug)]
pub struct FullName<'a> {
    pub first: Vec<&'a str>,
    pub last: Vec<&'a str>,
    pub von: Vec<&'a str>,
    pub title: Vec<&'a str>,
}

/// A name that owns its parts.
#[derive(Default, PartialEq, Eq, Debug)]
pub struct OwnedFullName {
    pub first: Vec<String>,
    pub last: Vec<String>,
    pub von: Vec<String>,
    pub title: Vec<String>,
}

/// The words of a name, by role.
pub struct NameParts {
    pub first: Seq<Seq<char>>,
    pub last: Seq<Seq<char>>,
    pub von: Seq<Seq<char>>,
    pub title: Seq<Seq<char>>,
}

/// The texts of a list of borrowed words.
pub open spec fn str_views<'a>(v: Seq<&'a str>) -> Seq<Seq<char>> {
    v.map_values(|w: &'a str| w@)
}

/// The texts of a list of owned words.
pub open spec fn string_views(v: Seq<String>) -> Seq<Seq<char>> {
    v.map_values(|w: String| w@)
}

impl<'a> FullName<'a> {
    /// The words of the name, by role.
    pub open spec fn parts(&self) -> NameParts {
        NameParts {
            first: str_views(self.first@),
            last: str_views(self.last@),
            von: str_views(self.von@),
            title: str_views(self.title@),
        }
    }
}

impl OwnedFullName {
    /// The words of the name, by role.
    pub open spec fn parts(&self) -> NameParts {
        NameParts {
            first: string_views(self.first@),
            last: string_views(self.last@),
            von: string_views(self.von@),
            title: string_views(self.title@),
        }
    }
}

/// The particles that come between a first and a last name ("van", "de la", ...).
pub open spec fn is_von(w: Seq<char>) -> bool {
    ||| w == "d'"@ ||| w == "da"@ ||| w == "das"@ ||| w == "de la"@ ||| w == "de las"@
    ||| w == "de los"@ ||| w == "de"@ ||| w == "del"@ ||| w == "des"@ ||| w == "do"@
    ||| w == "dos"@ ||| w == "du"@ ||| w == "van de"@ ||| w == "van der"@ ||| w == "van"@
    ||| w == "dei"@ ||| w == "della"@ ||| w == "delle"@ ||| w == "di"@ ||| w == "la"@
    ||| w == "las"@ ||| w == "los"@ ||| w == "von der"@ ||| w == "von"@ ||| w == "zu"@
    ||| w == "zum"@ ||| w == "zur"@ ||| w == "af"@ ||| w == "ze"@ ||| w == "Z"@
    ||| w == "из"@ ||| w == "iz"@
}

/// The titles that go with a name ("Sir", "Dr", "III", ...).
pub open spec fn is_title(w: Seq<char>) -> bool {
    ||| w == "sir"@ ||| w == "Sir"@ ||| w == "madam"@ ||| w == "monsieur"@
    ||| w == "Madame"@ ||| w == "madame"@ ||| w == "Monsieur"@ ||| w == "Ir"@
    ||| w == "dr"@ ||| w == "Dr"@ ||| w == "III"@
}

/// Whether `w` is one of the particles of `is_von`.
pub fn word_is_von(w: &str) -> (b: bool)
    ensures
        b == is_von(w@),
{
    text_eq(w, "d'")
        || text_eq(w, "da")
        || text_eq(w, "das")
        || text_eq(w, "de la")
        || text_eq(w, "de las")
        || text_eq(w, "de los")
        || text_eq(w, "de")
        || text_eq(w, "del")
        || text_eq(w, "des")
        || text_eq(w, "do")
        || text_eq(w, "dos")
        || text_eq(w, "du")
        || text_eq(w, "van de")
        || text_eq(w, "van der")
        || text_eq(w, "van")
        || text_eq(w, "dei")
        || text_eq(w, "della")
        || text_eq(w, "delle")
        || text_eq(w, "di")
        || text_eq(w, "la")
        || text_eq(w, "las")
        || text_eq(w, "los")
        || text_eq(w, "von der")
        || text_eq(w, "von")
        || text_eq(w, "zu")
        || text_eq(w, "zum")
        || text_eq(w, "zur")
        || text_eq(w, "af")
        || text_eq(w, "ze")
        || text_eq(w, "Z")
        || text_eq(w, "из")
        || text_eq(w, "iz")
}

/// Whether `w` is one of the titles of `is_title`.
pub fn word_is_title(w: &str) -> (b: bool)
    ensures
        b == is_title(w@),
{
    text_eq(w, "sir")
        || text_eq(w, "Sir")
        || text_eq(w, "madam")
        || text_eq(w, "monsieur")
        || text_eq(w, "Madame")
        || text_eq(w, "madame")
        || text_eq(w, "Monsieur")
        || text_eq(w, "Ir")
        || text_eq(w, "dr")
        || text_eq(w, "Dr")
        || text_eq(w, "III")
}

// ----- the grammar -----

/// An exec token result agrees with a spec one: same end, same text.
pub open spec fn token_agrees<'a>(r: Option<(usize, &'a str)>, sp: Option<(int, Seq<char>)>) -> bool {
    match (r, sp) {
        (Some((e, w)), Some((se, sw))) => e as int == se && w@ == sw,
        (None, None) => true,
        _ => false,
    }
}

/// An exec word-list result agrees with a spec one.
pub open spec fn words_agree<'a>(
    r: Option<(usize, Vec<&'a str>)>,
    sp: Option<(int, Seq<Seq<char>>)>,
) -> bool {
    match (r, sp) {
        (Some((e, ws)), Some((se, sws))) => e as int == se && str_views(ws@) == sws,
        (None, None) => true,
        _ => false,
    }
}

/// `open`, then a run of class `k`, then the character that ends the run;
/// the text is the run. This reads `{..}` and `".."`.
pub open spec fn delimited_spec(s: Seq<char>, i: int, open: char, k: CharClass) -> Option<(int, Seq<char>)> {
    if 0 <= i < s.len() && s[i] == open {
        let e = span_end(s, i + 1, k);
        if e < s.len() {
            Some((e + 1, s.subrange(i + 1, e)))
        } else {
            None
        }
    } else {
        None
    }
}

/// `{...}`: everything up to the first closing brace.
pub open spec fn brace_literal_spec(s: Seq<char>, i: int) -> Option<(int, Seq<char>)> {
    delimited_spec(s, i, '{', CharClass::NotCloseBrace)
}

/// `"..."`: everything up to the next double quote.
pub open spec fn quote_literal_spec(s: Seq<char>, i: int) -> Option<(int, Seq<char>)> {
    delimited_spec(s, i, '"', CharClass::NotQuote)
}

/// A run of letters that is not the word "and" in any case.
pub open spec fn inner_word_spec(s: Seq<char>, i: int) -> Option<(int, Seq<char>)> {
    let e = span_end(s, i, CharClass::Alphabetic);
    if 0 <= i <= s.len() && e > i && lowercase(s.subrange(i, e)) != "and"@ {
        Some((e, s.subrange(i, e)))
    } else {
        None
    }
}

/// Where a chain of `-word` that starts at `i` ends.
pub open spec fn hyphen_end(s: Seq<char>, i: int) -> int
    decreases s.len() - i,
{
    if 0 <= i < s.len() && s[i] == '-' {
        match inner_word_spec(s, i + 1) {
            Some((e, _)) => {
                proof {
                    lemma_span(s, i + 1, CharClass::Alphabetic);
                }
                hyphen_end(s, e)
            },
            None => i,
        }
    } else {
        i
    }
}

/// Words joined by hyphens, such as "Jean-Jacques".
pub open spec fn hyphenated_spec(s: Seq<char>, i: int) -> Option<(int, Seq<char>)> {
    match inner_word_spec(s, i) {
        Some((e, _)) => {
            let f = hyphen_end(s, e);
            Some((f, s.subrange(i, f)))
        },
        None => None,
    }
}

/// A braced literal, a quoted literal, or a (hyphenated) word.
pub open spec fn word_spec(s: Seq<char>, i: int) -> Option<(int, Seq<char>)> {
    match brace_literal_spec(s, i) {
        Some(r) => Some(r),
        None => match quote_literal_spec(s, i) {
            Some(r) => Some(r),
            None => match hyphenated_spec(s, i) {
                Some(r) => Some(r),
                None => inner_word_spec(s, i),
            },
        },
    }
}

/// A word followed by a full stop, such as "E."; the text is the word.
pub open spec fn initial_spec(s: Seq<char>, i: int) -> Option<(int, Seq<char>)> {
    match word_spec(s, i) {
        Some((e, w)) => if 0 <= e < s.len() && s[e] == '.' {
            Some((e + 1, w))
        } else {
            None
        },
        None => None,
    }
}

/// One word of a name: an initial, else a word.
pub open spec fn token_spec(s: Seq<char>, i: int) -> Option<(int, Seq<char>)> {
    match initial_spec(s, i) {
        Some(r) => Some(r),
        None => word_spec(s, i),
    }
}

/// A token that reads something ends after where it starts, within the text.
pub proof fn lemma_token_bounds(s: Seq<char>, i: int)
    requires
        0 <= i <= s.len(),
    ensures
        inner_word_spec(s, i) matches Some((e, _)) ==> i < e <= s.len(),
        hyphenated_spec(s, i) matches Some((e, _)) ==> i < e <= s.len(),
        word_spec(s, i) matches Some((e, _)) ==> i < e <= s.len(),
        token_spec(s, i) matches Some((e, _)) ==> i < e <= s.len(),
        brace_literal_spec(s, i) matches Some((e, _)) ==> i < e <= s.len(),
        quote_literal_spec(s, i) matches Some((e, _)) ==> i < e <= s.len(),
{
    lemma_span(s, i, CharClass::Alphabetic);
    if i < s.len() {
        lemma_span(s, i + 1, CharClass::NotCloseBrace);
        lemma_span(s, i + 1, CharClass::NotQuote);
    }
    if let Some((e, _)) = inner_word_spec(s, i) {
        lemma_hyphen_end(s, e);
    }
}

/// A hyphen chain ends within the text, no earlier than it starts.
pub proof fn lemma_hyphen_end(s: Seq<char>, i: int)
    requires
        0 <= i <= s.len(),
    ensures
        i <= hyphen_end(s, i) <= s.len(),
    decreases s.len() - i,
{
    if 0 <= i < s.len() && s[i] == '-' {
        lemma_span(s, i + 1, CharClass::Alphabetic);
        if let Some((e, _)) = inner_word_spec(s, i + 1) {
            lemma_hyphen_end(s, e);
        }
    }
}

/// The tokens after the first one: each follows one or more spaces or tabs.
/// The result is where the list ends and the tokens read.
pub open spec fn more_words_spec(s: Seq<char>, i: int) -> (int, Seq<Seq<char>>)
    decreases s.len() - i,
{
    if 0 <= i <= s.len() {
        let j = span_end(s, i, CharClass::Space);
        if j > i {
            match token_spec(s, j) {
                Some((e, w)) => {
                    proof {
                        lemma_span(s, i, CharClass::Space);
                        lemma_token_bounds(s, j);
                    }
                    let r = more_words_spec(s, e);
                    (r.0, seq![w] + r.1)
                },
                None => (i, seq![]),
            }
        } else {
            (i, seq![])
        }
    } else {
        (i, seq![])
    }
}

/// One or more tokens separated by spaces or tabs.
pub open spec fn words_spec(s: Seq<char>, i: int) -> Option<(int, Seq<Seq<char>>)> {
    match token_spec(s, i) {
        Some((e, w)) => {
            let r = more_words_spec(s, e);
            Some((r.0, seq![w] + r.1))
        },
        None => None,
    }
}

pub open spec fn von_pred() -> spec_fn(Seq<char>) -> bool {
    |w: Seq<char>| is_von(w)
}

pub open spec fn not_von_pred() -> spec_fn(Seq<char>) -> bool {
    |w: Seq<char>| !is_von(w)
}

pub open spec fn title_pred() -> spec_fn(Seq<char>) -> bool {
    |w: Seq<char>| is_title(w)
}

pub open spec fn not_title_pred() -> spec_fn(Seq<char>) -> bool {
    |w: Seq<char>| !is_title(w)
}

/// The roles of the words of `Last, First`: particles go to `von` and titles
/// to `title`, from the first names before the last names.
pub open spec fn last_first_parts(last_with_von: Seq<Seq<char>>, first_with_von: Seq<Seq<char>>) -> NameParts {
    let first = first_with_von.filter(not_von_pred());
    let last = last_with_von.filter(not_von_pred());
    NameParts {
        von: first_with_von.filter(von_pred()) + last_with_von.filter(von_pred()),
        title: first.filter(title_pred()) + last.filter(title_pred()),
        first: first.filter(not_title_pred()),
        last: last.filter(not_title_pred()),
    }
}

/// `Last, First`: two lists of words around a comma.
pub open spec fn last_first_spec(s: Seq<char>, i: int) -> Option<(int, NameParts)> {
    match words_spec(s, i) {
        Some((e1, last)) => {
            let k = span_end(s, e1, CharClass::MultiSpace);
            if 0 <= k < s.len() && s[k] == ',' {
                match words_spec(s, span_end(s, k + 1, CharClass::MultiSpace)) {
                    Some((e2, first)) => Some((e2, last_first_parts(last, first))),
                    None => None,
                }
            } else {
                None
            }
        },
        None => None,
    }
}

/// Whether one of the words is a particle.
pub open spec fn has_particle(ws: Seq<Seq<char>>) -> bool {
    exists|a: int| 0 <= a < ws.len() && is_von(#[trigger] ws[a])
}

/// The position of the first particle among the words.
#[verifier::opaque]
pub open spec fn first_particle(ws: Seq<Seq<char>>) -> int {
    choose|a: int| 0 <= a < ws.len() && is_von(ws[a]) && forall|x: int| 0 <= x < a ==> !is_von(#[trigger] ws[x])
}

/// The position of the last particle among the words.
#[verifier::opaque]
pub open spec fn last_particle(ws: Seq<Seq<char>>) -> int {
    choose|b: int|
        0 <= b < ws.len() && is_von(ws[b]) && forall|x: int| b < x < ws.len() ==> !is_von(#[trigger] ws[x])
}

/// The roles of the words before, between and after the particles, with the
/// titles taken out of the first and last names.
pub open spec fn roles(f: Seq<Seq<char>>, v: Seq<Seq<char>>, l: Seq<Seq<char>>) -> NameParts {
    NameParts {
        first: f.filter(not_title_pred()),
        last: l.filter(not_title_pred()),
        von: v,
        title: f.filter(title_pred()) + l.filter(title_pred()),
    }
}

/// The roles of the words of `First von Last`: the words from the first
/// particle to the last one are `von`, those before are first names and those
/// after last names; without a particle the last word is the last name.
/// Titles then leave the first and last names.
pub open spec fn first_last_parts(ws: Seq<Seq<char>>) -> NameParts {
    let n = ws.len() as int;
    if has_particle(ws) {
        let a = first_particle(ws);
        let b = last_particle(ws);
        roles(ws.take(a), ws.subrange(a, b + 1), ws.subrange(b + 1, n))
    } else {
        roles(ws.take(n - 1), seq![], seq![ws[n - 1]])
    }
}

/// `First von Last`: one list of words.
pub open spec fn first_last_spec(s: Seq<char>, i: int) -> Option<(int, NameParts)> {
    match words_spec(s, i) {
        Some((e, ws)) => Some((e, first_last_parts(ws))),
        None => None,
    }
}

/// A name: `Last, First`, else `First von Last`.
pub open spec fn full_name_spec(s: Seq<char>, i: int) -> Option<(int, NameParts)> {
    match last_first_spec(s, i) {
        Some(r) => Some(r),
        None => first_last_spec(s, i),
    }
}

/// Whether `s[i..]` starts with "and" in any case of its letters.
pub open spec fn and_at(s: Seq<char>, i: int) -> bool {
    &&& 0 <= i && i + 3 <= s.len()
    &&& (s[i] == 'a' || s[i] == 'A')
    &&& (s[i + 1] == 'n' || s[i + 1] == 'N')
    &&& (s[i + 2] == 'd' || s[i + 2] == 'D')
}

/// The separator between two names: "and" with spaces or tabs around it.
/// The result is where it ends.
pub open spec fn and_sep_spec(s: Seq<char>, i: int) -> Option<int> {
    let j = span_end(s, i, CharClass::Space);
    if and_at(s, j) {
        Some(span_end(s, j + 3, CharClass::Space))
    } else {
        None
    }
}

/// The names after the first one, each after a separator.
pub open spec fn more_names_spec(s: Seq<char>, i: int) -> (int, Seq<NameParts>)
    decreases s.len() - i,
{
    if 0 <= i <= s.len() {
        match and_sep_spec(s, i) {
            Some(k) => match full_name_spec(s, k) {
                Some((e, n)) => {
                    proof {
                        lemma_and_sep(s, i);
                        lemma_full_name_bounds(s, k);
                    }
                    let r = more_names_spec(s, e);
                    (r.0, seq![n] + r.1)
                },
                None => (i, seq![]),
            },
            None => (i, seq![]),
        }
    } else {
        (i, seq![])
    }
}

/// One or more names joined by "and".
pub open spec fn names_spec(s: Seq<char>, i: int) -> Option<(int, Seq<NameParts>)> {
    match full_name_spec(s, i) {
        Some((e, n)) => {
            let r = more_names_spec(s, e);
            Some((r.0, seq![n] + r.1))
        },
        None => None,
    }
}

/// A separator ends after where it starts, within the text.
pub proof fn lemma_and_sep(s: Seq<char>, i: int)
    requires
        0 <= i <= s.len(),
    ensures
        and_sep_spec(s, i) matches Some(k) ==> i < k <= s.len(),
{
    lemma_span(s, i, CharClass::Space);
    let j = span_end(s, i, CharClass::Space);
    if and_at(s, j) {
        lemma_span(s, j + 3, CharClass::Space);
    }
}

/// A list of words ends after where it starts, within the text.
pub proof fn lemma_words_bounds(s: Seq<char>, i: int)
    requires
        0 <= i <= s.len(),
    ensures
        words_spec(s, i) matches Some((e, ws)) ==> i < e <= s.len() && ws.len() >= 1,
{
    lemma_token_bounds(s, i);
    if let Some((e, w)) = token_spec(s, i) {
        lemma_more_words_bounds(s, e);
    }
}

/// The rest of a list of words ends within the text, no earlier than it starts.
pub proof fn lemma_more_words_bounds(s: Seq<char>, i: int)
    requires
        0 <= i <= s.len(),
    ensures
        i <= more_words_spec(s, i).0 <= s.len(),
    decreases s.len() - i,
{
    let j = span_end(s, i, CharClass::Space);
    lemma_span(s, i, CharClass::Space);
    if j > i {
        lemma_token_bounds(s, j);
        if let Some((e, w)) = token_spec(s, j) {
            lemma_more_words_bounds(s, e);
        }
    }
}

/// A name ends after where it starts, within the text.
pub proof fn lemma_full_name_bounds(s: Seq<char>, i: int)
    requires
        0 <= i <= s.len(),
    ensures
        full_name_spec(s, i) matches Some((e, _)) ==> i < e <= s.len(),
        last_first_spec(s, i) matches Some((e, _)) ==> i < e <= s.len(),
        first_last_spec(s, i) matches Some((e, _)) ==> i < e <= s.len(),
{
    lemma_words_bounds(s, i);
    if let Some((e1, last)) = words_spec(s, i) {
        lemma_span(s, e1, CharClass::MultiSpace);
        let k = span_end(s, e1, CharClass::MultiSpace);
        if 0 <= k < s.len() && s[k] == ',' {
            lemma_span(s, k + 1, CharClass::MultiSpace);
            lemma_words_bounds(s, span_end(s, k + 1, CharClass::MultiSpace));
        }
    }
}

// ----- reading the grammar -----

pub(crate) fn delimited_at<'a>(input: &'a str, cs: &Vec<char>, i: usize, open: char, k: CharClass) -> (r: Option<(usize, &'a str)>)
    requires
        cs@ == input@,
        i <= cs.len(),
    ensures
        token_agrees(r, delimited_spec(cs@, i as int, open, k)),
{
    if i < cs.len() && cs[i] == open {
        let e = span(cs, i + 1, k);
        if e < cs.len() {
            Some((e + 1, input.substring_char(i + 1, e)))
        } else {
            None
        }
    } else {
        None
    }
}

fn inner_word_at<'a>(input: &'a str, cs: &Vec<char>, i: usize) -> (r: Option<(usize, &'a str)>)
    requires
        cs@ == input@,
        i <= cs.len(),
    ensures
        token_agrees(r, inner_word_spec(cs@, i as int)),
{
    let e = span(cs, i, CharClass::Alphabetic);
    if e == i {
        return None;
    }
    let w = input.substring_char(i, e);
    let lower = to_lowercase(w);
    if text_eq(lower.as_str(), "and") {
        None
    } else {
        Some((e, w))
    }
}

fn hyphenated_at<'a>(input: &'a str, cs: &Vec<char>, i: usize) -> (r: Option<(usize, &'a str)>)
    requires
        cs@ == input@,
        i <= cs.len(),
    ensures
        token_agrees(r, hyphenated_spec(cs@, i as int)),
{
    let first = inner_word_at(input, cs, i);
    match first {
        None => None,
        Some((e, _)) => {
            proof {
                lemma_token_bounds(cs@, i as int);
            }
            let mut j = e;
            loop
                invariant
                    i < e <= j <= cs.len(),
                    cs@ == input@,
                    hyphen_end(cs@, e as int) == hyphen_end(cs@, j as int),
                ensures
                    hyphen_end(cs@, e as int) == j,
                    i < j <= cs.len(),
                decreases cs.len() - j,
            {
                if j < cs.len() && cs[j] == '-' {
                    match inner_word_at(input, cs, j + 1) {
                        Some((e2, _)) => {
                            proof {
                                lemma_token_bounds(cs@, j + 1);
                            }
                            j = e2;
                        },
                        None => break,
                    }
                } else {
                    break;
                }
            }
            Some((j, input.substring_char(i, j)))
        },
    }
}

fn word_at<'a>(input: &'a str, cs: &Vec<char>, i: usize) -> (r: Option<(usize, &'a str)>)
    requires
        cs@ == input@,
        i <= cs.len(),
    ensures
        token_agrees(r, word_spec(cs@, i as int)),
{
    if let Some(r) = delimited_at(input, cs, i, '{', CharClass::NotCloseBrace) {
        return Some(r);
    }
    if let Some(r) = delimited_at(input, cs, i, '"', CharClass::NotQuote) {
        return Some(r);
    }
    if let Some(r) = hyphenated_at(input, cs, i) {
        return Some(r);
    }
    inner_word_at(input, cs, i)
}

fn token_at<'a>(input: &'a str, cs: &Vec<char>, i: usize) -> (r: Option<(usize, &'a str)>)
    requires
        cs@ == input@,
        i <= cs.len(),
    ensures
        token_agrees(r, token_spec(cs@, i as int)),
{
    let w = word_at(input, cs, i);
    proof {
        lemma_token_bounds(cs@, i as int);
    }
    match w {
        Some((e, text)) => {
            if e < cs.len() && cs[e] == '.' {
                Some((e + 1, text))
            } else {
                Some((e, text))
            }
        },
        None => None,
    }
}

fn words_at<'a>(input: &'a str, cs: &Vec<char>, i: usize) -> (r: Option<(usize, Vec<&'a str>)>)
    requires
        cs@ == input@,
        i <= cs.len(),
    ensures
        words_agree(r, words_spec(cs@, i as int)),
{
    let first = token_at(input, cs, i);
    match first {
        None => None,
        Some((e, w)) => {
            proof {
                lemma_token_bounds(cs@, i as int);
            }
            let mut ws: Vec<&'a str> = Vec::new();
            ws.push(w);
            let mut j = e;
            let ghost seen: Seq<Seq<char>> = seq![w@];
            proof {
                assert(str_views(ws@) =~= seen);
                assert(more_words_spec(cs@, e as int) == (more_words_spec(cs@, j as int).0, seq![] + more_words_spec(cs@, j as int).1));
            }
            loop
                invariant
                    e <= j <= cs.len(),
                    cs@ == input@,
                    seen.len() >= 1,
                    seen[0] == w@,
                    str_views(ws@) == seen,
                    more_words_spec(cs@, e as int) == (more_words_spec(cs@, j as int).0, seen.drop_first() + more_words_spec(cs@, j as int).1),
                ensures
                    e <= j <= cs.len(),
                    seen.len() >= 1,
                    seen[0] == w@,
                    str_views(ws@) == seen,
                    more_words_spec(cs@, e as int) == (j as int, seen.drop_first()),
                decreases cs.len() - j,
            {
                let k = span(cs, j, CharClass::Space);
                if k == j {
                    proof {
                        assert(seen.drop_first() + seq![] =~= seen.drop_first());
                    }
                    break;
                }
                match token_at(input, cs, k) {
                    Some((e2, w2)) => {
                        proof {
                            lemma_token_bounds(cs@, k as int);
                            let r = more_words_spec(cs@, e2 as int);
                            assert(more_words_spec(cs@, j as int) == (r.0, seq![w2@] + r.1));
                            assert(seen.drop_first() + (seq![w2@] + r.1) =~= seen.push(w2@).drop_first() + r.1);
                            seen = seen.push(w2@);
                        }
                        ws.push(w2);
                        proof {
                            assert(str_views(ws@) =~= seen);
                        }
                        j = e2;
                    },
                    None => {
                        proof {
                            assert(seen.drop_first() + seq![] =~= seen.drop_first());
                        }
                        break;
                    },
                }
            }
            proof {
                assert(seq![w@] + seen.drop_first() =~= seen);
            }
            Some((j, ws))
        },
    }
}

/// `ws[from..to]`.
fn sub_words<'a>(ws: &Vec<&'a str>, from: usize, to: usize) -> (r: Vec<&'a str>)
    requires
        from <= to <= ws.len(),
    ensures
        str_views(r@) == str_views(ws@).subrange(from as int, to as int),
{
    let mut r: Vec<&'a str> = Vec::new();
    let mut j = from;
    while j < to
        invariant
            from <= j <= to <= ws.len(),
            r@.len() == j - from,
            str_views(r@) == str_views(ws@).subrange(from as int, j as int),
        decreases to - j,
    {
        let ghost before = r@;
        r.push(ws[j]);
        proof {
            assert(r@ == before.push(ws@[j as int]));
            assert(str_views(r@) =~= str_views(ws@).subrange(from as int, j + 1));
        }
        j = j + 1;
    }
    r
}

/// `a + b`.
fn join_words<'a>(a: Vec<&'a str>, b: Vec<&'a str>) -> (r: Vec<&'a str>)
    ensures
        str_views(r@) == str_views(a@) + str_views(b@),
{
    let ghost a0 = a@;
    let ghost b0 = b@;
    let mut a = a;
    let mut b = b;
    a.append(&mut b);
    proof {
        assert(str_views(a@) =~= str_views(a0) + str_views(b0));
    }
    a
}

/// The words of `ws` that are particles (`by_title` false) or titles
/// (`by_title` true), and those that are not, each in their order.
fn split_words<'a>(ws: &Vec<&'a str>, by_title: bool) -> (r: (Vec<&'a str>, Vec<&'a str>))
    ensures
        !by_title ==> str_views(r.0@) == str_views(ws@).filter(von_pred()),
        !by_title ==> str_views(r.1@) == str_views(ws@).filter(not_von_pred()),
        by_title ==> str_views(r.0@) == str_views(ws@).filter(title_pred()),
        by_title ==> str_views(r.1@) == str_views(ws@).filter(not_title_pred()),
{
    let ghost p = if by_title { title_pred() } else { von_pred() };
    let ghost q = if by_title { not_title_pred() } else { not_von_pred() };
    let ghost all = str_views(ws@);
    let mut yes: Vec<&'a str> = Vec::new();
    let mut no: Vec<&'a str> = Vec::new();
    let mut k: usize = 0;
    proof {
        assert(all.take(0) =~= Seq::<Seq<char>>::empty());
        reveal(Seq::filter);
    }
    while k < ws.len()
        invariant
            k <= ws.len(),
            all == str_views(ws@),
            p == (if by_title { title_pred() } else { von_pred() }),
            q == (if by_title { not_title_pred() } else { not_von_pred() }),
            str_views(yes@) == all.take(k as int).filter(p),
            str_views(no@) == all.take(k as int).filter(q),
        decreases ws.len() - k,
    {
        let w = ws[k];
        let hit = if by_title { word_is_title(w) } else { word_is_von(w) };
        proof {
            assert(all.take(k + 1) =~= all.take(k as int).push(w@));
            all.take(k as int).lemma_filter_push(w@, p);
            all.take(k as int).lemma_filter_push(w@, q);
        }
        if hit {
            yes.push(w);
        } else {
            no.push(w);
        }
        proof {
            assert(str_views(yes@) =~= all.take(k + 1).filter(p));
            assert(str_views(no@) =~= all.take(k + 1).filter(q));
        }
        k = k + 1;
    }
    proof {
        assert(all.take(ws.len() as int) =~= all);
    }
    (yes, no)
}

/// An exec name result agrees with a spec one.
pub open spec fn name_agrees<'a>(input: &'a str, r: Result<(&'a str, FullName<'a>), NameError>, sp: Option<(int, NameParts)>) -> bool {
    match (r, sp) {
        (Ok((tail, n)), Some((e, p))) => tail@ == input@.skip(e) && n.parts() == p,
        (Err(_), None) => true,
        _ => false,
    }
}

fn name_from_parts<'a>(first: Vec<&'a str>, last: Vec<&'a str>, von: Vec<&'a str>, title: Vec<&'a str>) -> (n: FullName<'a>)
    ensures
        n.parts() == (NameParts { first: str_views(first@), last: str_views(last@), von: str_views(von@), title: str_views(title@) }),
{
    FullName { first, last, von, title }
}

fn last_first_at<'a>(input: &'a str, cs: &Vec<char>, i: usize) -> (r: Option<(usize, FullName<'a>)>)
    requires
        cs@ == input@,
        i <= cs.len(),
    ensures
        match (r, last_first_spec(cs@, i as int)) {
            (Some((e, n)), Some((se, p))) => e as int == se && n.parts() == p,
            (None, None) => true,
            _ => false,
        },
{
    let lw = words_at(input, cs, i);
    proof {
        lemma_words_bounds(cs@, i as int);
    }
    let (e1, last_with_von) = match lw {
        Some(x) => x,
        None => return None,
    };
    let k = span(cs, e1, CharClass::MultiSpace);
    if !(k < cs.len() && cs[k] == ',') {
        return None;
    }
    let k2 = span(cs, k + 1, CharClass::MultiSpace);
    let (e2, first_with_von) = match words_at(input, cs, k2) {
        Some(x) => x,
        None => return None,
    };
    let (von_first, first) = split_words(&first_with_von, false);
    let (von_last, last) = split_words(&last_with_von, false);
    let von = join_words(von_first, von_last);
    let (title_first, first) = split_words(&first, true);
    let (title_last, last) = split_words(&last, true);
    let title = join_words(title_first, title_last);
    let n = name_from_parts(first, last, von, title);
    Some((e2, n))
}

fn first_last_at<'a>(input: &'a str, cs: &Vec<char>, i: usize) -> (r: Option<(usize, FullName<'a>)>)
    requires
        cs@ == input@,
        i <= cs.len(),
    ensures
        match (r, first_last_spec(cs@, i as int)) {
            (Some((e, n)), Some((se, p))) => e as int == se && n.parts() == p,
            (None, None) => true,
            _ => false,
        },
{
    let ww = words_at(input, cs, i);
    proof {
        lemma_words_bounds(cs@, i as int);
    }
    let (e, words) = match ww {
        Some(x) => x,
        None => return None,
    };
    let ghost ws = str_views(words@);
    let n = words.len();
    let mut a: usize = 0;
    while a < n
        invariant
            a <= n == words.len(),
            ws == str_views(words@),
            forall|x: int| 0 <= x < a ==> !is_von(#[trigger] ws[x]),
        ensures
            a <= n,
            forall|x: int| 0 <= x < a ==> !is_von(#[trigger] ws[x]),
            a < n ==> is_von(ws[a as int]),
        decreases n - a,
    {
        if word_is_von(words[a]) {
            break;
        }
        a = a + 1;
    }
    let (first, von, last) = if a < n {
        let mut b: usize = n - 1;
        while b > a
            invariant
                a <= b < n == words.len(),
                ws == str_views(words@),
                is_von(ws[a as int]),
                forall|x: int| b < x < n ==> !is_von(#[trigger] ws[x]),
            ensures
                a <= b < n,
                is_von(ws[b as int]),
                forall|x: int| b < x < n ==> !is_von(#[trigger] ws[x]),
            decreases b - a,
        {
            if word_is_von(words[b]) {
                break;
            }
            b = b - 1;
        }
        proof {
            assert(has_particle(ws));
            lemma_particles(ws);
            let ca = first_particle(ws);
            let cb = last_particle(ws);
            if ca < a {
                assert(!is_von(ws[ca]));
            }
            if ca > a {
                assert(!is_von(ws[a as int]));
            }
            if cb < b {
                assert(!is_von(ws[b as int]));
            }
            if cb > b {
                assert(!is_von(ws[cb]));
            }
            assert(ws.take(a as int) =~= ws.subrange(0, a as int));
        }
        (sub_words(&words, 0, a), sub_words(&words, a, b + 1), sub_words(&words, b + 1, n))
    } else {
        proof {
            assert(!(exists|x: int| 0 <= x < n && is_von(#[trigger] ws[x])));
            assert(ws.take(n - 1) =~= ws.subrange(0, n - 1));
            assert(seq![ws[n - 1]] =~= ws.subrange(n - 1, n as int));
            assert(Seq::<Seq<char>>::empty() =~= ws.subrange(0, 0));
        }
        (sub_words(&words, 0, n - 1), sub_words(&words, 0, 0), sub_words(&words, n - 1, n))
    };
    let (title_first, first) = split_words(&first, true);
    let (title_last, last) = split_words(&last, true);
    let title = join_words(title_first, title_last);
    let name = name_from_parts(first, last, von, title);
    Some((e, name))
}

fn full_name_at<'a>(input: &'a str, cs: &Vec<char>, i: usize) -> (r: Option<(usize, FullName<'a>)>)
    requires
        cs@ == input@,
        i <= cs.len(),
    ensures
        match (r, full_name_spec(cs@, i as int)) {
            (Some((e, n)), Some((se, p))) => e as int == se && n.parts() == p,
            (None, None) => true,
            _ => false,
        },
{
    match last_first_at(input, cs, i) {
        Some(r) => Some(r),
        None => first_last_at(input, cs, i),
    }
}

fn and_sep_at(cs: &Vec<char>, i: usize) -> (r: Option<usize>)
    requires
        i <= cs.len(),
    ensures
        match (r, and_sep_spec(cs@, i as int)) {
            (Some(k), Some(sk)) => k as int == sk,
            (None, None) => true,
            _ => false,
        },
{
    let j = span(cs, i, CharClass::Space);
    if cs.len() - j >= 3 && (cs[j] == 'a' || cs[j] == 'A') && (cs[j + 1] == 'n' || cs[j + 1] == 'N')
        && (cs[j + 2] == 'd' || cs[j + 2] == 'D') {
        Some(span(cs, j + 3, CharClass::Space))
    } else {
        None
    }
}

/// An exec list of names agrees with a spec one.
pub open spec fn names_agree<'a>(input: &'a str, r: Result<(&'a str, Vec<FullName<'a>>), NameError>, sp: Option<(int, Seq<NameParts>)>) -> bool {
    match (r, sp) {
        (Ok((tail, ns)), Some((e, ps))) => tail@ == input@.skip(e) && ns@.len() == ps.len()
            && forall|k: int| 0 <= k < ps.len() ==> #[trigger] ns@[k].parts() == ps[k],
        (Err(_), None) => true,
        _ => false,
    }
}

fn names_at<'a>(input: &'a str, cs: &Vec<char>, i: usize) -> (r: Option<(usize, Vec<FullName<'a>>)>)
    requires
        cs@ == input@,
        i <= cs.len(),
    ensures
        match (r, names_spec(cs@, i as int)) {
            (Some((e, ns)), Some((se, ps))) => e as int == se && ns@.len() == ps.len()
                && forall|k: int| 0 <= k < ps.len() ==> #[trigger] ns@[k].parts() == ps[k],
            (None, None) => true,
            _ => false,
        },
{
    let first = full_name_at(input, cs, i);
    proof {
        lemma_full_name_bounds(cs@, i as int);
    }
    let (e, n) = match first {
        Some(x) => x,
        None => return None,
    };
    let ghost p0 = n.parts();
    let mut ns: Vec<FullName<'a>> = Vec::new();
    ns.push(n);
    let mut j = e;
    let ghost seen: Seq<NameParts> = seq![p0];
    proof {
        assert(more_names_spec(cs@, e as int) == (more_names_spec(cs@, j as int).0, seen.drop_first() + more_names_spec(cs@, j as int).1)) by {
            assert(seen.drop_first() + more_names_spec(cs@, j as int).1 =~= more_names_spec(cs@, j as int).1);
        }
    }
    loop
        invariant
            e <= j <= cs.len(),
            cs@ == input@,
            seen.len() >= 1,
            seen[0] == p0,
            ns@.len() == seen.len(),
            forall|k: int| 0 <= k < seen.len() ==> #[trigger] ns@[k].parts() == seen[k],
            more_names_spec(cs@, e as int) == (more_names_spec(cs@, j as int).0, seen.drop_first() + more_names_spec(cs@, j as int).1),
        ensures
            e <= j <= cs.len(),
            seen.len() >= 1,
            seen[0] == p0,
            ns@.len() == seen.len(),
            forall|k: int| 0 <= k < seen.len() ==> #[trigger] ns@[k].parts() == seen[k],
            more_names_spec(cs@, e as int) == (j as int, seen.drop_first()),
        decreases cs.len() - j,
    {
        proof {
            lemma_and_sep(cs@, j as int);
        }
        let k = match and_sep_at(cs, j) {
            Some(k) => k,
            None => {
                proof {
                    assert(seen.drop_first() + seq![] =~= seen.drop_first());
                }
                break;
            },
        };
        proof {
            lemma_full_name_bounds(cs@, k as int);
        }
        match full_name_at(input, cs, k) {
            Some((e2, n2)) => {
                proof {
                    let r = more_names_spec(cs@, e2 as int);
                    assert(more_names_spec(cs@, j as int) == (r.0, seq![n2.parts()] + r.1));
                    assert(seen.drop_first() + (seq![n2.parts()] + r.1) =~= seen.push(n2.parts()).drop_first() + r.1);
                    seen = seen.push(n2.parts());
                }
                ns.push(n2);
                j = e2;
            },
            None => {
                proof {
                    assert(seen.drop_first() + seq![] =~= seen.drop_first());
                }
                break;
            },
        }
    }
    proof {
        assert(seq![p0] + seen.drop_first() =~= seen);
    }
    Some((j, ns))
}

// ----- the readers of a text -----

/// `{...}` at the start of `input`: everything up to the first closing brace.
pub fn brace_quoted_literal<'a>(input: &'a str) -> (r: Result<(&'a str, &'a str), NameError>)
    ensures
        match (r, brace_literal_spec(input@, 0)) {
            (Ok((tail, w)), Some((e, sw))) => tail@ == input@.skip(e) && w@ == sw,
            (Err(_), None) => true,
            _ => false,
        },
{
    let cs = chars_of(input);
    proof {
        lemma_token_bounds(cs@, 0);
    }
    match delimited_at(input, &cs, 0, '{', CharClass::NotCloseBrace) {
        Some((e, w)) => Ok((input.substring_char(e, cs.len()), w)),
        None => Err(NameError),
    }
}

/// `"..."` at the start of `input`: everything up to the next double quote.
pub fn quote_quoted_literal<'a>(input: &'a str) -> (r: Result<(&'a str, &'a str), NameError>)
    ensures
        match (r, quote_literal_spec(input@, 0)) {
            (Ok((tail, w)), Some((e, sw))) => tail@ == input@.skip(e) && w@ == sw,
            (Err(_), None) => true,
            _ => false,
        },
{
    let cs = chars_of(input);
    proof {
        lemma_token_bounds(cs@, 0);
    }
    match delimited_at(input, &cs, 0, '"', CharClass::NotQuote) {
        Some((e, w)) => Ok((input.substring_char(e, cs.len()), w)),
        None => Err(NameError),
    }
}

/// A name written `Last, First` at the start of `input`.
pub fn last_first<'a>(input: &'a str) -> (r: Result<(&'a str, FullName<'a>), NameError>)
    ensures
        name_agrees(input, r, last_first_spec(input@, 0)),
{
    let cs = chars_of(input);
    proof {
        lemma_full_name_bounds(cs@, 0);
    }
    match last_first_at(input, &cs, 0) {
        Some((e, n)) => Ok((input.substring_char(e, cs.len()), n)),
        None => Err(NameError),
    }
}

/// A name written `First von Last` at the start of `input`.
pub fn first_last<'a>(input: &'a str) -> (r: Result<(&'a str, FullName<'a>), NameError>)
    ensures
        name_agrees(input, r, first_last_spec(input@, 0)),
{
    let cs = chars_of(input);
    proof {
        lemma_full_name_bounds(cs@, 0);
    }
    match first_last_at(input, &cs, 0) {
        Some((e, n)) => Ok((input.substring_char(e, cs.len()), n)),
        None => Err(NameError),
    }
}

/// One or more names joined by "and" at the start of `input`.
pub fn and_seperated_names<'a>(input: &'a str) -> (r: Result<(&'a str, Vec<FullName<'a>>), NameError>)
    ensures
        names_agree(input, r, names_spec(input@, 0)),
{
    let cs = chars_of(input);
    proof {
        lemma_full_name_bounds(cs@, 0);
        if let Some((e, ns)) = names_spec(cs@, 0) {
            lemma_more_names_bounds(cs@, full_name_spec(cs@, 0).unwrap().0);
        }
    }
    match names_at(input, &cs, 0) {
        Some((e, ns)) => Ok((input.substring_char(e, cs.len()), ns)),
        None => Err(NameError),
    }
}

/// The rest of a list of names ends within the text, no earlier than it starts.
pub proof fn lemma_more_names_bounds(s: Seq<char>, i: int)
    requires
        0 <= i <= s.len(),
    ensures
        i <= more_names_spec(s, i).0 <= s.len(),
    decreases s.len() - i,
{
    lemma_and_sep(s, i);
    if let Some(k) = and_sep_spec(s, i) {
        lemma_full_name_bounds(s, k);
        if let Some((e, n)) = full_name_spec(s, k) {
            lemma_more_names_bounds(s, e);
        }
    }
}

/// Owned copies of borrowed words.
fn own_words<'a>(ws: &Vec<&'a str>) -> (r: Vec<String>)
    ensures
        string_views(r@) == str_views(ws@),
{
    let mut r: Vec<String> = Vec::new();
    let mut i: usize = 0;
    while i < ws.len()
        invariant
            i <= ws.len(),
            r@.len() == i,
            forall|j: int| 0 <= j < i ==> #[trigger] r@[j]@ == ws@[j]@,
        decreases ws.len() - i,
    {
        r.push(String::from_str(ws[i]));
        i = i + 1;
    }
    assert(string_views(r@) =~= str_views(ws@));
    r
}

/// Copies of the words.
fn copy_words(ws: &Vec<String>) -> (r: Vec<String>)
    ensures
        string_views(r@) == string_views(ws@),
{
    let mut r: Vec<String> = Vec::new();
    let mut i: usize = 0;
    while i < ws.len()
        invariant
            i <= ws.len(),
            r@.len() == i,
            forall|j: int| 0 <= j < i ==> #[trigger] r@[j]@ == ws@[j]@,
        decreases ws.len() - i,
    {
        r.push(ws[i].clone());
        i = i + 1;
    }
    assert(string_views(r@) =~= string_views(ws@));
    r
}

impl Clone for OwnedFullName {
    fn clone(&self) -> (r: Self)
        ensures
            r.parts() == self.parts(),
    {
        OwnedFullName {
            first: copy_words(&self.first),
            last: copy_words(&self.last),
            von: copy_words(&self.von),
            title: copy_words(&self.title),
        }
    }
}

impl OwnedFullName {
    /// A name that owns copies of the words of `name`.
    pub fn from_name(name: &FullName) -> (r: OwnedFullName)
        ensures
            r.parts() == name.parts(),
    {
        OwnedFullName {
            first: own_words(&name.first),
            last: own_words(&name.last),
            von: own_words(&name.von),
            title: own_words(&name.title),
        }
    }
}

/// Splitting a list by a predicate and its negation keeps every word: the
/// two parts together hold the words of the list, each as often.
proof fn lemma_filter_split(s: Seq<Seq<char>>, p: spec_fn(Seq<char>) -> bool, q: spec_fn(Seq<char>) -> bool)
    requires
        forall|w: Seq<char>| #[trigger] q(w) == !p(w),
    ensures
        s.filter(p).to_multiset().add(s.filter(q).to_multiset()) =~= s.to_multiset(),
    decreases s.len(),
{
    broadcast use vstd::seq_lib::to_multiset_build, vstd::multiset::group_multiset_axioms;

    if s.len() == 0 {
        assert(s.filter(p) =~= Seq::<Seq<char>>::empty());
        assert(s.filter(q) =~= Seq::<Seq<char>>::empty());
        assert(s.to_multiset() =~= Multiset::empty());
        assert(s.filter(p).to_multiset() =~= Multiset::empty());
        assert(s.filter(q).to_multiset() =~= Multiset::empty());
    } else {
        let t = s.drop_last();
        let w = s.last();
        lemma_filter_split(t, p, q);
        assert(t.push(w) =~= s);
        t.lemma_filter_push(w, p);
        t.lemma_filter_push(w, q);
    }
}

/// A filter that every word passes keeps the list as it is.
proof fn lemma_filter_all(s: Seq<Seq<char>>, p: spec_fn(Seq<char>) -> bool)
    requires
        forall|i: int| 0 <= i < s.len() ==> #[trigger] p(s[i]),
    ensures
        s.filter(p) == s,
    decreases s.len(),
{
    if s.len() == 0 {
        assert(s.filter(p) =~= s);
    } else {
        let t = s.drop_last();
        assert forall|i: int| 0 <= i < t.len() implies #[trigger] p(t[i]) by {
            assert(t[i] == s[i]);
        }
        lemma_filter_all(t, p);
        assert(t.push(s.last()) =~= s);
        t.lemma_filter_push(s.last(), p);
    }
}

/// The first particle at or after `k`, when none comes before `k`.
proof fn lemma_first_von(ws: Seq<Seq<char>>, k: int) -> (a: int)
    requires
        0 <= k <= ws.len(),
        exists|x: int| k <= x < ws.len() && is_von(#[trigger] ws[x]),
        forall|x: int| 0 <= x < k ==> !is_von(#[trigger] ws[x]),
    ensures
        0 <= a < ws.len(),
        is_von(ws[a]),
        forall|x: int| 0 <= x < a ==> !is_von(#[trigger] ws[x]),
    decreases ws.len() - k,
{
    if is_von(ws[k]) {
        k
    } else {
        lemma_first_von(ws, k + 1)
    }
}

/// The last particle at or before `k`, when none comes after `k`.
proof fn lemma_last_von(ws: Seq<Seq<char>>, k: int) -> (b: int)
    requires
        -1 <= k < ws.len(),
        exists|x: int| 0 <= x <= k && is_von(#[trigger] ws[x]),
        forall|x: int| k < x < ws.len() ==> !is_von(#[trigger] ws[x]),
    ensures
        0 <= b < ws.len(),
        is_von(ws[b]),
        forall|x: int| b < x < ws.len() ==> !is_von(#[trigger] ws[x]),
    decreases k + 1,
{
    if is_von(ws[k]) {
        k
    } else {
        lemma_last_von(ws, k - 1)
    }
}

/// With a particle among the words, the first and the last particle are
/// where `first_particle` and `last_particle` say.
pub proof fn lemma_particles(ws: Seq<Seq<char>>)
    requires
        has_particle(ws),
    ensures
        0 <= first_particle(ws) <= last_particle(ws) < ws.len(),
        is_von(ws[first_particle(ws)]),
        is_von(ws[last_particle(ws)]),
        forall|x: int| 0 <= x < first_particle(ws) ==> !is_von(#[trigger] ws[x]),
        forall|x: int| last_particle(ws) < x < ws.len() ==> !is_von(#[trigger] ws[x]),
{
    lemma_first_particle(ws);
    lemma_last_particle(ws);
    let ca = first_particle(ws);
    let cb = last_particle(ws);
    if ca > cb {
        assert(!is_von(ws[ca]));
    }
}

/// With a particle among the words, `first_particle` is the first of them.
proof fn lemma_first_particle(ws: Seq<Seq<char>>)
    requires
        has_particle(ws),
    ensures
        0 <= first_particle(ws) < ws.len(),
        is_von(ws[first_particle(ws)]),
        forall|x: int| 0 <= x < first_particle(ws) ==> !is_von(#[trigger] ws[x]),
{
    reveal(first_particle);
    let a0 = lemma_first_von(ws, 0);
    assert(0 <= a0 < ws.len() && is_von(ws[a0]) && forall|x: int| 0 <= x < a0 ==> !is_von(#[trigger] ws[x]));
}

/// With a particle among the words, `last_particle` is the last of them.
proof fn lemma_last_particle(ws: Seq<Seq<char>>)
    requires
        has_particle(ws),
    ensures
        0 <= last_particle(ws) < ws.len(),
        is_von(ws[last_particle(ws)]),
        forall|x: int| last_particle(ws) < x < ws.len() ==> !is_von(#[trigger] ws[x]),
{
    reveal(last_particle);
    let b0 = lemma_last_von(ws, ws.len() - 1);
    assert(0 <= b0 < ws.len() && is_von(ws[b0]) && forall|x: int| b0 < x < ws.len() ==> !is_von(#[trigger] ws[x]));
}

/// Reading a name in `First von Last` order loses no word and adds none: its
/// first names, particles, last names and titles hold the words of the name,
/// each as often as it occurs there. The particles are the words from the
/// first particle to the last one. A name without particles has none; if it
/// has no title either, its last word is the last name and the words before
/// it, in order, are the first names.
pub proof fn lemma_first_last_keeps_words(ws: Seq<Seq<char>>)
    requires
        ws.len() > 0,
    ensures
        ({
            let p = first_last_parts(ws);
            (p.first + p.von + p.last + p.title).to_multiset() =~= ws.to_multiset()
        }),
        forall|a: int, b: int|
            #![trigger is_von(ws[a]), is_von(ws[b])]
            0 <= a <= b < ws.len() && is_von(ws[a]) && is_von(ws[b])
                && (forall|x: int| 0 <= x < a ==> !is_von(#[trigger] ws[x]))
                && (forall|x: int| b < x < ws.len() ==> !is_von(#[trigger] ws[x]))
                ==> first_last_parts(ws).von == ws.subrange(a, b + 1),
        (forall|x: int| 0 <= x < ws.len() ==> !is_von(#[trigger] ws[x])) ==> first_last_parts(ws).von.len() == 0,
        (forall|x: int| 0 <= x < ws.len() ==> !is_von(#[trigger] ws[x]) && !is_title(ws[x])) ==> {
            &&& first_last_parts(ws).first == ws.take(ws.len() - 1)
            &&& first_last_parts(ws).last == seq![ws[ws.len() - 1]]
        },
{
    let n = ws.len() as int;
    if has_particle(ws) {
        lemma_particles(ws);
        let ca = first_particle(ws);
        let cb = last_particle(ws);
        let f = ws.take(ca);
        let v = ws.subrange(ca, cb + 1);
        let l = ws.subrange(cb + 1, n);
        assert(ws =~= f + v + l);
        lemma_roles_keep_words(f, v, l);
        assert forall|a: int, b: int|
            #![trigger is_von(ws[a]), is_von(ws[b])]
            0 <= a <= b < n && is_von(ws[a]) && is_von(ws[b])
                && (forall|x: int| 0 <= x < a ==> !is_von(#[trigger] ws[x]))
                && (forall|x: int| b < x < n ==> !is_von(#[trigger] ws[x]))
                implies first_last_parts(ws).von == ws.subrange(a, b + 1) by {
            if a < ca {
                assert(!is_von(ws[a]));
            }
            if a > ca {
                assert(!is_von(ws[ca]));
            }
            if b < cb {
                assert(!is_von(ws[cb]));
            }
            if b > cb {
                assert(!is_von(ws[b]));
            }
        }
    } else {
        lemma_no_von_split(ws);
    }
}

/// Without a particle among the words, `first_last_parts` takes the last word
/// as the last name; without a title either, the others are the first names.
proof fn lemma_no_von_split(ws: Seq<Seq<char>>)
    requires
        ws.len() > 0,
        forall|x: int| 0 <= x < ws.len() ==> !is_von(#[trigger] ws[x]),
    ensures
        ({
            let p = first_last_parts(ws);
            (p.first + p.von + p.last + p.title).to_multiset() =~= ws.to_multiset()
        }),
        first_last_parts(ws).von.len() == 0,
        (forall|x: int| 0 <= x < ws.len() ==> !is_title(#[trigger] ws[x])) ==> {
            &&& first_last_parts(ws).first == ws.take(ws.len() - 1)
            &&& first_last_parts(ws).last == seq![ws[ws.len() - 1]]
        },
{
    let n = ws.len() as int;
    let f = ws.take(n - 1);
    let v = Seq::<Seq<char>>::empty();
    let l = seq![ws[n - 1]];
    assert(first_last_parts(ws) == roles(f, v, l));
    assert(ws =~= f + v + l);
    lemma_roles_keep_words(f, v, l);
    if forall|x: int| 0 <= x < n ==> !is_title(#[trigger] ws[x]) {
        assert forall|i: int| 0 <= i < f.len() implies #[trigger] not_title_pred()(f[i]) by {
            assert(f[i] == ws[i]);
            assert(!is_title(ws[i]));
        }
        lemma_filter_all(f, not_title_pred());
        assert(!is_title(ws[n - 1]));
        assert(not_title_pred()(l[0]));
        lemma_filter_all(l, not_title_pred());
    }
}

/// Taking the titles out of the first and last names, and putting them
/// together, keeps the words of the three parts.
proof fn lemma_roles_keep_words(f: Seq<Seq<char>>, v: Seq<Seq<char>>, l: Seq<Seq<char>>)
    ensures
        ({
            let p = roles(f, v, l);
            (p.first + p.von + p.last + p.title).to_multiset() =~= (f + v + l).to_multiset()
        }),
{
    broadcast use vstd::seq_lib::lemma_multiset_commutative, vstd::multiset::group_multiset_axioms;

    assert forall|w: Seq<char>| #[trigger] not_title_pred()(w) == !title_pred()(w) by {}
    lemma_filter_split(f, title_pred(), not_title_pred());
    lemma_filter_split(l, title_pred(), not_title_pred());
}

/// The words `sir`, `Sir`, `madam`, `monsieur`, `Madame`, `madame`,
/// `Monsieur`, `Ir`, `dr`, `Dr` and `III` are titles and not particles.
proof fn lemma_title_word(w: Seq<char>)
    requires
        w == "sir"@
            || w == "Sir"@
            || w == "madam"@
            || w == "monsieur"@
            || w == "Madame"@
            || w == "madame"@
            || w == "Monsieur"@
            || w == "Ir"@
            || w == "dr"@
            || w == "Dr"@
            || w == "III"@,
    ensures
        is_title(w),
        !is_von(w),
{
    if w == "sir"@ {
        reveal_strlit("sir");
        assert(w.len() == 3 && w[0] == 's' && w[1] == 'i');
        reveal_strlit("d'");
        reveal_strlit("da");
        reveal_strlit("das");
        reveal_strlit("de la");
        reveal_strlit("de las");
        reveal_strlit("de los");
        reveal_strlit("de");
        reveal_strlit("del");
        reveal_strlit("des");
        reveal_strlit("do");
        reveal_strlit("dos");
        reveal_strlit("du");
        reveal_strlit("van de");
        reveal_strlit("van der");
        reveal_strlit("van");
        reveal_strlit("dei");
        reveal_strlit("della");
        reveal_strlit("delle");
        reveal_strlit("di");
        reveal_strlit("la");
        reveal_strlit("las");
        reveal_strlit("los");
        reveal_strlit("von der");
        reveal_strlit("von");
        reveal_strlit("zu");
        reveal_strlit("zum");
        reveal_strlit("zur");
        reveal_strlit("af");
        reveal_strlit("ze");
        reveal_strlit("Z");
        reveal_strlit("из");
        reveal_strlit("iz");
        assert(!is_von(w));
    }
    if w == "Sir"@ {
        reveal_strlit("Sir");
        assert(w.len() == 3 && w[0] == 'S' && w[1] == 'i');
        reveal_strlit("d'");
        reveal_strlit("da");
        reveal_strlit("das");
        reveal_strlit("de la");
        reveal_strlit("de las");
        reveal_strlit("de los");
        reveal_strlit("de");
        reveal_strlit("del");
        reveal_strlit("des");
        reveal_strlit("do");
        reveal_strlit("dos");
        reveal_strlit("du");
        reveal_strlit("van de");
        reveal_strlit("van der");
        reveal_strlit("van");
        reveal_strlit("dei");
        reveal_strlit("della");
        reveal_strlit("delle");
        reveal_strlit("di");
        reveal_strlit("la");
        reveal_strlit("las");
        reveal_strlit("los");
        reveal_strlit("von der");
        reveal_strlit("von");
        reveal_strlit("zu");
        reveal_strlit("zum");
        reveal_strlit("zur");
        reveal_strlit("af");
        reveal_strlit("ze");
        reveal_strlit("Z");
        reveal_strlit("из");
        reveal_strlit("iz");
        assert(!is_von(w));
    }
    if w == "madam"@ {
        reveal_strlit("madam");
        assert(w.len() == 5 && w[0] == 'm' && w[1] == 'a');
        reveal_strlit("d'");
        reveal_strlit("da");
        reveal_strlit("das");
        reveal_strlit("de la");
        reveal_strlit("de las");
        reveal_strlit("de los");
        reveal_strlit("de");
        reveal_strlit("del");
        reveal_strlit("des");
        reveal_strlit("do");
        reveal_strlit("dos");
        reveal_strlit("du");
        reveal_strlit("van de");
        reveal_strlit("van der");
        reveal_strlit("van");
        reveal_strlit("dei");
        reveal_strlit("della");
        reveal_strlit("delle");
        reveal_strlit("di");
        reveal_strlit("la");
        reveal_strlit("las");
        reveal_strlit("los");
        reveal_strlit("von der");
        reveal_strlit("von");
        reveal_strlit("zu");
        reveal_strlit("zum");
        reveal_strlit("zur");
        reveal_strlit("af");
        reveal_strlit("ze");
        reveal_strlit("Z");
        reveal_strlit("из");
        reveal_strlit("iz");
        assert(!is_von(w));
    }
    if w == "monsieur"@ {
        reveal_strlit("monsieur");
        assert(w.len() == 8 && w[0] == 'm' && w[1] == 'o');
        reveal_strlit("d'");
        reveal_strlit("da");
        reveal_strlit("das");
        reveal_strlit("de la");
        reveal_strlit("de las");
        reveal_strlit("de los");
        reveal_strlit("de");
        reveal_strlit("del");
        reveal_strlit("des");
        reveal_strlit("do");
        reveal_strlit("dos");
        reveal_strlit("du");
        reveal_strlit("van de");
        reveal_strlit("van der");
        reveal_strlit("van");
        reveal_strlit("dei");
        reveal_strlit("della");
        reveal_strlit("delle");
        reveal_strlit("di");
        reveal_strlit("la");
        reveal_strlit("las");
        reveal_strlit("los");
        reveal_strlit("von der");
        reveal_strlit("von");
        reveal_strlit("zu");
        reveal_strlit("zum");
        reveal_strlit("zur");
        reveal_strlit("af");
        reveal_strlit("ze");
        reveal_strlit("Z");
        reveal_strlit("из");
        reveal_strlit("iz");
        assert(!is_von(w));
    }
    if w == "Madame"@ {
        reveal_strlit("Madame");
        assert(w.len() == 6 && w[0] == 'M' && w[1] == 'a');
        reveal_strlit("d'");
        reveal_strlit("da");
        reveal_strlit("das");
        reveal_strlit("de la");
        reveal_strlit("de las");
        reveal_strlit("de los");
        reveal_strlit("de");
        reveal_strlit("del");
        reveal_strlit("des");
        reveal_strlit("do");
        reveal_strlit("dos");
        reveal_strlit("du");
        reveal_strlit("van de");
        reveal_strlit("van der");
        reveal_strlit("van");
        reveal_strlit("dei");
        reveal_strlit("della");
        reveal_strlit("delle");
        reveal_strlit("di");
        reveal_strlit("la");
        reveal_strlit("las");
        reveal_strlit("los");
        reveal_strlit("von der");
        reveal_strlit("von");
        reveal_strlit("zu");
        reveal_strlit("zum");
        reveal_strlit("zur");
        reveal_strlit("af");
        reveal_strlit("ze");
        reveal_strlit("Z");
        reveal_strlit("из");
        reveal_strlit("iz");
        assert(!is_von(w));
    }
    if w == "madame"@ {
        reveal_strlit("madame");
        assert(w.len() == 6 && w[0] == 'm' && w[1] == 'a');
        reveal_strlit("d'");
        reveal_strlit("da");
        reveal_strlit("das");
        reveal_strlit("de la");
        reveal_strlit("de las");
        reveal_strlit("de los");
        reveal_strlit("de");
        reveal_strlit("del");
        reveal_strlit("des");
        reveal_strlit("do");
        reveal_strlit("dos");
        reveal_strlit("du");
        reveal_strlit("van de");
        reveal_strlit("van der");
        reveal_strlit("van");
        reveal_strlit("dei");
        reveal_strlit("della");
        reveal_strlit("delle");
        reveal_strlit("di");
        reveal_strlit("la");
        reveal_strlit("las");
        reveal_strlit("los");
        reveal_strlit("von der");
        reveal_strlit("von");
        reveal_strlit("zu");
        reveal_strlit("zum");
        reveal_strlit("zur");
        reveal_strlit("af");
        reveal_strlit("ze");
        reveal_strlit("Z");
        reveal_strlit("из");
        reveal_strlit("iz");
        assert(!is_von(w));
    }
    if w == "Monsieur"@ {
        reveal_strlit("Monsieur");
        assert(w.len() == 8 && w[0] == 'M' && w[1] == 'o');
        reveal_strlit("d'");
        reveal_strlit("da");
        reveal_strlit("das");
        reveal_strlit("de la");
        reveal_strlit("de las");
        reveal_strlit("de los");
        reveal_strlit("de");
        reveal_strlit("del");
        reveal_strlit("des");
        reveal_strlit("do");
        reveal_strlit("dos");
        reveal_strlit("du");
        reveal_strlit("van de");
        reveal_strlit("van der");
        reveal_strlit("van");
        reveal_strlit("dei");
        reveal_strlit("della");
        reveal_strlit("delle");
        reveal_strlit("di");
        reveal_strlit("la");
        reveal_strlit("las");
        reveal_strlit("los");
        reveal_strlit("von der");
        reveal_strlit("von");
        reveal_strlit("zu");
        reveal_strlit("zum");
        reveal_strlit("zur");
        reveal_strlit("af");
        reveal_strlit("ze");
        reveal_strlit("Z");
        reveal_strlit("из");
        reveal_strlit("iz");
        assert(!is_von(w));
    }
    if w == "Ir"@ {
        reveal_strlit("Ir");
        assert(w.len() == 2 && w[0] == 'I' && w[1] == 'r');
        reveal_strlit("d'");
        reveal_strlit("da");
        reveal_strlit("das");
        reveal_strlit("de la");
        reveal_strlit("de las");
        reveal_strlit("de los");
        reveal_strlit("de");
        reveal_strlit("del");
        reveal_strlit("des");
        reveal_strlit("do");
        reveal_strlit("dos");
        reveal_strlit("du");
        reveal_strlit("van de");
        reveal_strlit("van der");
        reveal_strlit("van");
        reveal_strlit("dei");
        reveal_strlit("della");
        reveal_strlit("delle");
        reveal_strlit("di");
        reveal_strlit("la");
        reveal_strlit("las");
        reveal_strlit("los");
        reveal_strlit("von der");
        reveal_strlit("von");
        reveal_strlit("zu");
        reveal_strlit("zum");
        reveal_strlit("zur");
        reveal_strlit("af");
        reveal_strlit("ze");
        reveal_strlit("Z");
        reveal_strlit("из");
        reveal_strlit("iz");
        assert(!is_von(w));
    }
    if w == "dr"@ {
        reveal_strlit("dr");
        assert(w.len() == 2 && w[0] == 'd' && w[1] == 'r');
        reveal_strlit("d'");
        reveal_strlit("da");
        reveal_strlit("das");
        reveal_strlit("de la");
        reveal_strlit("de las");
        reveal_strlit("de los");
        reveal_strlit("de");
        reveal_strlit("del");
        reveal_strlit("des");
        reveal_strlit("do");
        reveal_strlit("dos");
        reveal_strlit("du");
        reveal_strlit("van de");
        reveal_strlit("van der");
        reveal_strlit("van");
        reveal_strlit("dei");
        reveal_strlit("della");
        reveal_strlit("delle");
        reveal_strlit("di");
        reveal_strlit("la");
        reveal_strlit("las");
        reveal_strlit("los");
        reveal_strlit("von der");
        reveal_strlit("von");
        reveal_strlit("zu");
        reveal_strlit("zum");
        reveal_strlit("zur");
        reveal_strlit("af");
        reveal_strlit("ze");
        reveal_strlit("Z");
        reveal_strlit("из");
        reveal_strlit("iz");
        assert(!is_von(w));
    }
    if w == "Dr"@ {
        reveal_strlit("Dr");
        assert(w.len() == 2 && w[0] == 'D' && w[1] == 'r');
        reveal_strlit("d'");
        reveal_strlit("da");
        reveal_strlit("das");
        reveal_strlit("de la");
        reveal_strlit("de las");
        reveal_strlit("de los");
        reveal_strlit("de");
        reveal_strlit("del");
        reveal_strlit("des");
        reveal_strlit("do");
        reveal_strlit("dos");
        reveal_strlit("du");
        reveal_strlit("van de");
        reveal_strlit("van der");
        reveal_strlit("van");
        reveal_strlit("dei");
        reveal_strlit("della");
        reveal_strlit("delle");
        reveal_strlit("di");
        reveal_strlit("la");
        reveal_strlit("las");
        reveal_strlit("los");
        reveal_strlit("von der");
        reveal_strlit("von");
        reveal_strlit("zu");
        reveal_strlit("zum");
        reveal_strlit("zur");
        reveal_strlit("af");
        reveal_strlit("ze");
        reveal_strlit("Z");
        reveal_strlit("из");
        reveal_strlit("iz");
        assert(!is_von(w));
    }
    if w == "III"@ {
        reveal_strlit("III");
        assert(w.len() == 3 && w[0] == 'I' && w[1] == 'I');
        reveal_strlit("d'");
        reveal_strlit("da");
        reveal_strlit("das");
        reveal_strlit("de la");
        reveal_strlit("de las");
        reveal_strlit("de los");
        reveal_strlit("de");
        reveal_strlit("del");
        reveal_strlit("des");
        reveal_strlit("do");
        reveal_strlit("dos");
        reveal_strlit("du");
        reveal_strlit("van de");
        reveal_strlit("van der");
        reveal_strlit("van");
        reveal_strlit("dei");
        reveal_strlit("della");
        reveal_strlit("delle");
        reveal_strlit("di");
        reveal_strlit("la");
        reveal_strlit("las");
        reveal_strlit("los");
        reveal_strlit("von der");
        reveal_strlit("von");
        reveal_strlit("zu");
        reveal_strlit("zum");
        reveal_strlit("zur");
        reveal_strlit("af");
        reveal_strlit("ze");
        reveal_strlit("Z");
        reveal_strlit("из");
        reveal_strlit("iz");
        assert(!is_von(w));
    }
}

/// A title written before the first names of a `Last, First` name is taken
/// out of them: it opens the titles of the name, and the first names are the
/// other words after the comma that are neither particles nor titles.
pub proof fn lemma_title_before_first_names(w: Seq<char>, last: Seq<Seq<char>>, rest: Seq<Seq<char>>)
    requires
        w == "sir"@
            || w == "Sir"@
            || w == "madam"@
            || w == "monsieur"@
            || w == "Madame"@
            || w == "madame"@
            || w == "Monsieur"@
            || w == "Ir"@
            || w == "dr"@
            || w == "Dr"@
            || w == "III"@,
    ensures
        ({
            let p = last_first_parts(last, seq![w] + rest);
            &&& p.title.len() > 0
            &&& p.title[0] == w
            &&& p.first == rest.filter(not_von_pred()).filter(not_title_pred())
            &&& p.von == rest.filter(von_pred()) + last.filter(von_pred())
        }),
{
    lemma_title_word(w);
    lemma_title_first(w, last, rest);
}

/// A word that is a title and not a particle, before the first names.
proof fn lemma_title_first(w: Seq<char>, last: Seq<Seq<char>>, rest: Seq<Seq<char>>)
    requires
        is_title(w),
        !is_von(w),
    ensures
        ({
            let p = last_first_parts(last, seq![w] + rest);
            &&& p.title.len() > 0
            &&& p.title[0] == w
            &&& p.first == rest.filter(not_von_pred()).filter(not_title_pred())
            &&& p.von == rest.filter(von_pred()) + last.filter(von_pred())
        }),
{
    rest.lemma_filter_prepend(w, not_von_pred());
    rest.lemma_filter_prepend(w, von_pred());
    let r = rest.filter(not_von_pred());
    assert(seq![w] + rest.filter(not_von_pred()) == (seq![w] + rest).filter(not_von_pred()));
    r.lemma_filter_prepend(w, not_title_pred());
    r.lemma_filter_prepend(w, title_pred());
    assert((seq![w] + r).filter(title_pred()) == seq![w] + r.filter(title_pred()));
}

} // verus!
