//! Reading BibTeX: entries, their fields, and the names of people.
//!
//! This module itself holds a simpler name grammar in which a name is made of
//! ASCII words only: `Last, First` or `First ... Last`.

pub mod entry;
pub mod fields;
pub mod names;
pub mod text;

pub use names::brace_quoted_literal;

use names::{str_views, NameError};
use text::{
    chars_of, lemma_span, span, span_end, starts_with_at, tag_no_case, tag_no_case_at, CharClass,
};
use vstd::prelude::*;
use vstd::string::StrSliceExecFns;

verus! {

broadcast use vstd::seq_lib::group_seq_properties;

/// The words of one part of a name.
#[derive(Debug, Default, Clone, PartialEq, Eq)]
pub struct NameComponent<'a> {
    pub components: Vec<&'a str>,
}

impl<'a> NameComponent<'a> {
    /// The texts of the words.
    pub open spec fn words(&self) -> Seq<Seq<char>> {
        str_views(self.components@)
    }

    /// No words.
    pub fn new() -> (r: Self)
        ensures
            r.words() == Seq::<Seq<char>>::empty(),
    {
        let r = NameComponent { components: Vec::new() };
        assert(r.words() =~= Seq::<Seq<char>>::empty());
        r
    }

    /// The words of `self` followed by those of `other`.
    pub fn merge(self, other: NameComponent<'a>) -> (r: Self)
        ensures
            r.words() == self.words() + other.words(),
    {
        let mut a = self.components;
        let mut b = other.components;
        a.append(&mut b);
        let r = NameComponent { components: a };
        assert(r.words() =~= self.words() + other.words());
        r
    }

    /// One word.
    pub fn from_word(word: &'a str) -> (r: Self)
        ensures
            r.words() == seq![word@],
    {
        let mut v = Vec::new();
        v.push(word);
        let r = NameComponent { components: v };
        assert(r.words() =~= seq![word@]);
        r
    }

    /// The given words, in order.
    pub fn from_words(words: Vec<&'a str>) -> (r: Self)
        ensures
            r.words() == str_views(words@),
    {
        NameComponent { components: words }
    }
}

/// Merging name components is associative, and `new` adds no words on
/// either side.
pub proof fn lemma_merge_laws(a: Seq<Seq<char>>, b: Seq<Seq<char>>, c: Seq<Seq<char>>)
    ensures
        (a + b) + c == a + (b + c),
        Seq::<Seq<char>>::empty() + a == a,
        a + Seq::<Seq<char>>::empty() == a,
{
    assert((a + b) + c =~= a + (b + c));
    assert(Seq::<Seq<char>>::empty() + a =~= a);
    assert(a + Seq::<Seq<char>>::empty() =~= a);
}

/// A name of first and last names only.
#[derive(Debug, Default, Clone, PartialEq, Eq)]
pub struct FullName<'a> {
    pub first: NameComponent<'a>,
    pub last: NameComponent<'a>,
}

// ----- the grammar -----

/// A run of ASCII letters.
pub open spec fn ascii_word_spec(s: Seq<char>, i: int) -> Option<(int, Seq<char>)> {
    let e = span_end(s, i, CharClass::AsciiAlpha);
    if 0 <= i <= s.len() && e > i {
        Some((e, s.subrange(i, e)))
    } else {
        None
    }
}

/// The words after the first one, each after one or more spaces or tabs.
pub open spec fn more_ascii_words_spec(s: Seq<char>, i: int) -> (int, Seq<Seq<char>>)
    decreases s.len() - i,
{
    if 0 <= i <= s.len() {
        let j = span_end(s, i, CharClass::Space);
        if j > i {
            match ascii_word_spec(s, j) {
                Some((e, w)) => {
                    proof {
                        lemma_span(s, i, CharClass::Space);
                        lemma_span(s, j, CharClass::AsciiAlpha);
                    }
                    let r = more_ascii_words_spec(s, e);
                    (r.0, seq![w] + r.1)
                },
                None => (i, seq![]),
            }
        } else {
            (i, seq![])
        }
    } else {
        (i, seq![])
    }
}

/// One or more words separated by spaces or tabs.
pub open spec fn ascii_words_spec(s: Seq<char>, i: int) -> Option<(int, Seq<Seq<char>>)> {
    match ascii_word_spec(s, i) {
        Some((e, w)) => {
            let r = more_ascii_words_spec(s, e);
            Some((r.0, seq![w] + r.1))
        },
        None => None,
    }
}

/// `Last, First`: the result is where it ends, the last names and the first
/// names.
pub open spec fn last_first_spec(s: Seq<char>, i: int) -> Option<(int, Seq<Seq<char>>, Seq<Seq<char>>)> {
    match ascii_words_spec(s, i) {
        Some((e1, last)) => {
            let k = span_end(s, e1, CharClass::Space);
            if 0 <= k < s.len() && s[k] == ',' {
                match ascii_words_spec(s, span_end(s, k + 1, CharClass::Space)) {
                    Some((e2, first)) => Some((e2, last, first)),
                    None => None,
                }
            } else {
                None
            }
        },
        None => None,
    }
}

/// `First ... Last`: the last word is the last name, the others are first
/// names. The result is where it ends, the last names and the first names.
pub open spec fn first_last_spec(s: Seq<char>, i: int) -> Option<(int, Seq<Seq<char>>, Seq<Seq<char>>)> {
    match ascii_words_spec(s, i) {
        Some((e, ws)) => Some((e, seq![ws.last()], ws.drop_last())),
        None => None,
    }
}

/// The name particles, in the order in which they are tried: Dutch, English,
/// German, French, Italian, Spanish, Portuguese, Scandinavian, Russian and
/// Polish. All are written in lower case and match in any case.
pub open spec fn von_tags() -> Seq<Seq<char>> {
    seq![
        "van der"@, "van de"@, "van"@, "of"@, "von der"@, "von"@, "zum"@, "zur"@, "zu"@, "des"@,
        "du"@, "d'"@, "della"@, "delle"@, "del"@, "dei"@, "di"@, "d'"@, "del"@, "de los"@,
        "de las"@, "de la"@, "de"@, "dos"@, "das"@, "de"@, "do"@, "da"@, "af"@, "из"@, "iz"@,
        "ze"@, "z"@,
    ]
}

/// The first particle from index `k` on of `von_tags` that `s[i..]` starts
/// with, in any case; the result is its length.
pub open spec fn first_von_from(s: Seq<char>, i: int, k: int) -> Option<int>
    decreases von_tags().len() - k,
{
    if 0 <= k < von_tags().len() {
        if tag_no_case_at(s, i, von_tags()[k]) {
            Some(von_tags()[k].len() as int)
        } else {
            first_von_from(s, i, k + 1)
        }
    } else {
        None
    }
}

fn von_tag(k: usize) -> (t: &'static str)
    requires
        k < 33,
    ensures
        t@ == von_tags()[k as int],
{
    match k {
        0 => "van der",
        1 => "van de",
        2 => "van",
        3 => "of",
        4 => "von der",
        5 => "von",
        6 => "zum",
        7 => "zur",
        8 => "zu",
        9 => "des",
        10 => "du",
        11 => "d'",
        12 => "della",
        13 => "delle",
        14 => "del",
        15 => "dei",
        16 => "di",
        17 => "d'",
        18 => "del",
        19 => "de los",
        20 => "de las",
        21 => "de la",
        22 => "de",
        23 => "dos",
        24 => "das",
        25 => "de",
        26 => "do",
        27 => "da",
        28 => "af",
        29 => "из",
        30 => "iz",
        31 => "ze",
        _ => "z",
    }
}

// ----- reading the grammar -----

fn ascii_word_at<'a>(input: &'a str, cs: &Vec<char>, i: usize) -> (r: Option<(usize, &'a str)>)
    requires
        cs@ == input@,
        i <= cs.len(),
    ensures
        names::token_agrees(r, ascii_word_spec(cs@, i as int)),
{
    let e = span(cs, i, CharClass::AsciiAlpha);
    if e == i {
        None
    } else {
        Some((e, input.substring_char(i, e)))
    }
}

fn ascii_words_at<'a>(input: &'a str, cs: &Vec<char>, i: usize) -> (r: Option<(usize, Vec<&'a str>)>)
    requires
        cs@ == input@,
        i <= cs.len(),
    ensures
        names::words_agree(r, ascii_words_spec(cs@, i as int)),
{
    let first = ascii_word_at(input, cs, i);
    proof {
        lemma_span(cs@, i as int, CharClass::AsciiAlpha);
    }
    match first {
        None => None,
        Some((e, w)) => {
            let mut ws: Vec<&'a str> = Vec::new();
            ws.push(w);
            let mut j = e;
            let ghost seen: Seq<Seq<char>> = seq![w@];
            proof {
                assert(str_views(ws@) =~= seen);
                assert(more_ascii_words_spec(cs@, e as int) == (more_ascii_words_spec(cs@, j as int).0, seq![] + more_ascii_words_spec(cs@, j as int).1));
            }
            loop
                invariant
                    e <= j <= cs.len(),
                    cs@ == input@,
                    seen.len() >= 1,
                    seen[0] == w@,
                    str_views(ws@) == seen,
                    more_ascii_words_spec(cs@, e as int) == (more_ascii_words_spec(cs@, j as int).0, seen.drop_first() + more_ascii_words_spec(cs@, j as int).1),
                ensures
                    e <= j <= cs.len(),
                    seen.len() >= 1,
                    seen[0] == w@,
                    str_views(ws@) == seen,
                    more_ascii_words_spec(cs@, e as int) == (j as int, seen.drop_first()),
                decreases cs.len() - j,
            {
                let k = span(cs, j, CharClass::Space);
                if k == j {
                    proof {
                        assert(seen.drop_first() + seq![] =~= seen.drop_first());
                    }
                    break;
                }
                match ascii_word_at(input, cs, k) {
                    Some((e2, w2)) => {
                        proof {
                            lemma_span(cs@, k as int, CharClass::AsciiAlpha);
                            let r = more_ascii_words_spec(cs@, e2 as int);
                            assert(more_ascii_words_spec(cs@, j as int) == (r.0, seq![w2@] + r.1));
                            assert(seen.drop_first() + (seq![w2@] + r.1) =~= seen.push(w2@).drop_first() + r.1);
                            seen = seen.push(w2@);
                        }
                        ws.push(w2);
                        proof {
                            assert(str_views(ws@) =~= seen);
                        }
                        j = e2;
                    },
                    None => {
                        proof {
                            assert(seen.drop_first() + seq![] =~= seen.drop_first());
                        }
                        break;
                    },
                }
            }
            proof {
                assert(seq![w@] + seen.drop_first() =~= seen);
            }
            Some((j, ws))
        },
    }
}

/// A run of ASCII letters at the start of `input`.
pub fn word<'a>(input: &'a str) -> (r: Result<(&'a str, &'a str), NameError>)
    ensures
        match (r, ascii_word_spec(input@, 0)) {
            (Ok((tail, w)), Some((e, sw))) => tail@ == input@.skip(e) && w@ == sw,
            (Err(_), None) => true,
            _ => false,
        },
{
    let cs = chars_of(input);
    proof {
        lemma_span(cs@, 0, CharClass::AsciiAlpha);
    }
    match ascii_word_at(input, &cs, 0) {
        Some((e, w)) => Ok((input.substring_char(e, cs.len()), w)),
        None => Err(NameError),
    }
}

/// One or more runs of ASCII letters separated by spaces or tabs, at the start
/// of `input`.
pub fn space_seperated_words<'a>(input: &'a str) -> (r: Result<(&'a str, Vec<&'a str>), NameError>)
    ensures
        match (r, ascii_words_spec(input@, 0)) {
            (Ok((tail, ws)), Some((e, sws))) => tail@ == input@.skip(e) && str_views(ws@) == sws,
            (Err(_), None) => true,
            _ => false,
        },
{
    let cs = chars_of(input);
    proof {
        lemma_ascii_words_bounds(cs@, 0);
    }
    match ascii_words_at(input, &cs, 0) {
        Some((e, ws)) => Ok((input.substring_char(e, cs.len()), ws)),
        None => Err(NameError),
    }
}

/// A list of words ends after where it starts, within the text.
pub proof fn lemma_ascii_words_bounds(s: Seq<char>, i: int)
    requires
        0 <= i <= s.len(),
    ensures
        ascii_words_spec(s, i) matches Some((e, ws)) ==> i < e <= s.len() && ws.len() >= 1,
{
    lemma_span(s, i, CharClass::AsciiAlpha);
    if let Some((e, w)) = ascii_word_spec(s, i) {
        lemma_more_ascii_words_bounds(s, e);
    }
}

/// The rest of a list of words ends within the text, no earlier than it starts.
pub proof fn lemma_more_ascii_words_bounds(s: Seq<char>, i: int)
    requires
        0 <= i <= s.len(),
    ensures
        i <= more_ascii_words_spec(s, i).0 <= s.len(),
    decreases s.len() - i,
{
    let j = span_end(s, i, CharClass::Space);
    lemma_span(s, i, CharClass::Space);
    if j > i {
        lemma_span(s, j, CharClass::AsciiAlpha);
        if let Some((e, w)) = ascii_word_spec(s, j) {
            lemma_more_ascii_words_bounds(s, e);
        }
    }
}

/// An exec name result agrees with a spec one.
pub open spec fn simple_name_agrees<'a>(
    input: &'a str,
    r: Result<(&'a str, FullName<'a>), NameError>,
    sp: Option<(int, Seq<Seq<char>>, Seq<Seq<char>>)>,
) -> bool {
    match (r, sp) {
        (Ok((tail, n)), Some((e, last, first))) => tail@ == input@.skip(e) && n.last.words() == last
            && n.first.words() == first,
        (Err(_), None) => true,
        _ => false,
    }
}

/// A name written `Last, First` at the start of `input`.
pub fn last_first<'a>(input: &'a str) -> (r: Result<(&'a str, FullName<'a>), NameError>)
    ensures
        simple_name_agrees(input, r, last_first_spec(input@, 0)),
{
    let cs = chars_of(input);
    proof {
        lemma_ascii_words_bounds(cs@, 0);
    }
    let (e1, last) = match ascii_words_at(input, &cs, 0) {
        Some(x) => x,
        None => return Err(NameError),
    };
    let k = span(&cs, e1, CharClass::Space);
    if !(k < cs.len() && cs[k] == ',') {
        return Err(NameError);
    }
    let k2 = span(&cs, k + 1, CharClass::Space);
    proof {
        lemma_ascii_words_bounds(cs@, k2 as int);
    }
    let (e2, first) = match ascii_words_at(input, &cs, k2) {
        Some(x) => x,
        None => return Err(NameError),
    };
    let name = FullName { first: NameComponent::from_words(first), last: NameComponent::from_words(last) };
    Ok((input.substring_char(e2, cs.len()), name))
}

/// A name written `First ... Last` at the start of `input`.
pub fn first_last<'a>(input: &'a str) -> (r: Result<(&'a str, FullName<'a>), NameError>)
    ensures
        simple_name_agrees(input, r, first_last_spec(input@, 0)),
{
    let cs = chars_of(input);
    proof {
        lemma_ascii_words_bounds(cs@, 0);
    }
    let (e, mut words) = match ascii_words_at(input, &cs, 0) {
        Some(x) => x,
        None => return Err(NameError),
    };
    let ghost all = str_views(words@);
    let last_word = words.pop().unwrap();
    proof {
        assert(str_views(words@) =~= all.drop_last());
    }
    let name = FullName { first: NameComponent::from_words(words), last: NameComponent::from_word(last_word) };
    Ok((input.substring_char(e, cs.len()), name))
}

/// A name particle ("van", "de la", "zu", ...) at the start of `input`, in any
/// case; the particles are tried in the order of `von_tags`.
pub fn von<'a>(input: &'a str) -> (r: Result<(&'a str, &'a str), NameError>)
    ensures
        match (r, first_von_from(input@, 0, 0)) {
            (Ok((tail, w)), Some(n)) => w@ == input@.take(n) && tail@ == input@.skip(n),
            (Err(_), None) => true,
            _ => false,
        },
{
    let cs = chars_of(input);
    let mut k: usize = 0;
    while k < 33
        invariant
            k <= 33,
            cs@ == input@,
            von_tags().len() == 33,
            first_von_from(cs@, 0, 0) == first_von_from(cs@, 0, k as int),
        decreases 33 - k,
    {
        let t = chars_of(von_tag(k));
        if tag_no_case(&cs, 0, &t) {
            let n = t.len();
            return Ok((input.substring_char(n, cs.len()), input.substring_char(0, n)));
        }
        k = k + 1;
    }
    Err(NameError)
}

} // verus!
