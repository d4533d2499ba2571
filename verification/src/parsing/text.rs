//! Character classes, text primitives of std that vstd leaves unspecified, and
//! scanning over a sequence of characters.
//!
//! The grammars of this crate are stated as spec functions over a `Seq<char>`
//! and a position in it; a parser at position `i` gives back the position where
//! it stopped and what it read.

use vstd::prelude::*;
use vstd::std_specs::iter::IteratorSpec;
use vstd::string::StringExecFns;

verus! {

/// What `char::is_alphabetic` says of a character (Unicode's `Alphabetic`).
pub uninterp spec fn char_is_alphabetic(c: char) -> bool;

/// What `str::to_lowercase` gives back for a text (Unicode lower case).
pub uninterp spec fn lowercase(s: Seq<char>) -> Seq<char>;

/// Whether every character of `s` is an ASCII character.
pub open spec fn is_ascii_text(s: Seq<char>) -> bool {
    forall|i: int| 0 <= i < s.len() ==> (#[trigger] s[i] as u32) < 128
}

/// The ASCII lower case of `c`.
pub open spec fn ascii_lower(c: char) -> char {
    if 'A' <= c && c <= 'Z' {
        ((c as u32) + 32) as char
    } else {
        c
    }
}

/// Each character of `s` in ASCII lower case.
pub open spec fn ascii_lowercase(s: Seq<char>) -> Seq<char> {
    Seq::new(s.len(), |i: int| ascii_lower(s[i]))
}

/// `char::is_alphabetic`: whether the character has Unicode's `Alphabetic`
/// property. Its result is a function of the character alone; of the ASCII
/// characters, exactly the letters `A`-`Z` and `a`-`z` have the property.
#[verifier::external_body]
pub(crate) fn is_alphabetic(c: char) -> (b: bool)
    ensures
        b == char_is_alphabetic(c),
        (c as u32) < 128 ==> (b == (('a' <= c && c <= 'z') || ('A' <= c && c <= 'Z'))),
{
    c.is_alphabetic()
}

/// `str::to_lowercase`: the Unicode lower case of a text. Its result is a
/// function of the text alone; on an ASCII text it maps `A`-`Z` to `a`-`z`
/// and leaves every other character as it is.
#[verifier::external_body]
pub(crate) fn to_lowercase(s: &str) -> (r: String)
    ensures
        r@ == lowercase(s@),
        is_ascii_text(s@) ==> r@ == ascii_lowercase(s@),
{
    s.to_lowercase()
}

/// `String::push`: appends one character.
#[verifier::external_body]
pub(crate) fn push_char(s: &mut String, c: char)
    ensures
        final(s)@ == old(s)@.push(c),
{
    s.push(c)
}

/// The characters of a text, in order.
pub fn chars_of(s: &str) -> (v: Vec<char>)
    ensures
        v@ == s@,
{
    broadcast use vstd::string::group_string_axioms;
    let mut v: Vec<char> = Vec::new();
    let mut it = s.chars();
    loop
        invariant
            v@ + it.remaining() == s@,
            it.obeys_prophetic_iter_laws(),
            it.decrease() is Some,
        ensures
            v@ == s@,
        decreases it.decrease()->0,
    {
        let ghost before = it.remaining();
        match it.next() {
            Some(c) => {
                v.push(c);
                assert(v@ + it.remaining() =~= s@) by {
                    assert(before =~= seq![c] + it.remaining());
                }
            },
            None => {
                assert(v@ =~= s@);
                break;
            },
        }
    }
    v
}

/// The classes of characters that the grammars skip over or read runs of.
#[derive(Clone, Copy, PartialEq, Eq, Debug)]
pub enum CharClass {
    /// Unicode letters (`char::is_alphabetic`).
    Alphabetic,
    /// ASCII letters.
    AsciiAlpha,
    /// Space and tab.
    Space,
    /// Space, tab, carriage return and line feed.
    MultiSpace,
    /// Anything but `"`.
    NotQuote,
    /// Anything but `}`.
    NotCloseBrace,
    /// Anything but `,`.
    NotComma,
    /// Anything but `,` and `}`.
    NotCommaOrBrace,
    /// Anything whose low byte is neither a space nor a tab.
    NotSpaceByte,
}

/// Whether `c` is an ASCII letter.
pub open spec fn is_ascii_alpha(c: char) -> bool {
    ('a' <= c && c <= 'z') || ('A' <= c && c <= 'Z')
}

/// Whether the low byte of `c` is a space or a tab, as `c as u8` sees it.
pub open spec fn is_space_byte(c: char) -> bool {
    (c as u32) % 256 == 32 || (c as u32) % 256 == 9
}

/// Whether `c` belongs to the class `k`.
pub open spec fn in_class(k: CharClass, c: char) -> bool {
    match k {
        CharClass::Alphabetic => char_is_alphabetic(c),
        CharClass::AsciiAlpha => is_ascii_alpha(c),
        CharClass::Space => c == ' ' || c == '\t',
        CharClass::MultiSpace => c == ' ' || c == '\t' || c == '\r' || c == '\n',
        CharClass::NotQuote => c != '"',
        CharClass::NotCloseBrace => c != '}',
        CharClass::NotComma => c != ',',
        CharClass::NotCommaOrBrace => c != ',' && c != '}',
        CharClass::NotSpaceByte => !is_space_byte(c),
    }
}

/// The end of the longest run of characters of class `k` that starts at `i`.
pub open spec fn span_end(s: Seq<char>, i: int, k: CharClass) -> int
    decreases s.len() - i,
{
    if 0 <= i < s.len() && in_class(k, s[i]) {
        span_end(s, i + 1, k)
    } else {
        i
    }
}

/// A run ends within the text, holds only characters of its class and stops
/// at the first one outside it.
pub proof fn lemma_span(s: Seq<char>, i: int, k: CharClass)
    requires
        0 <= i <= s.len(),
    ensures
        i <= span_end(s, i, k) <= s.len(),
        forall|j: int| i <= j < span_end(s, i, k) ==> in_class(k, #[trigger] s[j]),
        span_end(s, i, k) == s.len() || !in_class(k, s[span_end(s, i, k)]),
    decreases s.len() - i,
{
    if i < s.len() && in_class(k, s[i]) {
        lemma_span(s, i + 1, k);
    }
}

/// Whether `c` belongs to the class `k`.
pub fn class_test(k: CharClass, c: char) -> (b: bool)
    ensures
        b == in_class(k, c),
{
    match k {
        CharClass::Alphabetic => is_alphabetic(c),
        CharClass::AsciiAlpha => ('a' <= c && c <= 'z') || ('A' <= c && c <= 'Z'),
        CharClass::Space => c == ' ' || c == '\t',
        CharClass::MultiSpace => c == ' ' || c == '\t' || c == '\r' || c == '\n',
        CharClass::NotQuote => c != '"',
        CharClass::NotCloseBrace => c != '}',
        CharClass::NotComma => c != ',',
        CharClass::NotCommaOrBrace => c != ',' && c != '}',
        CharClass::NotSpaceByte => {
            let low = (c as u32) % 256;
            !(low == 32 || low == 9)
        },
    }
}

/// The end of the longest run of characters of class `k` from `i`.
pub fn span(s: &Vec<char>, i: usize, k: CharClass) -> (end: usize)
    requires
        i <= s.len(),
    ensures
        end == span_end(s@, i as int, k),
        i <= end <= s.len(),
{
    proof {
        lemma_span(s@, i as int, k);
    }
    let mut j = i;
    while j < s.len()
        invariant
            i <= j <= s.len(),
            span_end(s@, i as int, k) == span_end(s@, j as int, k),
        ensures
            i <= j <= s.len(),
            span_end(s@, i as int, k) == j,
        decreases s.len() - j,
    {
        if !class_test(k, s[j]) {
            break;
        }
        j = j + 1;
    }
    j
}

/// Whether `s[i..]` starts with the characters of `t`.
pub open spec fn starts_with_at(s: Seq<char>, i: int, t: Seq<char>) -> bool {
    0 <= i && i + t.len() <= s.len() && s.subrange(i, i + t.len()) == t
}

/// Whether `s[i..]` starts with `t`.
pub fn starts_with(s: &Vec<char>, i: usize, t: &Vec<char>) -> (b: bool)
    requires
        i <= s.len(),
    ensures
        b == starts_with_at(s@, i as int, t@),
{
    if t.len() > s.len() - i {
        return false;
    }
    let mut j: usize = 0;
    while j < t.len()
        invariant
            j <= t.len(),
            i + t.len() <= s.len(),
            forall|m: int| 0 <= m < j ==> s@[i + m] == t@[m],
        decreases t.len() - j,
    {
        if s[i + j] != t[j] {
            assert(s@.subrange(i as int, i + t.len())[j as int] != t@[j as int]);
            return false;
        }
        j = j + 1;
    }
    assert(s@.subrange(i as int, i + t.len()) =~= t@);
    true
}

/// Whether two texts are equal.
pub fn text_eq(a: &str, b: &str) -> (r: bool)
    ensures
        r == (a@ == b@),
{
    String::from_str(a) == String::from_str(b)
}

/// The upper case partner of a lower case letter of the keywords that the
/// grammars match in any case; other characters have none but themselves.
pub open spec fn upper_of(t: char) -> char {
    if 'a' <= t && t <= 'z' {
        ((t as u32) - 32) as char
    } else if t == 'и' {
        'И'
    } else if t == 'з' {
        'З'
    } else {
        t
    }
}

/// Whether `c` equals the keyword character `t` (written in lower case) when
/// case is ignored.
pub open spec fn folds_to(c: char, t: char) -> bool {
    c == t || c == upper_of(t)
}

/// Whether `s[i..]` starts with the keyword `t` (written in lower case), in
/// any case.
pub open spec fn tag_no_case_at(s: Seq<char>, i: int, t: Seq<char>) -> bool {
    &&& 0 <= i && i + t.len() <= s.len()
    &&& forall|k: int| 0 <= k < t.len() ==> folds_to(#[trigger] s[i + k], t[k])
}

/// Whether `c` equals the keyword character `t` when case is ignored.
fn fold_eq(c: char, t: char) -> (b: bool)
    ensures
        b == folds_to(c, t),
{
    if c == t {
        true
    } else if 'a' <= t && t <= 'z' {
        (c as u32) + 32 == (t as u32)
    } else if t == 'и' {
        c == 'И'
    } else if t == 'з' {
        c == 'З'
    } else {
        false
    }
}

/// Whether `s[i..]` starts with the keyword `t`, in any case.
pub fn tag_no_case(s: &Vec<char>, i: usize, t: &Vec<char>) -> (b: bool)
    requires
        i <= s.len(),
    ensures
        b == tag_no_case_at(s@, i as int, t@),
{
    if t.len() > s.len() - i {
        return false;
    }
    let mut j: usize = 0;
    while j < t.len()
        invariant
            j <= t.len(),
            i + t.len() <= s.len(),
            forall|m: int| 0 <= m < j ==> folds_to(#[trigger] s@[i + m], t@[m]),
        decreases t.len() - j,
    {
        if !fold_eq(s[i + j], t[j]) {
            assert(!folds_to(s@[i + j], t@[j as int]));
            return false;
        }
        j = j + 1;
    }
    true
}

/// The first position from `i` on where the non-empty text `t` occurs in `s`.
pub open spec fn find_from(s: Seq<char>, i: int, t: Seq<char>) -> Option<int>
    decreases s.len() - i,
{
    if 0 <= i && t.len() > 0 && i + t.len() <= s.len() {
        if starts_with_at(s, i, t) {
            Some(i)
        } else {
            find_from(s, i + 1, t)
        }
    } else {
        None
    }
}

/// A found position is an occurrence, and none comes before it.
pub proof fn lemma_find_from(s: Seq<char>, i: int, t: Seq<char>)
    requires
        0 <= i,
        t.len() > 0,
    ensures
        find_from(s, i, t) matches Some(p) ==> i <= p && p + t.len() <= s.len() && starts_with_at(s, p, t),
        forall|q: int| i <= q && (find_from(s, i, t) matches Some(p) ==> q < p) ==> !starts_with_at(s, q, t),
    decreases s.len() - i,
{
    if 0 <= i && t.len() > 0 && i + t.len() <= s.len() && !starts_with_at(s, i, t) {
        lemma_find_from(s, i + 1, t);
    }
}

/// The first position from `i` on where `t` occurs in `s`.
pub fn find(s: &Vec<char>, i: usize, t: &Vec<char>) -> (r: Option<usize>)
    requires
        i <= s.len(),
        t.len() > 0,
    ensures
        match (r, find_from(s@, i as int, t@)) {
            (Some(p), Some(sp)) => p as int == sp,
            (None, None) => true,
            _ => false,
        },
{
    let mut p = i;
    while t.len() <= s.len() - p
        invariant
            i <= p <= s.len(),
            t.len() > 0,
            find_from(s@, i as int, t@) == find_from(s@, p as int, t@),
        decreases s.len() - p,
    {
        if starts_with(s, p, t) {
            return Some(p);
        }
        p = p + 1;
    }
    None
}

/// Where the text that `take_until_unbalanced('{', '}')` reads from `j` ends,
/// at nesting depth `depth`: at the first closing brace that no opening brace
/// before it matches, or at the end of the text if every brace is matched. A
/// backslash hides the character after it. `None` when braces are left open.
pub open spec fn unbalanced_end(s: Seq<char>, j: int, depth: int) -> Option<int>
    decreases s.len() - j,
{
    if j < 0 || j >= s.len() {
        if depth == 0 {
            Some(s.len() as int)
        } else {
            None
        }
    } else if s[j] == '\\' {
        if j + 1 < s.len() {
            unbalanced_end(s, j + 2, depth)
        } else {
            unbalanced_end(s, j + 1, depth)
        }
    } else if s[j] == '{' {
        unbalanced_end(s, j + 1, depth + 1)
    } else if s[j] == '}' {
        if depth == 0 {
            Some(j)
        } else {
            unbalanced_end(s, j + 1, depth - 1)
        }
    } else {
        unbalanced_end(s, j + 1, depth)
    }
}

/// The end is within the text; it is a closing brace unless it is the end.
pub proof fn lemma_unbalanced_end(s: Seq<char>, j: int, depth: int)
    requires
        0 <= j,
    ensures
        unbalanced_end(s, j, depth) matches Some(e) ==> j <= e <= s.len() || (j > s.len() && e == s.len()),
        unbalanced_end(s, j, depth) matches Some(e) ==> (e == s.len() || s[e] == '}'),
    decreases s.len() - j,
{
    if j < s.len() {
        if s[j] == '\\' {
            if j + 1 < s.len() {
                lemma_unbalanced_end(s, j + 2, depth);
            } else {
                lemma_unbalanced_end(s, j + 1, depth);
            }
        } else if s[j] == '{' {
            lemma_unbalanced_end(s, j + 1, depth + 1);
        } else if s[j] == '}' {
            if depth != 0 {
                lemma_unbalanced_end(s, j + 1, depth - 1);
            }
        } else {
            lemma_unbalanced_end(s, j + 1, depth);
        }
    }
}

/// `unbalanced_end(s, j, 0)`.
pub fn take_until_unbalanced(s: &Vec<char>, j: usize) -> (r: Option<usize>)
    requires
        j <= s.len(),
    ensures
        match (r, unbalanced_end(s@, j as int, 0)) {
            (Some(e), Some(se)) => e as int == se,
            (None, None) => true,
            _ => false,
        },
{
    let mut k = j;
    let mut depth: usize = 0;
    while k < s.len()
        invariant
            j <= k <= s.len(),
            depth <= k,
            unbalanced_end(s@, j as int, 0) == unbalanced_end(s@, k as int, depth as int),
        decreases s.len() - k,
    {
        let c = s[k];
        if c == '\\' {
            if k + 1 < s.len() {
                k = k + 2;
            } else {
                k = k + 1;
            }
        } else if c == '{' {
            depth = depth + 1;
            k = k + 1;
        } else if c == '}' {
            if depth == 0 {
                return Some(k);
            }
            depth = depth - 1;
            k = k + 1;
        } else {
            k = k + 1;
        }
    }
    if depth == 0 {
        Some(s.len())
    } else {
        None
    }
}

/// The index of the first keyword from index `k` on of `tags` that `s[i..]`
/// starts with, in any case.
pub open spec fn first_tag(s: Seq<char>, i: int, tags: Seq<Seq<char>>, k: int) -> Option<int>
    decreases tags.len() - k,
{
    if 0 <= k < tags.len() {
        if tag_no_case_at(s, i, tags[k]) {
            Some(k)
        } else {
            first_tag(s, i, tags, k + 1)
        }
    } else {
        None
    }
}

/// A keyword found is one of `tags`, from index `k` on.
pub proof fn lemma_first_tag(s: Seq<char>, i: int, tags: Seq<Seq<char>>, k: int)
    ensures
        first_tag(s, i, tags, k) matches Some(x) ==> k <= x < tags.len() && tag_no_case_at(s, i, tags[x]),
    decreases tags.len() - k,
{
    if 0 <= k < tags.len() && !tag_no_case_at(s, i, tags[k]) {
        lemma_first_tag(s, i, tags, k + 1);
    }
}

} // verus!
