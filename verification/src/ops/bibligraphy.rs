//! A bibliography: the entries of one or more BibTeX texts, found by key and
//! formatted, and citations in a text replaced by the references they cite.

use crate::parsing::entry::{
    all_citations, bib_spec, cite_tag, citations_from, lemma_cite_tag_len, lemma_next_citation, next_citation_spec, pair_views,
    parse_bib, BibEntry, BibError, EntryModel,
};
use crate::parsing::names::string_views;
use crate::parsing::text::text_eq;
use crate::styles::{entry_can_format, entry_reference, ReferenceStyle};
use crate::Format;
use vstd::prelude::*;
use vstd::string::StringExecFns;

verus! {

broadcast use vstd::seq_lib::group_seq_properties;

/// The entries of a list of entries.
pub open spec fn entry_models(v: Seq<BibEntry>) -> Seq<EntryModel> {
    v.map_values(|e: BibEntry| e.model())
}

/// The first entry with key `key`.
pub open spec fn find_key(es: Seq<EntryModel>, key: Seq<char>) -> Option<EntryModel>
    decreases es.len(),
{
    if es.len() == 0 {
        None
    } else {
        match find_key(es.drop_last(), key) {
            Some(e) => Some(e),
            None => if es.last().key == key {
                Some(es.last())
            } else {
                None
            },
        }
    }
}

/// Whether some entry has the key `key`.
pub open spec fn has_key_spec(es: Seq<EntryModel>, key: Seq<char>) -> bool {
    find_key(es, key) is Some
}

/// The keys of `keys` that some entry has, in order.
pub open spec fn known_keys(es: Seq<EntryModel>, keys: Seq<Seq<char>>) -> Seq<Seq<char>>
    decreases keys.len(),
{
    if keys.len() == 0 {
        Seq::empty()
    } else if has_key_spec(es, keys.last()) {
        known_keys(es, keys.drop_last()).push(keys.last())
    } else {
        known_keys(es, keys.drop_last())
    }
}

/// The keys of `keys` that no entry has, in order.
pub open spec fn unknown_keys(es: Seq<EntryModel>, keys: Seq<Seq<char>>) -> Seq<Seq<char>>
    decreases keys.len(),
{
    if keys.len() == 0 {
        Seq::empty()
    } else if has_key_spec(es, keys.last()) {
        unknown_keys(es, keys.drop_last())
    } else {
        unknown_keys(es, keys.drop_last()).push(keys.last())
    }
}

/// What a citation of a key that no entry has is left as: `\cite{key}`.
pub open spec fn uncited(key: Seq<char>) -> Seq<char> {
    "\\cite{"@ + key + "}"@
}

/// The text that the pieces give, each piece's text followed by the reference
/// of the entry its key cites, or by the citation itself where no entry has
/// the key. With `fail_fast`, the first such key is the error.
pub open spec fn expand_pieces(
    es: Seq<EntryModel>,
    style: ReferenceStyle,
    format: Format,
    fail_fast: bool,
    pieces: Seq<(Seq<char>, Seq<char>)>,
) -> Result<Seq<char>, Seq<char>>
    decreases pieces.len(),
{
    if pieces.len() == 0 {
        Ok(Seq::empty())
    } else {
        match expand_pieces(es, style, format, fail_fast, pieces.drop_last()) {
            Err(k) => Err(k),
            Ok(acc) => {
                let (text, key) = pieces.last();
                match find_key(es, key) {
                    Some(e) => Ok(acc + text + entry_reference(style, format, e)),
                    None => if fail_fast {
                        Err(key)
                    } else {
                        Ok(acc + text + uncited(key))
                    },
                }
            },
        }
    }
}

/// Whether every entry that expanding the pieces formats can be formatted.
pub open spec fn expand_ok(
    es: Seq<EntryModel>,
    style: ReferenceStyle,
    fail_fast: bool,
    pieces: Seq<(Seq<char>, Seq<char>)>,
) -> bool
    decreases pieces.len(),
{
    if pieces.len() == 0 {
        true
    } else {
        &&& expand_ok(es, style, fail_fast, pieces.drop_last())
        &&& (expand_pieces(es, style, Format::Plain, fail_fast, pieces.drop_last()) is Ok ==> match find_key(
            es,
            pieces.last().1,
        ) {
            Some(e) => entry_can_format(style, e),
            None => true,
        })
    }
}

/// What expanding the citations of `s` gives: the text of its citations, then
/// the rest of `s`, or the first key that no entry has, with `fail_fast`.
pub open spec fn expand_spec(
    es: Seq<EntryModel>,
    style: ReferenceStyle,
    format: Format,
    fail_fast: bool,
    s: Seq<char>,
) -> Result<Seq<char>, Seq<char>> {
    let (end, pieces) = citations_from(s, 0);
    match expand_pieces(es, style, format, fail_fast, pieces) {
        Ok(t) => Ok(t + s.skip(end)),
        Err(k) => Err(k),
    }
}

/// A cited key that no entry has.
#[derive(Debug, PartialEq, Eq)]
pub struct MissingKey {
    pub key: String,
}

impl MissingKey {
    /// What went wrong, in words.
    pub fn message(&self) -> (r: String)
        ensures
            r@ == "key "@ + self.key@ + " was not present in any of the bib files"@,
    {
        let mut r = String::from_str("key ");
        r.append(self.key.as_str());
        r.append(" was not present in any of the bib files");
        r
    }
}

/// A list of BibTeX entries.
pub struct Bibliography {
    entries: Vec<BibEntry>,
}

impl View for Bibliography {
    type V = Seq<EntryModel>;

    closed spec fn view(&self) -> Seq<EntryModel> {
        entry_models(self.entries@)
    }
}

proof fn lemma_find_key_step(es: Seq<EntryModel>, key: Seq<char>, i: int)
    requires
        0 <= i < es.len(),
        find_key(es.take(i), key) is None,
    ensures
        es[i].key == key ==> find_key(es.take(i + 1), key) == Some(es[i]),
        es[i].key != key ==> find_key(es.take(i + 1), key) is None,
{
    assert(es.take(i + 1).drop_last() =~= es.take(i));
}

proof fn lemma_find_key_prefix(es: Seq<EntryModel>, more: Seq<EntryModel>, key: Seq<char>)
    requires
        find_key(es, key) is Some,
    ensures
        find_key(es + more, key) == find_key(es, key),
    decreases more.len(),
{
    if more.len() > 0 {
        assert((es + more).drop_last() =~= es + more.drop_last());
        lemma_find_key_prefix(es, more.drop_last(), key);
    } else {
        assert(es + more =~= es);
    }
}

proof fn lemma_find_key_suffix(es: Seq<EntryModel>, more: Seq<EntryModel>, key: Seq<char>)
    requires
        find_key(es, key) is None,
    ensures
        find_key(es + more, key) == find_key(more, key),
    decreases more.len(),
{
    if more.len() > 0 {
        assert((es + more).drop_last() =~= es + more.drop_last());
        lemma_find_key_suffix(es, more.drop_last(), key);
    } else {
        assert(es + more =~= es);
    }
}

impl Bibliography {
    /// A bibliography of the given entries, in order.
    pub fn from(value: Vec<BibEntry>) -> (r: Bibliography)
        ensures
            r@ == entry_models(value@),
    {
        Bibliography { entries: value }
    }

    /// A bibliography of no entries.
    pub fn new() -> (r: Bibliography)
        ensures
            r@ == Seq::<EntryModel>::empty(),
    {
        let r = Bibliography { entries: Vec::new() };
        assert(r@ =~= Seq::<EntryModel>::empty());
        r
    }

    /// The entries of a BibTeX text, or why it cannot be read.
    pub fn from_contents(contents: &str) -> (r: Result<Bibliography, BibError>)
        ensures
            match (r, bib_spec(contents@)) {
                (Ok(b), Ok(ms)) => b@ == ms,
                (Err(x), Err(y)) => x == y,
                _ => false,
            },
    {
        match parse_bib(contents) {
            Ok(es) => {
                let b = Bibliography { entries: es };
                proof {
                    let ms = bib_spec(contents@)->Ok_0;
                    assert(b@ =~= ms);
                }
                Ok(b)
            },
            Err(x) => Err(x),
        }
    }

    /// The index of the first entry with key `key`.
    fn position(&self, key: &str) -> (r: Option<usize>)
        ensures
            match r {
                Some(i) => i < self@.len() && find_key(self@, key@) == Some(self@[i as int]),
                None => find_key(self@, key@) is None,
            },
    {
        let ghost es = self@;
        let mut i: usize = 0;
        while i < self.entries.len()
            invariant
                i <= self.entries.len(),
                es == self@,
                es.len() == self.entries@.len(),
                find_key(es.take(i as int), key@) is None,
            decreases self.entries.len() - i,
        {
            proof {
                lemma_find_key_step(es, key@, i as int);
            }
            assert(es[i as int] == self.entries@[i as int].model());
            if text_eq(self.entries[i].key.as_str(), key) {
                proof {
                    lemma_find_key_prefix(es.take(i + 1), es.skip(i + 1), key@);
                    assert(es.take(i + 1) + es.skip(i + 1) =~= es);
                }
                return Some(i);
            }
            i = i + 1;
        }
        assert(es.take(i as int) =~= es);
        None
    }

    /// A copy of the first entry with key `key`.
    pub fn get_entry(&self, key: String) -> (r: Option<BibEntry>)
        ensures
            match (r, find_key(self@, key@)) {
                (Some(e), Some(m)) => e.model() == m,
                (None, None) => true,
                _ => false,
            },
    {
        match self.position(key.as_str()) {
            Some(i) => {
                assert(self@[i as int] == self.entries@[i as int].model());
                Some(self.entries[i].clone())
            },
            None => None,
        }
    }

    /// Whether some entry has the key `key`.
    pub fn has_key(&self, key: &String) -> (b: bool)
        ensures
            b == has_key_spec(self@, key@),
    {
        self.position(key.as_str()).is_some()
    }

    /// The keys of the entries, in order.
    pub fn get_keys(&self) -> (r: Vec<String>)
        ensures
            string_views(r@) == self@.map_values(|e: EntryModel| e.key),
    {
        let mut r: Vec<String> = Vec::new();
        let mut i: usize = 0;
        while i < self.entries.len()
            invariant
                i <= self.entries.len(),
                r@.len() == i,
                self@.len() == self.entries@.len(),
                forall|j: int| 0 <= j < i ==> #[trigger] r@[j]@ == self@[j].key,
            decreases self.entries.len() - i,
        {
            assert(self@[i as int] == self.entries@[i as int].model());
            r.push(self.entries[i].key.clone());
            i = i + 1;
        }
        assert(string_views(r@) =~= self@.map_values(|e: EntryModel| e.key));
        r
    }

    /// The references of every entry, in order, if `style` can write every
    /// entry; `None` where it cannot.
    pub fn try_fmt_entries(self, style: ReferenceStyle, format: Format) -> (r: Option<Vec<String>>)
        ensures
            (r is Some) == forall|i: int| 0 <= i < self@.len() ==> entry_can_format(style, #[trigger] self@[i]),
            r matches Some(v) ==> v@.len() == self@.len() && forall|i: int|
                0 <= i < self@.len() ==> (#[trigger] v@[i])@ == entry_reference(style, format, self@[i]),
    {
        if self.can_format_all(style) {
            Some(self.fmt_entries(style, format))
        } else {
            None
        }
    }

    /// Whether `style` can write the entry of every key of `keys` that some
    /// entry has.
    pub fn can_format_keys(&self, style: ReferenceStyle, keys: &Vec<String>) -> (b: bool)
        ensures
            b == forall|i: int|
                0 <= i < keys@.len() && #[trigger] has_key_spec(self@, keys@[i]@) ==> entry_can_format(
                    style,
                    find_key(self@, keys@[i]@).unwrap(),
                ),
    {
        let mut i: usize = 0;
        while i < keys.len()
            invariant
                i <= keys.len(),
                forall|j: int|
                    0 <= j < i && #[trigger] has_key_spec(self@, keys@[j]@) ==> entry_can_format(
                        style,
                        find_key(self@, keys@[j]@).unwrap(),
                    ),
            decreases keys.len() - i,
        {
            match self.get_entry(keys[i].clone()) {
                Some(e) => {
                    if !style.can_format(&e) {
                        assert(has_key_spec(self@, keys@[i as int]@));
                        return false;
                    }
                },
                None => {},
            }
            i = i + 1;
        }
        true
    }

    /// The references of the entries that `keys` name and the keys that no
    /// entry has, as `fmt_entries_filtered` gives them, if `style` can write
    /// each entry named; `None` where it cannot.
    pub fn try_fmt_entries_filtered(self, style: ReferenceStyle, format: Format, keys: Vec<String>) -> (r: Option<
        (Vec<String>, Vec<String>),
    >)
        ensures
            (r is Some) == forall|i: int|
                0 <= i < keys@.len() && #[trigger] has_key_spec(self@, keys@[i]@) ==> entry_can_format(
                    style,
                    find_key(self@, keys@[i]@).unwrap(),
                ),
            r matches Some(p) ==> string_views(p.0@) == known_keys(self@, string_views(keys@)).map_values(
                |k: Seq<char>| entry_reference(style, format, find_key(self@, k).unwrap()),
            ) && string_views(p.1@) == unknown_keys(self@, string_views(keys@)),
    {
        if self.can_format_keys(style, &keys) {
            Some(self.fmt_entries_filtered(style, format, keys))
        } else {
            None
        }
    }

    /// The text with its citations expanded, as `expand_citations_in_string`
    /// gives it, if every reference that this writes can be written; `None`
    /// where one cannot.
    pub fn try_expand_citations_in_string(
        &self,
        contents: &str,
        style: ReferenceStyle,
        format: Format,
        fail_fast: bool,
    ) -> (r: Option<Result<String, MissingKey>>)
        ensures
            (r is Some) == expand_ok(self@, style, fail_fast, citations_from(contents@, 0).1),
            r matches Some(x) ==> match (x, expand_spec(self@, style, format, fail_fast, contents@)) {
                (Ok(t), Ok(st)) => t@ == st,
                (Err(m), Err(k)) => m.key@ == k,
                _ => false,
            },
    {
        if self.can_expand(contents, style, fail_fast) {
            Some(self.expand_citations_in_string(contents, style, format, fail_fast))
        } else {
            None
        }
    }

    /// Whether `style` can write every entry.
    pub fn can_format_all(&self, style: ReferenceStyle) -> (b: bool)
        ensures
            b == forall|i: int| 0 <= i < self@.len() ==> entry_can_format(style, #[trigger] self@[i]),
    {
        let mut i: usize = 0;
        while i < self.entries.len()
            invariant
                i <= self.entries.len(),
                self@.len() == self.entries@.len(),
                forall|j: int| 0 <= j < i ==> entry_can_format(style, #[trigger] self@[j]),
            decreases self.entries.len() - i,
        {
            assert(self@[i as int] == self.entries@[i as int].model());
            if !style.can_format(&self.entries[i]) {
                return false;
            }
            i = i + 1;
        }
        true
    }

    /// The reference of every entry, in order.
    pub fn fmt_entries(self, style: ReferenceStyle, format: Format) -> (r: Vec<String>)
        requires
            forall|i: int| 0 <= i < self@.len() ==> entry_can_format(style, #[trigger] self@[i]),
        ensures
            r@.len() == self@.len(),
            forall|i: int| 0 <= i < self@.len() ==> (#[trigger] r@[i])@ == entry_reference(style, format, self@[i]),
    {
        let ghost es = self@;
        let mut r: Vec<String> = Vec::new();
        let mut i: usize = 0;
        while i < self.entries.len()
            invariant
                i <= self.entries.len(),
                es == self@,
                es.len() == self.entries@.len(),
                forall|j: int| 0 <= j < es.len() ==> entry_can_format(style, #[trigger] es[j]),
                r@.len() == i,
                forall|j: int| 0 <= j < i ==> (#[trigger] r@[j])@ == entry_reference(style, format, es[j]),
            decreases self.entries.len() - i,
        {
            assert(es[i as int] == self.entries@[i as int].model());
            let e = self.entries[i].clone();
            r.push(style.fmt_reference(e, format));
            i = i + 1;
        }
        r
    }

    /// The references of the entries that `keys` name, in the order of
    /// `keys`, and the keys that no entry has.
    pub fn fmt_entries_filtered(self, style: ReferenceStyle, format: Format, keys: Vec<String>) -> (r: (
        Vec<String>,
        Vec<String>,
    ))
        requires
            forall|i: int|
                0 <= i < keys@.len() && #[trigger] has_key_spec(self@, keys@[i]@) ==> entry_can_format(
                    style,
                    find_key(self@, keys@[i]@).unwrap(),
                ),
        ensures
            string_views(r.0@) == known_keys(self@, string_views(keys@)).map_values(
                |k: Seq<char>| entry_reference(style, format, find_key(self@, k).unwrap()),
            ),
            string_views(r.1@) == unknown_keys(self@, string_views(keys@)),
    {
        let ghost es = self@;
        let ghost ks = string_views(keys@);
        let mut formatted: Vec<String> = Vec::new();
        let mut unknown: Vec<String> = Vec::new();
        let mut i: usize = 0;
        while i < keys.len()
            invariant
                i <= keys.len(),
                es == self@,
                ks == string_views(keys@),
                forall|j: int|
                    0 <= j < keys@.len() && #[trigger] has_key_spec(es, keys@[j]@) ==> entry_can_format(
                        style,
                        find_key(es, keys@[j]@).unwrap(),
                    ),
                string_views(formatted@) == known_keys(es, ks.take(i as int)).map_values(
                    |k: Seq<char>| entry_reference(style, format, find_key(es, k).unwrap()),
                ),
                string_views(unknown@) == unknown_keys(es, ks.take(i as int)),
            decreases keys.len() - i,
        {
            let ghost prefix = ks.take(i as int);
            proof {
                assert(ks.take(i + 1).drop_last() =~= prefix);
                assert(ks.take(i + 1).last() == keys@[i as int]@);
            }
            match self.get_entry(keys[i].clone()) {
                Some(e) => {
                    assert(has_key_spec(es, keys@[i as int]@));
                    let ghost before = formatted@;
                    formatted.push(style.fmt_reference(e, format));
                    proof {
                        let f = |k: Seq<char>| entry_reference(style, format, find_key(es, k).unwrap());
                        assert(known_keys(es, ks.take(i + 1)) == known_keys(es, prefix).push(keys@[i as int]@));
                        assert(known_keys(es, prefix).push(keys@[i as int]@).map_values(f) =~= known_keys(
                            es,
                            prefix,
                        ).map_values(f).push(f(keys@[i as int]@)));
                        assert(string_views(formatted@) =~= string_views(before).push(formatted@.last()@));
                    }
                },
                None => {
                    let ghost before = unknown@;
                    unknown.push(keys[i].clone());
                    proof {
                        assert(string_views(unknown@) =~= string_views(before).push(keys@[i as int]@));
                    }
                },
            }
            i = i + 1;
        }
        proof {
            assert(ks.take(keys@.len() as int) =~= ks);
        }
        (formatted, unknown)
    }

    /// The text with each citation `\cite{key}` replaced by the reference of
    /// the first entry with that key. A key that no entry has is left as it
    /// was cited, or, with `fail_fast`, is the error.
    pub fn expand_citations_in_string(
        &self,
        contents: &str,
        style: ReferenceStyle,
        format: Format,
        fail_fast: bool,
    ) -> (r: Result<String, MissingKey>)
        requires
            expand_ok(self@, style, fail_fast, citations_from(contents@, 0).1),
        ensures
            match (r, expand_spec(self@, style, format, fail_fast, contents@)) {
                (Ok(t), Ok(st)) => t@ == st,
                (Err(m), Err(k)) => m.key@ == k,
                _ => false,
            },
    {
        let (tail, pieces) = all_citations(contents);
        let ghost es = self@;
        let ghost ps = citations_from(contents@, 0).1;
        let mut acc = String::new();
        let mut i: usize = 0;
        proof {
            assert(ps.take(0) =~= Seq::<(Seq<char>, Seq<char>)>::empty());
        }
        while i < pieces.len()
            invariant
                i <= pieces.len(),
                es == self@,
                pair_views(pieces@) == ps,
                ps == citations_from(contents@, 0).1,
                expand_ok(es, style, fail_fast, ps),
                expand_pieces(es, style, format, fail_fast, ps.take(i as int)) == Ok::<Seq<char>, Seq<char>>(acc@),
            decreases pieces.len() - i,
        {
            let (text, key) = pieces[i];
            proof {
                assert(ps.take(i + 1).drop_last() =~= ps.take(i as int));
                assert(ps.take(i + 1).last() == (text@, key@));
                lemma_expand_ok_prefix(es, style, fail_fast, ps, i + 1);
                lemma_expand_format(es, style, format, fail_fast, ps.take(i as int));
            }
            if !self.expand_piece(&mut acc, text, key, style, format, fail_fast) {
                proof {
                    assert(expand_pieces(es, style, format, fail_fast, ps.take(i + 1)) == Err::<Seq<char>, Seq<char>>(
                        key@,
                    ));
                    lemma_expand_err_extends(es, style, format, fail_fast, ps, i + 1);
                    assert(expand_spec(es, style, format, fail_fast, contents@) == Err::<Seq<char>, Seq<char>>(key@));
                }
                let missing = MissingKey { key: String::from_str(key) };
                assert(missing.key@ == key@);
                return Err(missing);
            }
            i = i + 1;
        }
        proof {
            assert(ps.take(pieces@.len() as int) =~= ps);
        }
        acc.append(tail);
        Ok(acc)
    }

    /// Whether every reference that expanding the citations of `contents`
    /// writes can be written in `style`.
    pub fn can_expand(&self, contents: &str, style: ReferenceStyle, fail_fast: bool) -> (b: bool)
        ensures
            b == expand_ok(self@, style, fail_fast, citations_from(contents@, 0).1),
    {
        let (_, pieces) = all_citations(contents);
        let ghost es = self@;
        let ghost ps = citations_from(contents@, 0).1;
        let mut i: usize = 0;
        proof {
            assert(ps.take(0) =~= Seq::<(Seq<char>, Seq<char>)>::empty());
        }
        while i < pieces.len()
            invariant
                i <= pieces.len(),
                es == self@,
                pair_views(pieces@) == ps,
                ps == citations_from(contents@, 0).1,
                expand_ok(es, style, fail_fast, ps.take(i as int)),
                expand_pieces(es, style, Format::Plain, fail_fast, ps.take(i as int)) is Ok,
            decreases pieces.len() - i,
        {
            let (_, key) = pieces[i];
            proof {
                assert(ps.take(i + 1).drop_last() =~= ps.take(i as int));
                assert(ps.take(i + 1).last().1 == key@);
            }
            match self.get_entry(String::from_str(key)) {
                Some(e) => {
                    if !style.can_format(&e) {
                        proof {
                            assert(!expand_ok(es, style, fail_fast, ps.take(i + 1)));
                            if expand_ok(es, style, fail_fast, ps) {
                                lemma_expand_ok_prefix(es, style, fail_fast, ps, i + 1);
                            }
                        }
                        return false;
                    }
                },
                None => {
                    if fail_fast {
                        proof {
                            assert(expand_ok(es, style, fail_fast, ps.take(i + 1)));
                            assert(expand_pieces(es, style, Format::Plain, fail_fast, ps.take(i + 1)) is Err);
                            lemma_expand_ok_after_err(es, style, fail_fast, ps, i + 1);
                        }
                        return true;
                    }
                },
            }
            i = i + 1;
        }
        proof {
            assert(ps.take(pieces@.len() as int) =~= ps);
        }
        true
    }

    /// Appends `text` and the reference that `key` cites; `false`, with
    /// nothing appended, where no entry has the key and `fail_fast` is set.
    fn expand_piece(
        &self,
        acc: &mut String,
        text: &str,
        key: &str,
        style: ReferenceStyle,
        format: Format,
        fail_fast: bool,
    ) -> (ok: bool)
        requires
            find_key(self@, key@) matches Some(e) ==> entry_can_format(style, e),
        ensures
            ok == !(fail_fast && find_key(self@, key@) is None),
            ok ==> final(acc)@ == old(acc)@ + text@ + match find_key(self@, key@) {
                Some(e) => entry_reference(style, format, e),
                None => uncited(key@),
            },
    {
        let ghost before = acc@;
        match self.get_entry(String::from_str(key)) {
            Some(e) => {
                acc.append(text);
                let formatted = style.fmt_reference(e, format);
                acc.append(formatted.as_str());
                true
            },
            None => {
                if fail_fast {
                    return false;
                }
                acc.append(text);
                acc.append("\\cite{");
                acc.append(key);
                acc.append("}");
                assert(acc@ =~= before + text@ + uncited(key@));
                true
            },
        }
    }

    /// Appends the entries of `other` after those of this bibliography.
    /// The result is this bibliography, so that merges can be chained.
    pub fn merge(&mut self, other: Bibliography) -> (r: &mut Self)
        ensures
            r@ == old(self)@ + other@,
            *final(self) == *final(r),
    {
        let mut other = other;
        let ghost a = self.entries@;
        let ghost b = other.entries@;
        self.entries.append(&mut other.entries);
        assert(entry_models(a + b) =~= entry_models(a) + entry_models(b));
        self
    }
}

/// `expand_ok` of the pieces holds of every prefix of them.
proof fn lemma_expand_ok_prefix(
    es: Seq<EntryModel>,
    style: ReferenceStyle,
    fail_fast: bool,
    ps: Seq<(Seq<char>, Seq<char>)>,
    n: int,
)
    requires
        0 <= n <= ps.len(),
        expand_ok(es, style, fail_fast, ps),
    ensures
        expand_ok(es, style, fail_fast, ps.take(n)),
    decreases ps.len() - n,
{
    if n < ps.len() {
        assert(ps.drop_last().take(n) =~= ps.take(n));
        lemma_expand_ok_prefix(es, style, fail_fast, ps.drop_last(), n);
    } else {
        assert(ps.take(n) =~= ps);
    }
}

/// Once expanding a prefix fails, nothing after it is formatted.
proof fn lemma_expand_ok_after_err(
    es: Seq<EntryModel>,
    style: ReferenceStyle,
    fail_fast: bool,
    ps: Seq<(Seq<char>, Seq<char>)>,
    n: int,
)
    requires
        0 <= n <= ps.len(),
        expand_ok(es, style, fail_fast, ps.take(n)),
        expand_pieces(es, style, Format::Plain, fail_fast, ps.take(n)) is Err,
    ensures
        expand_ok(es, style, fail_fast, ps),
    decreases ps.len() - n,
{
    if n < ps.len() {
        let init = ps.drop_last();
        assert(init.take(n) =~= ps.take(n));
        lemma_expand_ok_after_err(es, style, fail_fast, init, n);
        lemma_expand_err_extends(es, style, Format::Plain, fail_fast, init, n);
    } else {
        assert(ps.take(n) =~= ps);
    }
}

/// Once a prefix of the pieces fails, the whole fails the same way.
proof fn lemma_expand_err_extends(
    es: Seq<EntryModel>,
    style: ReferenceStyle,
    format: Format,
    fail_fast: bool,
    ps: Seq<(Seq<char>, Seq<char>)>,
    n: int,
)
    requires
        0 <= n <= ps.len(),
        expand_pieces(es, style, format, fail_fast, ps.take(n)) is Err,
    ensures
        expand_pieces(es, style, format, fail_fast, ps) == expand_pieces(es, style, format, fail_fast, ps.take(n)),
    decreases ps.len() - n,
{
    if n < ps.len() {
        assert(ps.drop_last().take(n) =~= ps.take(n));
        lemma_expand_err_extends(es, style, format, fail_fast, ps.drop_last(), n);
    } else {
        assert(ps.take(n) =~= ps);
    }
}

/// Whether expanding fails does not depend on the format.
proof fn lemma_expand_format(
    es: Seq<EntryModel>,
    style: ReferenceStyle,
    format: Format,
    fail_fast: bool,
    ps: Seq<(Seq<char>, Seq<char>)>,
)
    ensures
        (expand_pieces(es, style, format, fail_fast, ps) is Ok) == (expand_pieces(
            es,
            style,
            Format::Plain,
            fail_fast,
            ps,
        ) is Ok),
    decreases ps.len(),
{
    if ps.len() > 0 {
        lemma_expand_format(es, style, format, fail_fast, ps.drop_last());
    }
}

impl Default for Bibliography {
    fn default() -> (r: Self)
        ensures
            r@ == Seq::<EntryModel>::empty(),
    {
        Bibliography::new()
    }
}

/// The text that the pieces were read from, each piece's text followed by its
/// citation.
pub open spec fn rebuilt(ps: Seq<(Seq<char>, Seq<char>)>) -> Seq<char>
    decreases ps.len(),
{
    if ps.len() == 0 {
        Seq::empty()
    } else {
        rebuilt(ps.drop_last()) + ps.last().0 + uncited(ps.last().1)
    }
}

proof fn lemma_rebuilt_cons(p: (Seq<char>, Seq<char>), rest: Seq<(Seq<char>, Seq<char>)>)
    ensures
        rebuilt(seq![p] + rest) == p.0 + uncited(p.1) + rebuilt(rest),
    decreases rest.len(),
{
    if rest.len() == 0 {
        assert(seq![p] + rest =~= seq![p]);
        assert(seq![p].drop_last() =~= Seq::<(Seq<char>, Seq<char>)>::empty());
        assert(rebuilt(seq![p].drop_last()) == Seq::<char>::empty());
        assert(seq![p].last() == p);
        assert(rebuilt(seq![p]) =~= p.0 + uncited(p.1));
        assert(rebuilt(rest) == Seq::<char>::empty());
    } else {
        assert((seq![p] + rest).drop_last() =~= seq![p] + rest.drop_last());
        lemma_rebuilt_cons(p, rest.drop_last());
        assert(rebuilt(seq![p] + rest) =~= p.0 + uncited(p.1) + rebuilt(rest));
    }
}

/// The text from `i` to where the citations end is the pieces read there,
/// each with its citation.
proof fn lemma_citations_rebuild(s: Seq<char>, i: int)
    requires
        0 <= i <= s.len(),
    ensures
        i <= citations_from(s, i).0 <= s.len(),
        s.subrange(i, citations_from(s, i).0) == rebuilt(citations_from(s, i).1),
    decreases s.len() - i,
{
    lemma_cite_tag_len();
    lemma_next_citation(s, i);
    match next_citation_spec(s, i) {
        Some((e, piece)) => {
            lemma_citations_rebuild(s, e);
            let rest = citations_from(s, e);
            lemma_rebuilt_cons(piece, rest.1);
            reveal_strlit("\\cite{");
            reveal_strlit("\\cite");
            reveal_strlit("}");
            assert(cite_tag() + seq!['{'] =~= "\\cite{"@);
            assert(s.subrange(i, e) =~= piece.0 + uncited(piece.1));
            assert(s.subrange(i, rest.0) =~= s.subrange(i, e) + s.subrange(e, rest.0));
        },
        None => {
            assert(s.subrange(i, i) =~= Seq::<char>::empty());
        },
    }
}

proof fn lemma_expand_unknown(
    es: Seq<EntryModel>,
    style: ReferenceStyle,
    format: Format,
    ps: Seq<(Seq<char>, Seq<char>)>,
)
    requires
        forall|i: int| 0 <= i < ps.len() ==> !has_key_spec(es, (#[trigger] ps[i]).1),
    ensures
        expand_pieces(es, style, format, false, ps) == Ok::<Seq<char>, Seq<char>>(rebuilt(ps)),
    decreases ps.len(),
{
    if ps.len() > 0 {
        assert(!has_key_spec(es, ps[ps.len() - 1].1));
        lemma_expand_unknown(es, style, format, ps.drop_last());
    }
}

/// Expanding the citations of a text, without `fail_fast`, where no cited key
/// is in the bibliography, gives the text back unchanged; in particular a text
/// without citations is left as it is.
pub proof fn lemma_expand_without_known_keys(es: Seq<EntryModel>, style: ReferenceStyle, format: Format, s: Seq<char>)
    requires
        forall|i: int|
            0 <= i < citations_from(s, 0).1.len() ==> !has_key_spec(es, (#[trigger] citations_from(s, 0).1[i]).1),
    ensures
        expand_spec(es, style, format, false, s) == Ok::<Seq<char>, Seq<char>>(s),
{
    let (end, ps) = citations_from(s, 0);
    lemma_citations_rebuild(s, 0);
    lemma_expand_unknown(es, style, format, ps);
    assert(s.subrange(0, end) + s.skip(end) =~= s);
}

/// Looking a key up in two bibliographies merged finds the first one's entry
/// when it has the key, else the second one's.
pub proof fn lemma_merge_find_key(a: Seq<EntryModel>, b: Seq<EntryModel>, key: Seq<char>)
    ensures
        find_key(a + b, key) == match find_key(a, key) {
            Some(e) => Some(e),
            None => find_key(b, key),
        },
        has_key_spec(a + b, key) == (has_key_spec(a, key) || has_key_spec(b, key)),
{
    if find_key(a, key) is Some {
        lemma_find_key_prefix(a, b, key);
    } else {
        lemma_find_key_suffix(a, b, key);
    }
}

/// The keys asked for fall apart into those of the bibliography and the
/// others: each key is in exactly one of the two, in its order, so their
/// numbers add up.
pub proof fn lemma_keys_partition(es: Seq<EntryModel>, keys: Seq<Seq<char>>)
    ensures
        known_keys(es, keys).len() + unknown_keys(es, keys).len() == keys.len(),
        forall|i: int| 0 <= i < known_keys(es, keys).len() ==> has_key_spec(es, #[trigger] known_keys(es, keys)[i]),
        forall|i: int| 0 <= i < unknown_keys(es, keys).len() ==> !has_key_spec(es, #[trigger] unknown_keys(es, keys)[i]),
    decreases keys.len(),
{
    if keys.len() > 0 {
        lemma_keys_partition(es, keys.drop_last());
    }
}

/// The text that the pieces give when every key is known: each piece's text
/// followed by the reference of the first entry with its key.
pub open spec fn filled(
    es: Seq<EntryModel>,
    style: ReferenceStyle,
    format: Format,
    ps: Seq<(Seq<char>, Seq<char>)>,
) -> Seq<char>
    decreases ps.len(),
{
    if ps.len() == 0 {
        Seq::empty()
    } else {
        filled(es, style, format, ps.drop_last()) + ps.last().0 + entry_reference(
            style,
            format,
            find_key(es, ps.last().1).unwrap(),
        )
    }
}

proof fn lemma_expand_known(
    es: Seq<EntryModel>,
    style: ReferenceStyle,
    format: Format,
    fail_fast: bool,
    ps: Seq<(Seq<char>, Seq<char>)>,
)
    requires
        forall|i: int| 0 <= i < ps.len() ==> has_key_spec(es, (#[trigger] ps[i]).1),
    ensures
        expand_pieces(es, style, format, fail_fast, ps) == Ok::<Seq<char>, Seq<char>>(filled(es, style, format, ps)),
    decreases ps.len(),
{
    if ps.len() > 0 {
        assert(has_key_spec(es, ps[ps.len() - 1].1));
        lemma_expand_known(es, style, format, fail_fast, ps.drop_last());
    }
}

/// A text is its pieces, each followed by `\cite{key}`, and then the rest;
/// where every cited key is in the bibliography, expanding it (with or
/// without `fail_fast`) replaces each citation by the reference of the first
/// entry with that key and keeps everything else.
pub proof fn lemma_expand_with_known_keys(
    es: Seq<EntryModel>,
    style: ReferenceStyle,
    format: Format,
    fail_fast: bool,
    s: Seq<char>,
)
    requires
        forall|i: int|
            0 <= i < citations_from(s, 0).1.len() ==> has_key_spec(es, (#[trigger] citations_from(s, 0).1[i]).1),
    ensures
        s == rebuilt(citations_from(s, 0).1) + s.skip(citations_from(s, 0).0),
        expand_spec(es, style, format, fail_fast, s) == Ok::<Seq<char>, Seq<char>>(
            filled(es, style, format, citations_from(s, 0).1) + s.skip(citations_from(s, 0).0),
        ),
{
    let (end, ps) = citations_from(s, 0);
    lemma_citations_rebuild(s, 0);
    lemma_expand_known(es, style, format, fail_fast, ps);
    assert(s.subrange(0, end) + s.skip(end) =~= s);
}

} // verus!
