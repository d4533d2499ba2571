//! The mdbook preprocessor that expands citations in a book: its name, the
//! renderers it supports, and how it reads its settings.

use crate::parsing::names::string_views;
use crate::parsing::text::{ascii_lowercase, is_ascii_text, lowercase};
use crate::ops::bibligraphy::{
    expand_ok, expand_spec, has_key_spec, lemma_expand_without_known_keys, Bibliography, MissingKey,
};
use crate::parsing::entry::{citations_from, EntryModel};
use crate::styles::{style_named, ReferenceStyle};
use crate::{format_named, Format};
use vstd::prelude::*;

verus! {

/// The preprocessor that expands `\cite{key}` in the chapters of a book.
#[derive(Default, Debug, Clone, Copy)]
pub struct CitationPreprocessor;

/// The `bibfile` setting: one path, a list of values, or a value of another
/// kind.
pub enum BibfileValue {
    Text(String),
    /// The items of a list; `None` stands for an item that is not a text.
    List(Vec<Option<String>>),
    Other,
}

/// The preprocessor's table of the book's settings: the `bibfile` value, and
/// the `style` and `fail_fast` values where they are texts.
pub struct PreprocessorTable {
    pub bibfile: Option<BibfileValue>,
    pub style: Option<String>,
    pub fail_fast: Option<String>,
}

/// What the preprocessor does with a book.
pub struct CitationSettings {
    /// The BibTeX files to read, in order.
    pub bib_files: Vec<String>,
    pub style: ReferenceStyle,
    pub format: Format,
    pub fail_fast: bool,
}

/// Why the settings cannot be used.
#[derive(Debug, Clone, Copy, PartialEq, Eq, Structural)]
pub enum SettingsError {
    /// The book has no table for the preprocessor.
    NoConfig,
    /// The table has no `bibfile`.
    NoBibfile,
    /// `bibfile` is neither a text nor a list.
    BibfileType,
    /// `style` names no style.
    Style,
    /// `fail_fast` is neither `true` nor `false`.
    FailFast,
}

/// What a settings error says.
pub open spec fn settings_message(e: SettingsError) -> Seq<char> {
    match e {
        SettingsError::NoConfig => "no config entry found"@,
        SettingsError::NoBibfile => "config entry did not contain 'bibfile' key"@,
        SettingsError::BibfileType => "config of bibfile did not have correct type"@,
        SettingsError::Style => "invalid style"@,
        SettingsError::FailFast => "could not parse fail_fast option"@,
    }
}

impl SettingsError {
    /// What went wrong, in words.
    pub fn message(&self) -> (r: &'static str)
        ensures
            r@ == settings_message(*self),
    {
        match self {
            SettingsError::NoConfig => "no config entry found",
            SettingsError::NoBibfile => "config entry did not contain 'bibfile' key",
            SettingsError::BibfileType => "config of bibfile did not have correct type",
            SettingsError::Style => "invalid style",
            SettingsError::FailFast => "could not parse fail_fast option",
        }
    }
}

/// The texts among the items of a list, in order.
pub open spec fn texts_of(items: Seq<Option<String>>) -> Seq<Seq<char>>
    decreases items.len(),
{
    if items.len() == 0 {
        Seq::empty()
    } else {
        match items.last() {
            Some(t) => texts_of(items.drop_last()).push(t@),
            None => texts_of(items.drop_last()),
        }
    }
}

/// The paths that a `bibfile` value names: the text, or the texts of the list.
pub open spec fn bib_paths(v: BibfileValue) -> Option<Seq<Seq<char>>> {
    match v {
        BibfileValue::Text(t) => Some(seq![t@]),
        BibfileValue::List(items) => Some(texts_of(items@)),
        BibfileValue::Other => None,
    }
}

/// The style a setting names: IEEE where there is none.
pub open spec fn style_setting(s: Option<Seq<char>>) -> Option<ReferenceStyle> {
    match s {
        Some(t) => style_named(lowercase(t)),
        None => Some(ReferenceStyle::IEEE),
    }
}

/// The `fail_fast` a setting gives: `false` where there is none.
pub open spec fn fail_fast_setting(s: Option<Seq<char>>) -> Option<bool> {
    match s {
        Some(t) => if t == "false"@ {
            Some(false)
        } else if t == "true"@ {
            Some(true)
        } else {
            None
        },
        None => Some(false),
    }
}

/// The text of an optional string.
pub open spec fn opt_text(o: Option<String>) -> Option<Seq<char>> {
    match o {
        Some(s) => Some(s@),
        None => None,
    }
}

/// What the settings give: the error of the first setting that cannot be
/// used, in the order table, `bibfile`, `style`, `fail_fast`.
pub open spec fn settings_spec(table: Option<PreprocessorTable>) -> Result<(Seq<Seq<char>>, ReferenceStyle, bool), SettingsError> {
    match table {
        None => Err(SettingsError::NoConfig),
        Some(t) => match t.bibfile {
            None => Err(SettingsError::NoBibfile),
            Some(b) => match bib_paths(b) {
                None => Err(SettingsError::BibfileType),
                Some(paths) => match style_setting(opt_text(t.style)) {
                    None => Err(SettingsError::Style),
                    Some(style) => match fail_fast_setting(opt_text(t.fail_fast)) {
                        None => Err(SettingsError::FailFast),
                        Some(ff) => Ok((paths, style, ff)),
                    },
                },
            },
        },
    }
}

impl CitationPreprocessor {
    /// The name under which a book's settings configure the preprocessor.
    pub fn name(&self) -> (r: &'static str)
        ensures
            r@ == "citations"@,
    {
        "citations"
    }

    /// Whether the preprocessor works for a renderer: the renderer's name is
    /// one of the formats.
    pub fn supports_renderer(&self, renderer: &str) -> (b: bool)
        ensures
            b == (format_named(lowercase(renderer@)) is Some),
            is_ascii_text(renderer@) ==> b == (format_named(ascii_lowercase(renderer@)) is Some),
    {
        Format::try_from(renderer).is_ok()
    }

    /// The settings of the preprocessor's table. The book is always written
    /// in Markdown.
    pub fn settings(&self, table: Option<PreprocessorTable>) -> (r: Result<CitationSettings, SettingsError>)
        ensures
            match (r, settings_spec(table)) {
                (Ok(s), Ok((paths, style, ff))) => string_views(s.bib_files@) == paths && s.style == style
                    && s.format == Format::Markdown && s.fail_fast == ff,
                (Err(x), Err(y)) => x == y,
                _ => false,
            },
    {
        let t = match table {
            None => return Err(SettingsError::NoConfig),
            Some(t) => t,
        };
        let paths = match t.bibfile {
            None => return Err(SettingsError::NoBibfile),
            Some(BibfileValue::Text(s)) => {
                let mut v: Vec<String> = Vec::new();
                v.push(s);
                proof {
                    assert(string_views(v@) =~= seq![v@[0]@]);
                }
                v
            },
            Some(BibfileValue::List(items)) => texts(items),
            Some(BibfileValue::Other) => return Err(SettingsError::BibfileType),
        };
        let style = match t.style {
            Some(s) => match ReferenceStyle::try_from(s.as_str()) {
                Ok(st) => st,
                Err(_) => return Err(SettingsError::Style),
            },
            None => ReferenceStyle::IEEE,
        };
        let fail_fast = match t.fail_fast {
            Some(s) => {
                if crate::parsing::text::text_eq(s.as_str(), "false") {
                    false
                } else if crate::parsing::text::text_eq(s.as_str(), "true") {
                    true
                } else {
                    return Err(SettingsError::FailFast);
                }
            },
            None => false,
        };
        Ok(CitationSettings { bib_files: paths, style, format: Format::Markdown, fail_fast })
    }
}

/// The texts among the items, in order.
fn texts(items: Vec<Option<String>>) -> (r: Vec<String>)
    ensures
        string_views(r@) == texts_of(items@),
{
    let mut r: Vec<String> = Vec::new();
    let mut i: usize = 0;
    proof {
        assert(items@.take(0) =~= Seq::<Option<String>>::empty());
    }
    while i < items.len()
        invariant
            i <= items.len(),
            string_views(r@) == texts_of(items@.take(i as int)),
        decreases items.len() - i,
    {
        proof {
            assert(items@.take(i + 1).drop_last() =~= items@.take(i as int));
        }
        match &items[i] {
            Some(s) => {
                let ghost before = r@;
                r.push(s.clone());
                proof {
                    assert(string_views(r@) =~= string_views(before).push(s@));
                }
            },
            None => {},
        }
        i = i + 1;
    }
    proof {
        assert(items@.take(items@.len() as int) =~= items@);
    }
    r
}

/// An item of a book, as the preprocessor sees it.
#[derive(Debug, PartialEq, Eq)]
pub enum BookNode {
    PartTitle(String),
    Chapter(ChapterText),
    Separator,
}

/// The texts of a chapter and its sub-items.
#[derive(Debug, PartialEq, Eq)]
pub struct ChapterText {
    pub name: String,
    pub content: String,
    pub sub_items: Vec<BookNode>,
}

/// The texts of a book item.
pub enum NodeModel {
    PartTitle(Seq<char>),
    Chapter(Seq<char>, Seq<char>, Seq<NodeModel>),
    Separator,
}

impl BookNode {
    /// The texts of the item: a part title, or a chapter's name, content and
    /// sub-items.
    pub open spec fn model(self) -> NodeModel
        decreases self,
    {
        match self {
            BookNode::PartTitle(t) => NodeModel::PartTitle(t@),
            BookNode::Chapter(c) => NodeModel::Chapter(c.name@, c.content@, nodes_model(c.sub_items@)),
            BookNode::Separator => NodeModel::Separator,
        }
    }
}

/// The texts of a list of items.
pub open spec fn nodes_model(ns: Seq<BookNode>) -> Seq<NodeModel>
    decreases ns,
{
    if ns.len() == 0 {
        Seq::empty()
    } else {
        nodes_model(ns.subrange(0, ns.len() - 1)).push(ns[ns.len() - 1].model())
    }
}

/// An item with the citations of its texts expanded: a part title; a
/// chapter's content, then its sub-items in order, then its name. The first
/// key that no entry has stops it, with `fail_fast`.
pub open spec fn expand_node(
    es: Seq<EntryModel>,
    style: ReferenceStyle,
    format: Format,
    ff: bool,
    n: NodeModel,
) -> Result<NodeModel, Seq<char>>
    decreases n,
{
    match n {
        NodeModel::PartTitle(t) => match expand_spec(es, style, format, ff, t) {
            Ok(t2) => Ok(NodeModel::PartTitle(t2)),
            Err(k) => Err(k),
        },
        NodeModel::Chapter(name, content, subs) => match expand_spec(es, style, format, ff, content) {
            Err(k) => Err(k),
            Ok(content2) => match expand_nodes(es, style, format, ff, subs) {
                Err(k) => Err(k),
                Ok(subs2) => match expand_spec(es, style, format, ff, name) {
                    Err(k) => Err(k),
                    Ok(name2) => Ok(NodeModel::Chapter(name2, content2, subs2)),
                },
            },
        },
        NodeModel::Separator => Ok(NodeModel::Separator),
    }
}

/// A list of items each expanded, in order.
pub open spec fn expand_nodes(
    es: Seq<EntryModel>,
    style: ReferenceStyle,
    format: Format,
    ff: bool,
    ns: Seq<NodeModel>,
) -> Result<Seq<NodeModel>, Seq<char>>
    decreases ns,
{
    if ns.len() == 0 {
        Ok(Seq::empty())
    } else {
        match expand_nodes(es, style, format, ff, ns.subrange(0, ns.len() - 1)) {
            Err(k) => Err(k),
            Ok(done) => match expand_node(es, style, format, ff, ns[ns.len() - 1]) {
                Err(k) => Err(k),
                Ok(n2) => Ok(done.push(n2)),
            },
        }
    }
}

/// Whether every reference that expanding a text writes can be written.
pub open spec fn text_ok(es: Seq<EntryModel>, style: ReferenceStyle, ff: bool, t: Seq<char>) -> bool {
    expand_ok(es, style, ff, citations_from(t, 0).1)
}

/// Whether every reference that expanding an item writes can be written.
pub open spec fn node_ok(es: Seq<EntryModel>, style: ReferenceStyle, format: Format, ff: bool, n: NodeModel) -> bool
    decreases n,
{
    match n {
        NodeModel::PartTitle(t) => text_ok(es, style, ff, t),
        NodeModel::Chapter(name, content, subs) => {
            &&& text_ok(es, style, ff, content)
            &&& expand_spec(es, style, format, ff, content) is Ok ==> {
                &&& nodes_ok(es, style, format, ff, subs)
                &&& expand_nodes(es, style, format, ff, subs) is Ok ==> text_ok(es, style, ff, name)
            }
        },
        NodeModel::Separator => true,
    }
}

/// Whether every reference that expanding a list of items writes can be
/// written.
pub open spec fn nodes_ok(es: Seq<EntryModel>, style: ReferenceStyle, format: Format, ff: bool, ns: Seq<NodeModel>) -> bool
    decreases ns,
{
    if ns.len() == 0 {
        true
    } else {
        &&& nodes_ok(es, style, format, ff, ns.subrange(0, ns.len() - 1))
        &&& expand_nodes(es, style, format, ff, ns.subrange(0, ns.len() - 1)) is Ok ==> node_ok(
            es,
            style,
            format,
            ff,
            ns[ns.len() - 1],
        )
    }
}

proof fn lemma_nodes_model_prefix(ns: Seq<BookNode>, i: int)
    requires
        0 <= i <= ns.len(),
    ensures
        nodes_model(ns).len() == ns.len(),
        nodes_model(ns.subrange(0, i)) == nodes_model(ns).subrange(0, i),
        i < ns.len() ==> nodes_model(ns)[i] == ns[i].model(),
    decreases ns.len(),
{
    if ns.len() > 0 {
        let init = ns.subrange(0, ns.len() - 1);
        if i < ns.len() {
            lemma_nodes_model_prefix(init, i);
            assert(init.subrange(0, i) =~= ns.subrange(0, i));
            if i < ns.len() - 1 {
                assert(init[i] == ns[i]);
            }
        } else {
            lemma_nodes_model_prefix(init, 0);
            assert(ns.subrange(0, i) =~= ns);
        }
        assert(nodes_model(ns).subrange(0, i) =~= nodes_model(ns.subrange(0, i)));
    } else {
        assert(ns.subrange(0, i) =~= ns);
    }
}

proof fn lemma_nodes_ok_prefix(
    es: Seq<EntryModel>,
    style: ReferenceStyle,
    format: Format,
    ff: bool,
    ms: Seq<NodeModel>,
    n: int,
)
    requires
        0 <= n <= ms.len(),
        nodes_ok(es, style, format, ff, ms),
    ensures
        nodes_ok(es, style, format, ff, ms.subrange(0, n)),
    decreases ms.len() - n,
{
    if n < ms.len() {
        let init = ms.subrange(0, ms.len() - 1);
        assert(init.subrange(0, n) =~= ms.subrange(0, n));
        lemma_nodes_ok_prefix(es, style, format, ff, init, n);
    } else {
        assert(ms.subrange(0, n) =~= ms);
    }
}

proof fn lemma_nodes_err_extends(
    es: Seq<EntryModel>,
    style: ReferenceStyle,
    format: Format,
    ff: bool,
    ms: Seq<NodeModel>,
    n: int,
)
    requires
        0 <= n <= ms.len(),
        expand_nodes(es, style, format, ff, ms.subrange(0, n)) is Err,
    ensures
        expand_nodes(es, style, format, ff, ms) == expand_nodes(es, style, format, ff, ms.subrange(0, n)),
    decreases ms.len() - n,
{
    if n < ms.len() {
        let init = ms.subrange(0, ms.len() - 1);
        assert(init.subrange(0, n) =~= ms.subrange(0, n));
        lemma_nodes_err_extends(es, style, format, ff, init, n);
    } else {
        assert(ms.subrange(0, n) =~= ms);
    }
}

/// The item with the citations of its texts expanded: a part title; a
/// chapter's content, then its sub-items in order, then its name.
pub fn expandify_item(
    bib: &Bibliography,
    item: BookNode,
    style: ReferenceStyle,
    format: Format,
    fail_fast: bool,
) -> (r: Result<BookNode, MissingKey>)
    requires
        node_ok(bib@, style, format, fail_fast, item.model()),
    ensures
        match (r, expand_node(bib@, style, format, fail_fast, item.model())) {
            (Ok(n), Ok(m)) => n.model() == m,
            (Err(x), Err(k)) => x.key@ == k,
            _ => false,
        },
    decreases item,
{
    match item {
        BookNode::PartTitle(t) => match bib.expand_citations_in_string(t.as_str(), style, format, fail_fast) {
            Ok(t2) => Ok(BookNode::PartTitle(t2)),
            Err(e) => Err(e),
        },
        BookNode::Chapter(c) => {
            let content = match bib.expand_citations_in_string(c.content.as_str(), style, format, fail_fast) {
                Ok(x) => x,
                Err(e) => return Err(e),
            };
            let subs = match expandify_items(bib, c.sub_items, style, format, fail_fast) {
                Ok(v) => v,
                Err(e) => return Err(e),
            };
            let name = match bib.expand_citations_in_string(c.name.as_str(), style, format, fail_fast) {
                Ok(x) => x,
                Err(e) => return Err(e),
            };
            Ok(BookNode::Chapter(ChapterText { name, content, sub_items: subs }))
        },
        BookNode::Separator => Ok(BookNode::Separator),
    }
}

/// Once expanding a prefix of the items fails, nothing after it is
/// formatted.
proof fn lemma_nodes_ok_after_err(
    es: Seq<EntryModel>,
    style: ReferenceStyle,
    format: Format,
    ff: bool,
    ms: Seq<NodeModel>,
    n: int,
)
    requires
        0 <= n <= ms.len(),
        nodes_ok(es, style, format, ff, ms.subrange(0, n)),
        expand_nodes(es, style, format, ff, ms.subrange(0, n)) is Err,
    ensures
        nodes_ok(es, style, format, ff, ms),
    decreases ms.len() - n,
{
    if n < ms.len() {
        let init = ms.subrange(0, ms.len() - 1);
        assert(init.subrange(0, n) =~= ms.subrange(0, n));
        lemma_nodes_ok_after_err(es, style, format, ff, init, n);
        lemma_nodes_err_extends(es, style, format, ff, init, n);
    } else {
        assert(ms.subrange(0, n) =~= ms);
    }
}

/// The item expanded as `expandify_item` does it, if every reference that
/// this writes can be written; `None` where one cannot.
pub fn try_expandify_item(
    bib: &Bibliography,
    item: BookNode,
    style: ReferenceStyle,
    format: Format,
    fail_fast: bool,
) -> (r: Option<Result<BookNode, MissingKey>>)
    ensures
        (r is Some) == node_ok(bib@, style, format, fail_fast, item.model()),
        r matches Some(x) ==> match (x, expand_node(bib@, style, format, fail_fast, item.model())) {
            (Ok(n), Ok(m)) => n.model() == m,
            (Err(e), Err(k)) => e.key@ == k,
            _ => false,
        },
    decreases item,
{
    match item {
        BookNode::PartTitle(t) => {
            if !bib.can_expand(t.as_str(), style, fail_fast) {
                return None;
            }
            match bib.expand_citations_in_string(t.as_str(), style, format, fail_fast) {
                Ok(t2) => Some(Ok(BookNode::PartTitle(t2))),
                Err(e) => Some(Err(e)),
            }
        },
        BookNode::Chapter(c) => {
            if !bib.can_expand(c.content.as_str(), style, fail_fast) {
                return None;
            }
            let content = match bib.expand_citations_in_string(c.content.as_str(), style, format, fail_fast) {
                Ok(x) => x,
                Err(e) => return Some(Err(e)),
            };
            let subs = match try_expandify_items(bib, c.sub_items, style, format, fail_fast) {
                None => return None,
                Some(Ok(v)) => v,
                Some(Err(e)) => return Some(Err(e)),
            };
            if !bib.can_expand(c.name.as_str(), style, fail_fast) {
                return None;
            }
            let name = match bib.expand_citations_in_string(c.name.as_str(), style, format, fail_fast) {
                Ok(x) => x,
                Err(e) => return Some(Err(e)),
            };
            Some(Ok(BookNode::Chapter(ChapterText { name, content, sub_items: subs })))
        },
        BookNode::Separator => Some(Ok(BookNode::Separator)),
    }
}

/// Each item expanded, in order, until one fails, if every reference that
/// this writes can be written; `None` where one cannot.
fn try_expandify_items(
    bib: &Bibliography,
    items: Vec<BookNode>,
    style: ReferenceStyle,
    format: Format,
    fail_fast: bool,
) -> (r: Option<Result<Vec<BookNode>, MissingKey>>)
    ensures
        (r is Some) == nodes_ok(bib@, style, format, fail_fast, nodes_model(items@)),
        r matches Some(x) ==> match (x, expand_nodes(bib@, style, format, fail_fast, nodes_model(items@))) {
            (Ok(v), Ok(ms)) => nodes_model(v@) == ms,
            (Err(e), Err(k)) => e.key@ == k,
            _ => false,
        },
    decreases items,
{
    let ghost orig = items@;
    let ghost ms = nodes_model(orig);
    let ghost es = bib@;
    let mut rest = items;
    let mut out: Vec<BookNode> = Vec::new();
    let mut i: usize = 0;
    let total = rest.len();
    proof {
        lemma_nodes_model_prefix(orig, 0);
        assert(rest@ =~= orig.subrange(0, orig.len() as int));
        assert(ms.subrange(0, 0) =~= Seq::<NodeModel>::empty());
        assert(nodes_model(out@) =~= Seq::<NodeModel>::empty());
    }
    while rest.len() > 0
        invariant
            i <= orig.len(),
            i + rest@.len() == orig.len(),
            total == orig.len(),
            orig == items@,
            rest@ == orig.subrange(i as int, orig.len() as int),
            ms == nodes_model(orig),
            es == bib@,
            ms.len() == orig.len(),
            nodes_ok(es, style, format, fail_fast, ms.subrange(0, i as int)),
            expand_nodes(es, style, format, fail_fast, ms.subrange(0, i as int)) == Ok::<Seq<NodeModel>, Seq<char>>(
                nodes_model(out@),
            ),
        decreases rest.len(),
    {
        let item = rest.remove(0);
        proof {
            lemma_nodes_model_prefix(orig, i as int);
            assert(item == orig[i as int]);
            assert(ms.subrange(0, i + 1).subrange(0, i as int) =~= ms.subrange(0, i as int));
            assert(ms.subrange(0, i + 1)[i as int] == item.model());
            assert(decreases_to!(items => items@));
            assert(decreases_to!(items@ => items@[i as int]));
            assert(decreases_to!(items => item));
        }
        match try_expandify_item(bib, item, style, format, fail_fast) {
            None => {
                proof {
                    assert(!nodes_ok(es, style, format, fail_fast, ms.subrange(0, i + 1)));
                    if nodes_ok(es, style, format, fail_fast, ms) {
                        lemma_nodes_ok_prefix(es, style, format, fail_fast, ms, i + 1);
                    }
                }
                return None;
            },
            Some(Ok(n)) => {
                let ghost before = out@;
                out.push(n);
                proof {
                    assert(out@.subrange(0, out@.len() - 1) =~= before);
                    assert(nodes_model(out@) == nodes_model(before).push(n.model()));
                }
            },
            Some(Err(e)) => {
                proof {
                    assert(expand_nodes(es, style, format, fail_fast, ms.subrange(0, i + 1)) is Err);
                    assert(nodes_ok(es, style, format, fail_fast, ms.subrange(0, i + 1)));
                    lemma_nodes_ok_after_err(es, style, format, fail_fast, ms, i + 1);
                    lemma_nodes_err_extends(es, style, format, fail_fast, ms, i + 1);
                }
                return Some(Err(e));
            },
        }
        proof {
            assert(rest@ =~= orig.subrange(i + 1, orig.len() as int));
        }
        i = i + 1;
    }
    proof {
        assert(ms.subrange(0, i as int) =~= ms);
    }
    Some(Ok(out))
}

/// Each item expanded, in order, until one fails.
fn expandify_items(
    bib: &Bibliography,
    items: Vec<BookNode>,
    style: ReferenceStyle,
    format: Format,
    fail_fast: bool,
) -> (r: Result<Vec<BookNode>, MissingKey>)
    requires
        nodes_ok(bib@, style, format, fail_fast, nodes_model(items@)),
    ensures
        match (r, expand_nodes(bib@, style, format, fail_fast, nodes_model(items@))) {
            (Ok(v), Ok(ms)) => nodes_model(v@) == ms,
            (Err(x), Err(k)) => x.key@ == k,
            _ => false,
        },
    decreases items,
{
    let ghost orig = items@;
    let ghost ms = nodes_model(orig);
    let ghost es = bib@;
    let mut rest = items;
    let mut out: Vec<BookNode> = Vec::new();
    let mut i: usize = 0;
    let total = rest.len();
    proof {
        lemma_nodes_model_prefix(orig, 0);
        assert(rest@ =~= orig.subrange(0, orig.len() as int));
        assert(ms.subrange(0, 0) =~= Seq::<NodeModel>::empty());
        assert(nodes_model(out@) =~= Seq::<NodeModel>::empty());
    }
    while rest.len() > 0
        invariant
            i <= orig.len(),
            i + rest@.len() == orig.len(),
            total == orig.len(),
            orig == items@,
            rest@ == orig.subrange(i as int, orig.len() as int),
            ms == nodes_model(orig),
            es == bib@,
            ms.len() == orig.len(),
            nodes_ok(es, style, format, fail_fast, ms),
            expand_nodes(es, style, format, fail_fast, ms.subrange(0, i as int)) == Ok::<Seq<NodeModel>, Seq<char>>(
                nodes_model(out@),
            ),
        decreases rest.len(),
    {
        let item = rest.remove(0);
        proof {
            lemma_nodes_model_prefix(orig, i as int);
            assert(item == orig[i as int]);
            assert(ms.subrange(0, i + 1).subrange(0, i as int) =~= ms.subrange(0, i as int));
            assert(ms.subrange(0, i + 1)[i as int] == item.model());
            lemma_nodes_ok_prefix(es, style, format, fail_fast, ms, i + 1);
            assert(decreases_to!(items => items@));
            assert(decreases_to!(items@ => items@[i as int]));
            assert(decreases_to!(items => item));
        }
        match expandify_item(bib, item, style, format, fail_fast) {
            Ok(n) => {
                let ghost before = out@;
                out.push(n);
                proof {
                    assert(out@.subrange(0, out@.len() - 1) =~= before);
                    assert(nodes_model(out@) == nodes_model(before).push(n.model()));
                }
            },
            Err(e) => {
                proof {
                    assert(expand_nodes(es, style, format, fail_fast, ms.subrange(0, i + 1)) is Err);
                    lemma_nodes_err_extends(es, style, format, fail_fast, ms, i + 1);
                }
                return Err(e);
            },
        }
        proof {
            assert(rest@ =~= orig.subrange(i + 1, orig.len() as int));
        }
        i = i + 1;
    }
    proof {
        assert(ms.subrange(0, i as int) =~= ms);
    }
    Ok(out)
}

/// Whether no citation of the text names a key of the bibliography.
pub open spec fn cites_no_known_key(es: Seq<EntryModel>, t: Seq<char>) -> bool {
    forall|i: int|
        0 <= i < citations_from(t, 0).1.len() ==> !has_key_spec(es, (#[trigger] citations_from(t, 0).1[i]).1)
}

/// Whether no text of the item cites a key of the bibliography.
pub open spec fn node_cites_no_known_key(es: Seq<EntryModel>, n: NodeModel) -> bool
    decreases n,
{
    match n {
        NodeModel::PartTitle(t) => cites_no_known_key(es, t),
        NodeModel::Chapter(name, content, subs) => cites_no_known_key(es, name) && cites_no_known_key(es, content)
            && nodes_cite_no_known_key(es, subs),
        NodeModel::Separator => true,
    }
}

/// Whether no text of the items cites a key of the bibliography.
pub open spec fn nodes_cite_no_known_key(es: Seq<EntryModel>, ns: Seq<NodeModel>) -> bool
    decreases ns,
{
    if ns.len() == 0 {
        true
    } else {
        nodes_cite_no_known_key(es, ns.subrange(0, ns.len() - 1)) && node_cites_no_known_key(es, ns[ns.len() - 1])
    }
}

/// Expanding, without `fail_fast`, an item none of whose texts cites a key of
/// the bibliography leaves the item as it is; so a book without citations
/// comes out unchanged.
pub proof fn lemma_expand_node_without_known_keys(
    es: Seq<EntryModel>,
    style: ReferenceStyle,
    format: Format,
    n: NodeModel,
)
    requires
        node_cites_no_known_key(es, n),
    ensures
        expand_node(es, style, format, false, n) == Ok::<NodeModel, Seq<char>>(n),
    decreases n,
{
    match n {
        NodeModel::PartTitle(t) => {
            lemma_expand_without_known_keys(es, style, format, t);
        },
        NodeModel::Chapter(name, content, subs) => {
            lemma_expand_without_known_keys(es, style, format, name);
            lemma_expand_without_known_keys(es, style, format, content);
            lemma_expand_nodes_without_known_keys(es, style, format, subs);
        },
        NodeModel::Separator => {},
    }
}

/// Expanding, without `fail_fast`, items none of whose texts cites a key of
/// the bibliography leaves the items as they are.
pub proof fn lemma_expand_nodes_without_known_keys(
    es: Seq<EntryModel>,
    style: ReferenceStyle,
    format: Format,
    ns: Seq<NodeModel>,
)
    requires
        nodes_cite_no_known_key(es, ns),
    ensures
        expand_nodes(es, style, format, false, ns) == Ok::<Seq<NodeModel>, Seq<char>>(ns),
    decreases ns,
{
    if ns.len() > 0 {
        let init = ns.subrange(0, ns.len() - 1);
        lemma_expand_nodes_without_known_keys(es, style, format, init);
        lemma_expand_node_without_known_keys(es, style, format, ns[ns.len() - 1]);
        assert(init.push(ns[ns.len() - 1]) =~= ns);
    } else {
        assert(ns =~= Seq::<NodeModel>::empty());
    }
}

} // verus!
