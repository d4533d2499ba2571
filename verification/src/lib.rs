//! Formats BibTeX references in the IEEE and APA citation styles, as plain
//! text, Markdown or HTML.

pub mod formaters;
pub mod ops;
pub mod parsing;
pub mod styles;

use parsing::text::{ascii_lowercase, is_ascii_text, lowercase, text_eq, to_lowercase};
use vstd::prelude::*;

verus! {

/// The markup of a formatted reference.
#[derive(Debug, Clone, Copy, PartialEq, Eq, Structural)]
pub enum Format {
    Plain,
    Markdown,
    Html,
}

impl Default for Format {
    fn default() -> (r: Self)
        ensures
            r == Format::Plain,
    {
        Format::Plain
    }
}

/// A name that is not one of the formats.
#[derive(Debug, Clone, Copy, PartialEq, Eq, Structural)]
pub struct InvalidFormat;

impl InvalidFormat {
    /// What went wrong, in words.
    pub fn message(&self) -> (r: &'static str)
        ensures
            r@ == "invalid format"@,
    {
        "invalid format"
    }
}

/// The format that a lower case name stands for.
pub open spec fn format_named(s: Seq<char>) -> Option<Format> {
    if s == "plain"@ {
        Some(Format::Plain)
    } else if s == "markdown"@ {
        Some(Format::Markdown)
    } else if s == "html"@ {
        Some(Format::Html)
    } else {
        None
    }
}

impl Format {
    /// The format named `value`, in any case of its letters.
    pub fn try_from(value: &str) -> (r: Result<Format, InvalidFormat>)
        ensures
            match format_named(lowercase(value@)) {
                Some(f) => r == Ok::<Format, InvalidFormat>(f),
                None => r is Err,
            },
            is_ascii_text(value@) ==> match format_named(ascii_lowercase(value@)) {
                Some(f) => r == Ok::<Format, InvalidFormat>(f),
                None => r is Err,
            },
    {
        let low = to_lowercase(value);
        Format::from_lowercase(low.as_str())
    }

    /// The format of a lower case name: `plain`, `markdown` or `html`.
    pub fn from_lowercase(name: &str) -> (r: Result<Format, InvalidFormat>)
        ensures
            match format_named(name@) {
                Some(f) => r == Ok::<Format, InvalidFormat>(f),
                None => r is Err,
            },
    {
        if text_eq(name, "plain") {
            Ok(Format::Plain)
        } else if text_eq(name, "markdown") {
            Ok(Format::Markdown)
        } else if text_eq(name, "html") {
            Ok(Format::Html)
        } else {
            Err(InvalidFormat)
        }
    }
}

} // verus!
