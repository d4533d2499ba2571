# cite_me_bro

Formats BibTeX references in the IEEE and APA citation styles, as plain text,
Markdown or HTML, and replaces `\cite{key}` in a text by the reference of the
entry with that key. The library is written in Verus: each public function
states what it returns, and Verus proves it.

## Layout

- `src/parsing/` reads BibTeX: the grammar of entries, fields and names is
  stated as spec functions over a sequence of characters, and the readers are
  proved to follow it.
- `src/formaters/` marks text up as italics, bold and links.
- `src/styles/` writes a reference in the IEEE or APA style; the text of each
  kind of entry is stated by a spec function of the style. Month names come
  from chrono, initials from unicode-segmentation.
- `src/ops/` holds the bibliography (lookup by key, formatting, citation
  expansion, merging) and the mdbook preprocessor's settings and the expansion
  of a book's items. A function that needs every entry it formats to have the
  fields the style asks for has a `try_` form that checks this first and
  returns `None` where it does not hold.
- `app/` is the `cmb` command line program and the preprocessor under mdbook's
  trait: it reads files and the book, and hands plain values to the library.
- `tests/` runs the library on concrete inputs.
