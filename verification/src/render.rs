//! The two outside libraries that the engine calls: the Markdown renderer and
//! the HTML escaper. Nothing in this file is proved; each contract is a claim
//! about the outside code.

use vstd::prelude::*;

verus! {

/// The HTML that the `markdown` crate makes of a Markdown text.
pub uninterp spec fn markdown_html(text: Seq<char>) -> Seq<char>;

/// `markdown::to_html` compiles Markdown to HTML by the CommonMark rules with
/// the crate's default options. With those options it has no syntax errors to
/// report, so it returns for every text, and its result depends on the text
/// alone: that result is what `markdown_html` names.
pub assume_specification[ markdown::to_html ](value: &str) -> (html: String)
    ensures
        html@ == markdown_html(value@),
;

/// What the escaper writes for one character: an entity for each of the six
/// characters it knows, the character itself for any other.
pub open spec fn escaped_char(c: char) -> Seq<char> {
    if c == '"' {
        seq!['&', 'q', 'u', 'o', 't', ';']
    } else if c == '&' {
        seq!['&', 'a', 'm', 'p', ';']
    } else if c == '\'' {
        seq!['&', '#', 'x', '2', '7', ';']
    } else if c == '/' {
        seq!['&', '#', 'x', '2', 'f', ';']
    } else if c == '<' {
        seq!['&', 'l', 't', ';']
    } else if c == '>' {
        seq!['&', 'g', 't', ';']
    } else {
        seq![c]
    }
}

/// A text with each of its characters escaped.
pub open spec fn html_escaped(text: Seq<char>) -> Seq<char>
    decreases text.len(),
{
    if text.len() == 0 {
        Seq::empty()
    } else {
        html_escaped(text.drop_last()) + escaped_char(text.last())
    }
}

/// `v_htmlescape::escape`, written out through its `Display` impl. The crate
/// replaces the bytes of `"`, `&`, `'`, `/`, `<` and `>` by `&quot;`, `&amp;`,
/// `&#x27;`, `&#x2f;`, `&lt;` and `&gt;` and copies every other byte. All six
/// are ASCII, so no byte of a longer character is touched and the rewriting is
/// the same character by character.
#[verifier::external_body]
pub(crate) fn escape_html(text: &str) -> (out: String)
    ensures
        out@ == html_escaped(text@),
{
    v_htmlescape::escape(text).to_string()
}

} // verus!
