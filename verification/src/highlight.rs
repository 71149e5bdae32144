//! The highlighter: text in, marked-up text out.
//!
//! The functions that call the highlighter are not proved. What each returns
//! depends on its arguments alone, so each result has a name, and the
//! contracts of the rest of the library speak of these names.

use vstd::prelude::*;
use vstd::string::StringExecFns;

verus! {

/// The text that `String::from_utf8_lossy` makes of bytes.
pub uninterp spec fn lossy_text(bytes: Seq<u8>) -> Seq<char>;

/// The name of the syntax that the highlighter's default syntaxes give for a
/// text by its first line, if any does.
pub uninterp spec fn first_line_syntax(text: Seq<char>) -> Option<Seq<char>>;

/// The name of the syntax that the highlighter's default syntaxes give for a
/// file extension, if any does.
pub uninterp spec fn extension_syntax(extension: Seq<char>) -> Option<Seq<char>>;

/// The markup that the highlighter makes of a text under the syntax of that
/// name, with `prefix` before each class; `None` where its default syntaxes
/// hold none of that name.
pub uninterp spec fn highlighted(text: Seq<char>, syntax: Seq<char>, prefix: Seq<char>) -> Option<
    Seq<char>,
>;

/// What an optional text holds, as a value of the model.
pub open spec fn text_view(text: Option<String>) -> Option<Seq<char>> {
    match text {
        Some(text) => Some(text@),
        None => None,
    }
}

/// The name of the syntax without rules.
pub open spec fn plain_text() -> Seq<char> {
    "Plain Text"@
}

/// The prefix of every class in the markup.
pub open spec fn class_prefix() -> Seq<char> {
    "gawsh-"@
}

/// The name of the syntax that a text is highlighted under: the one that its
/// first line gives; else the one that the extension gives; else the syntax
/// without rules.
pub open spec fn chosen_syntax(text: Seq<char>, extension: Seq<char>) -> Seq<char> {
    match first_line_syntax(text) {
        Some(name) => name,
        None => match extension_syntax(extension) {
            Some(name) => name,
            None => plain_text(),
        },
    }
}

/// The markup of a text that comes from a file with that extension.
pub open spec fn highlighted_markup(text: Seq<char>, extension: Seq<char>) -> Option<Seq<char>> {
    highlighted(text, chosen_syntax(text, extension), class_prefix())
}

/// `String::from_utf8_lossy`: the text that the bytes encode, where each run
/// of bytes that encodes no character gives a replacement character.
#[verifier::external_body]
pub(crate) fn decode_lossy(bytes: &[u8]) -> (text: String)
    ensures
        text@ == lossy_text(bytes@),
{
    String::from_utf8_lossy(bytes).into_owned()
}

/// `syntect::parsing::SyntaxSet::find_syntax_by_first_line` on the set that
/// `SyntaxSet::load_defaults_newlines` loads: the name of the syntax found.
#[verifier::external_body]
pub(crate) fn syntax_by_first_line(text: &str) -> (found: Option<String>)
    ensures
        text_view(found) == first_line_syntax(text@),
{
    let syntaxes = syntect::parsing::SyntaxSet::load_defaults_newlines();
    syntaxes.find_syntax_by_first_line(text).map(|syntax| syntax.name.clone())
}

/// `syntect::parsing::SyntaxSet::find_syntax_by_extension` on the set that
/// `SyntaxSet::load_defaults_newlines` loads: the name of the syntax found.
#[verifier::external_body]
pub(crate) fn syntax_by_extension(extension: &str) -> (found: Option<String>)
    ensures
        text_view(found) == extension_syntax(extension@),
{
    let syntaxes = syntect::parsing::SyntaxSet::load_defaults_newlines();
    syntaxes.find_syntax_by_extension(extension).map(|syntax| syntax.name.clone())
}

/// `syntect::html::ClassedHTMLGenerator`, made for the syntax that
/// `SyntaxSet::find_syntax_by_name` finds in the default set, fed the text
/// line by line and finalized: the markup of the text.
#[verifier::external_body]
pub(crate) fn highlight_as(text: &str, syntax: &str, prefix: &'static str) -> (markup: Option<
    String,
>)
    ensures
        text_view(markup) == highlighted(text@, syntax@, prefix@),
{
    let syntaxes = syntect::parsing::SyntaxSet::load_defaults_newlines();
    let found = syntaxes.find_syntax_by_name(syntax)?;
    let style = syntect::html::ClassStyle::SpacedPrefixed { prefix };
    let mut generator =
        syntect::html::ClassedHTMLGenerator::new_with_class_style(found, &syntaxes, style);
    for line in syntect::util::LinesWithEndings::from(text) {
        generator.parse_html_for_line_which_includes_newline(line);
    }
    Some(generator.finalize())
}

/// The name of the syntax for a text, of what the first line and the
/// extension gave: the one of the first line; else the one of the extension;
/// else the syntax without rules.
pub fn choose_syntax(by_first_line: Option<String>, by_extension: Option<String>) -> (name: String)
    ensures
        name@ == match by_first_line {
            Some(first) => first@,
            None => match by_extension {
                Some(second) => second@,
                None => plain_text(),
            },
        },
{
    match by_first_line {
        Some(first) => first,
        None => match by_extension {
            Some(second) => second,
            None => String::from_str("Plain Text"),
        },
    }
}

/// Highlights a text that comes from a file with that extension. The syntax
/// is chosen by the first line of the text, else by the extension, else it is
/// the syntax without rules. `None` is returned where the highlighter has no
/// markup to give.
pub fn highlight(text: &str, extension: &str) -> (markup: Option<String>)
    ensures
        text_view(markup) == highlighted_markup(text@, extension@),
{
    let by_first_line = syntax_by_first_line(text);
    let by_extension = if by_first_line.is_none() {
        syntax_by_extension(extension)
    } else {
        None
    };
    let syntax = choose_syntax(by_first_line, by_extension);
    highlight_as(text, syntax.as_str(), "gawsh-")
}

} // verus!
