//! From the bytes of a blob to its artifact: the filename that hints at the
//! language, the lines of the highlighted markup, and the numbered table
//! that holds them.

use crate::bytes::{append_bytes, copy_of_range, same_bytes, views};
use crate::highlight::{decode_lossy, highlight, highlighted_markup, lossy_text};
use crate::merge::filenames;
use vstd::prelude::*;
use vstd::utf8::encode_utf8;

verus! {

/// The byte before an extension.
pub const DOT: u8 = 46;

/// The byte that ends a line.
pub const NEWLINE: u8 = 10;

/// The byte that may stand before the one that ends a line.
pub const CARRIAGE_RETURN: u8 = 13;

/// The byte of the digit zero.
pub const ZERO: u8 = 48;

/// Where the last dot of a name is; -1 where the name holds no dot.
pub open spec fn last_dot(name: Seq<u8>) -> int
    decreases name.len(),
{
    if name.len() == 0 {
        -1
    } else if name.last() == DOT {
        name.len() - 1
    } else {
        last_dot(name.drop_last())
    }
}

/// The extension of a filename: what follows its last dot. A name without a
/// dot has the empty extension, and so has a name whose only dot is its
/// first byte.
pub open spec fn extension(name: Seq<u8>) -> Seq<u8> {
    let dot = last_dot(name);
    if dot <= 0 {
        Seq::empty()
    } else {
        name.skip(dot + 1)
    }
}

/// Whether two of the filenames have different extensions.
pub open spec fn has_ambiguous_extensions(names: Seq<Seq<u8>>) -> bool {
    exists|i: int, j: int|
        0 <= i < names.len() && 0 <= j < names.len() && #[trigger] extension(names[i])
            != #[trigger] extension(names[j])
}

/// Where the first line of `bytes` ends: the number of bytes before the first
/// newline, or the number of all bytes where there is none.
pub open spec fn first_newline(bytes: Seq<u8>) -> nat
    decreases bytes.len(),
{
    if bytes.len() == 0 {
        0
    } else if bytes[0] == NEWLINE {
        0
    } else {
        1 + first_newline(bytes.skip(1))
    }
}

/// A line without the carriage return at its end, if it has one.
pub open spec fn without_carriage_return(line: Seq<u8>) -> Seq<u8> {
    if line.len() > 0 && line.last() == CARRIAGE_RETURN {
        line.drop_last()
    } else {
        line
    }
}

/// The lines of a text. Each newline ends a line; the newline is no part of
/// the line, nor is a carriage return before it. What follows the last
/// newline is a line too, unless it is empty.
pub open spec fn lines_of(bytes: Seq<u8>) -> Seq<Seq<u8>>
    decreases bytes.len(),
{
    if bytes.len() == 0 {
        Seq::empty()
    } else {
        let end = first_newline(bytes);
        if end >= bytes.len() {
            seq![bytes]
        } else {
            seq![without_carriage_return(bytes.take(end as int))] + lines_of(
                bytes.skip(end as int + 1),
            )
        }
    }
}

/// Whether the last byte of a text is a newline.
pub open spec fn ends_with_newline(bytes: Seq<u8>) -> bool {
    bytes.len() > 0 && bytes.last() == NEWLINE
}

/// The fragments of a markup, one for each line of the text that it was made
/// of: the lines of the markup, but where the text ends with a newline, what
/// the markup holds behind its last newline closes what the last line opened,
/// and belongs to the fragment of that line.
pub open spec fn fragments(markup: Seq<u8>, closed: bool) -> Seq<Seq<u8>> {
    let lines = lines_of(markup);
    if closed && lines.len() >= 2 && !ends_with_newline(markup) {
        lines.take(lines.len() - 2).push(lines[lines.len() - 2] + lines[lines.len() - 1])
    } else {
        lines
    }
}

/// The digits of a number, in base ten.
pub open spec fn decimal(number: nat) -> Seq<u8>
    decreases number,
{
    if number < 10 {
        seq![(ZERO + number) as u8]
    } else {
        decimal(number / 10).push((ZERO + number % 10) as u8)
    }
}

/// One row of the table: the cell with the line's number, which links to the
/// row itself, and the cell with the line.
pub open spec fn table_row(number: nat, line: Seq<u8>) -> Seq<u8> {
    encode_utf8("<tr id=\"L"@) + decimal(number) + encode_utf8(
        "\"><td class=\"gawsh-line-number\"><a href=\"#L"@,
    ) + decimal(number) + encode_utf8("\"><pre>"@) + decimal(number) + encode_utf8(
        "</pre></a></td><td class=\"gawsh-line-content-wrapper\"><pre class=\"gawsh-line-content\">"@,
    ) + line + encode_utf8("</pre></td></tr>"@)
}

/// The rows of the lines, numbered from one.
pub open spec fn table_rows(lines: Seq<Seq<u8>>) -> Seq<u8>
    decreases lines.len(),
{
    if lines.len() == 0 {
        Seq::empty()
    } else {
        table_rows(lines.drop_last()) + table_row(lines.len(), lines.last())
    }
}

/// The artifact of a rendered blob: a table with one numbered row for each
/// line.
pub open spec fn rendered_object(lines: Seq<Seq<u8>>) -> Seq<u8> {
    encode_utf8("<table>"@) + table_rows(lines) + encode_utf8("</table>"@)
}

/// The artifact that is made of the content of a blob that was seen under
/// `names`: its text is decoded, highlighted by the hint of the first name's
/// extension, cut into lines and set into a table. `None` where the
/// highlighter gives no markup.
pub open spec fn artifact_of(content: Seq<u8>, names: Seq<u8>) -> Option<Seq<u8>> {
    let hint = filenames(names)[0];
    let text = lossy_text(content);
    match highlighted_markup(text, lossy_text(extension(hint))) {
        Some(markup) => Some(
            rendered_object(
                fragments(encode_utf8(markup), ends_with_newline(encode_utf8(text))),
            ),
        ),
        None => None,
    }
}

/// A dot at `dot` with no dot behind it is the last dot.
proof fn lemma_last_dot_found(name: Seq<u8>, dot: int)
    requires
        0 <= dot < name.len(),
        name[dot] == DOT,
        forall|k: int| dot < k < name.len() ==> name[k] != DOT,
    ensures
        last_dot(name) == dot,
    decreases name.len(),
{
    if name.len() - 1 > dot {
        lemma_last_dot_found(name.drop_last(), dot);
    }
}

/// A name without a dot has no last dot.
proof fn lemma_last_dot_missing(name: Seq<u8>)
    requires
        forall|k: int| 0 <= k < name.len() ==> name[k] != DOT,
    ensures
        last_dot(name) == -1,
    decreases name.len(),
{
    if name.len() > 0 {
        lemma_last_dot_missing(name.drop_last());
    }
}

/// Where no byte before `end` is a newline and a newline stands at `end`, or
/// `end` is the end, the first line ends at `end`.
proof fn lemma_first_newline_found(bytes: Seq<u8>, end: int)
    requires
        0 <= end <= bytes.len(),
        forall|k: int| 0 <= k < end ==> bytes[k] != NEWLINE,
        end < bytes.len() ==> bytes[end] == NEWLINE,
    ensures
        first_newline(bytes) == end,
    decreases bytes.len(),
{
    if bytes.len() > 0 && end > 0 {
        let rest = bytes.skip(1);
        assert forall|k: int| 0 <= k < end - 1 implies rest[k] != NEWLINE by {
            assert(rest[k] == bytes[k + 1]);
        }
        lemma_first_newline_found(rest, end - 1);
    }
}

/// The extension of a filename.
pub fn extension_of(name: &[u8]) -> (found: Vec<u8>)
    ensures
        found@ == extension(name@),
{
    let mut i: usize = name.len();
    while i > 0 && name[i - 1] != DOT
        invariant
            0 <= i <= name@.len(),
            forall|k: int| i <= k < name@.len() ==> name@[k] != DOT,
        decreases i,
    {
        i -= 1;
    }
    proof {
        if i > 0 {
            lemma_last_dot_found(name@, i - 1);
        } else {
            lemma_last_dot_missing(name@);
        }
    }
    if i <= 1 {
        Vec::new()
    } else {
        let found = copy_of_range(name, i, name.len());
        assert(found@ =~= name@.skip(i as int));
        found
    }
}

/// Whether two of the filenames have different extensions.
pub fn ambiguous_extensions(names: &Vec<Vec<u8>>) -> (ambiguous: bool)
    ensures
        ambiguous == has_ambiguous_extensions(views(names@)),
{
    if names.len() == 0 {
        return false;
    }
    let first = extension_of(names[0].as_slice());
    let mut k: usize = 1;
    while k < names.len()
        invariant
            1 <= k <= names@.len(),
            first@ == extension(views(names@)[0]),
            forall|j: int| 0 <= j < k ==> #[trigger] extension(views(names@)[j]) == first@,
        decreases names@.len() - k,
    {
        let other = extension_of(names[k].as_slice());
        if !same_bytes(other.as_slice(), first.as_slice()) {
            assert(extension(views(names@)[k as int]) != extension(views(names@)[0]));
            return true;
        }
        k += 1;
    }
    false
}

/// The lines of a text.
pub fn split_lines(bytes: &[u8]) -> (lines: Vec<Vec<u8>>)
    ensures
        views(lines@) == lines_of(bytes@),
{
    let mut lines: Vec<Vec<u8>> = Vec::new();
    let mut start: usize = 0;
    proof {
        assert(bytes@.skip(0) =~= bytes@);
        assert(views(lines@) + lines_of(bytes@) =~= lines_of(bytes@));
    }
    while start < bytes.len()
        invariant
            0 <= start <= bytes@.len(),
            views(lines@) + lines_of(bytes@.skip(start as int)) == lines_of(bytes@),
        decreases bytes@.len() - start,
    {
        let ghost rest = bytes@.skip(start as int);
        let ghost done = views(lines@);
        let mut end: usize = start;
        while end < bytes.len() && bytes[end] != NEWLINE
            invariant
                start <= end <= bytes@.len(),
                forall|k: int| start <= k < end ==> bytes@[k] != NEWLINE,
            decreases bytes@.len() - end,
        {
            end += 1;
        }
        proof {
            assert forall|k: int| 0 <= k < end - start implies rest[k] != NEWLINE by {
                assert(rest[k] == bytes@[start + k]);
            }
            lemma_first_newline_found(rest, end - start);
        }
        if end == bytes.len() {
            let line = copy_of_range(bytes, start, end);
            proof {
                assert(line@ =~= rest);
                assert(bytes@.skip(end as int) =~= Seq::<u8>::empty());
            }
            lines.push(line);
            proof {
                assert(views(lines@) =~= done.push(rest));
                assert(views(lines@) + lines_of(bytes@.skip(end as int)) =~= done + seq![rest]);
            }
            start = end;
        } else {
            let stop = if end > start && bytes[end - 1] == CARRIAGE_RETURN {
                end - 1
            } else {
                end
            };
            let line = copy_of_range(bytes, start, stop);
            proof {
                let whole = rest.take(end - start);
                assert(whole =~= bytes@.subrange(start as int, end as int));
                assert(line@ =~= without_carriage_return(whole));
                assert(rest.skip(end - start + 1) =~= bytes@.skip(end + 1));
            }
            lines.push(line);
            proof {
                let line_view = without_carriage_return(rest.take(end - start));
                assert(views(lines@) =~= done.push(line_view));
                assert(views(lines@) + lines_of(bytes@.skip(end + 1)) =~= done + (seq![line_view]
                    + lines_of(bytes@.skip(end + 1))));
            }
            start = end + 1;
        }
    }
    proof {
        assert(bytes@.skip(start as int) =~= Seq::<u8>::empty());
        assert(views(lines@) + Seq::<Seq<u8>>::empty() =~= views(lines@));
    }
    lines
}

/// The fragments of a markup, one for each line of the text that it was made
/// of; `closed` says whether that text ends with a newline.
pub fn fragments_of(markup: &[u8], closed: bool) -> (found: Vec<Vec<u8>>)
    ensures
        views(found@) == fragments(markup@, closed),
{
    let mut lines = split_lines(markup);
    let count = lines.len();
    if closed && count >= 2 && markup[markup.len() - 1] != NEWLINE {
        let ghost all = views(lines@);
        let last = lines.pop();
        let before = lines.pop();
        match (before, last) {
            (Some(mut joined), Some(closing)) => {
                append_bytes(&mut joined, closing.as_slice());
                lines.push(joined);
                proof {
                    assert(views(lines@) =~= all.take(all.len() - 2).push(
                        all[all.len() - 2] + all[all.len() - 1],
                    ));
                }
            },
            _ => {},
        }
    } else {
        proof {
            if count >= 2 {
                assert(lines_of(markup@).len() >= 2);
            }
        }
    }
    lines
}

/// Writes the digits of a number behind `out`.
pub fn append_decimal(out: &mut Vec<u8>, number: usize)
    ensures
        final(out)@ == old(out)@ + decimal(number as nat),
    decreases number,
{
    if number < 10 {
        out.push(ZERO + number as u8);
        assert(final(out)@ =~= old(out)@ + decimal(number as nat));
    } else {
        append_decimal(out, number / 10);
        out.push(ZERO + (number % 10) as u8);
        assert(out@ =~= old(out)@ + decimal(number as nat));
    }
}

/// Writes one row of the table behind `out`.
fn append_row(out: &mut Vec<u8>, number: usize, line: &[u8])
    ensures
        final(out)@ == old(out)@ + table_row(number as nat, line@),
{
    append_bytes(out, "<tr id=\"L".as_bytes());
    append_decimal(out, number);
    append_bytes(out, "\"><td class=\"gawsh-line-number\"><a href=\"#L".as_bytes());
    append_decimal(out, number);
    append_bytes(out, "\"><pre>".as_bytes());
    append_decimal(out, number);
    append_bytes(
        out,
        "</pre></a></td><td class=\"gawsh-line-content-wrapper\"><pre class=\"gawsh-line-content\">".as_bytes(),
    );
    append_bytes(out, line);
    append_bytes(out, "</pre></td></tr>".as_bytes());
    assert(out@ =~= old(out)@ + table_row(number as nat, line@));
}

/// The artifact of a rendered blob: a table with one numbered row for each
/// line.
pub fn render_table(lines: &Vec<Vec<u8>>) -> (table: Vec<u8>)
    ensures
        table@ == rendered_object(views(lines@)),
{
    let mut table: Vec<u8> = Vec::new();
    append_bytes(&mut table, "<table>".as_bytes());
    let mut k: usize = 0;
    proof {
        assert(views(lines@).take(0) =~= Seq::<Seq<u8>>::empty());
        assert(table@ =~= encode_utf8("<table>"@) + table_rows(views(lines@).take(0)));
    }
    while k < lines.len()
        invariant
            0 <= k <= lines@.len(),
            table@ == encode_utf8("<table>"@) + table_rows(views(lines@).take(k as int)),
        decreases lines@.len() - k,
    {
        let ghost before = table@;
        append_row(&mut table, k + 1, lines[k].as_slice());
        proof {
            let seen = views(lines@).take(k + 1);
            assert(seen.drop_last() =~= views(lines@).take(k as int));
            assert(seen.last() == lines@[k as int]@);
            assert(table@ =~= encode_utf8("<table>"@) + table_rows(seen));
        }
        k += 1;
    }
    proof {
        assert(views(lines@).take(k as int) =~= views(lines@));
    }
    append_bytes(&mut table, "</table>".as_bytes());
    table
}

/// The filename that hints at the language of a blob: the first of its
/// filenames, and the empty name where it has none.
pub open spec fn hint_of(names: Seq<Seq<u8>>) -> Seq<u8> {
    if names.len() > 0 {
        names[0]
    } else {
        Seq::empty()
    }
}

/// The artifact that is made of the content of a blob that was seen under
/// the filenames `names`, the first of which hints at the language; `None`
/// where the highlighter gives no markup.
pub fn render_artifact(content: &[u8], names: &Vec<Vec<u8>>) -> (artifact: Option<Vec<u8>>)
    ensures
        match artifact {
            Some(bytes) => highlighted_markup(
                lossy_text(content@),
                lossy_text(extension(hint_of(views(names@)))),
            ) matches Some(markup) && bytes@ == rendered_object(
                fragments(
                    encode_utf8(markup),
                    ends_with_newline(encode_utf8(lossy_text(content@))),
                ),
            ),
            None => highlighted_markup(
                lossy_text(content@),
                lossy_text(extension(hint_of(views(names@)))),
            ) is None,
        },
{
    let text = decode_lossy(content);
    let hint = if names.len() > 0 {
        extension_of(names[0].as_slice())
    } else {
        proof {
            assert(extension(Seq::<u8>::empty()) =~= Seq::<u8>::empty());
        }
        Vec::new()
    };
    let hint_text = decode_lossy(hint.as_slice());
    match highlight(text.as_str(), hint_text.as_str()) {
        Some(markup) => {
            let bytes = text.as_str().as_bytes();
            let closed = bytes.len() > 0 && bytes[bytes.len() - 1] == NEWLINE;
            let lines = fragments_of(markup.as_str().as_bytes(), closed);
            Some(render_table(&lines))
        },
        None => None,
    }
}

} // verus!
