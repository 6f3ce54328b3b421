//! What the crate has from the standard library's string and path
//! functions: the lines of a text, a text without the white space around
//! it, and the last segment of a path. The contracts of `split_lines`,
//! `trim_text` and `last_segment` are taken on trust.

use crate::text::texts;
use vstd::prelude::*;

verus! {

/// Where the first line feed stands in a text, or the length of the text if
/// it holds none.
pub open spec fn line_end(text: Seq<char>) -> nat
    decreases text.len(),
{
    if text.len() == 0 || text[0] == '\n' {
        0
    } else {
        1 + line_end(text.drop_first())
    }
}

/// A line without the carriage return that stood before its line feed.
pub open spec fn without_return(line: Seq<char>) -> Seq<char> {
    if line.len() > 0 && line.last() == '\r' {
        line.drop_last()
    } else {
        line
    }
}

/// The lines of a text. A line ends at a line feed; the line feed is not
/// part of the line, nor is a carriage return directly before it. What
/// follows the last line feed is a line of its own unless it is empty, and a
/// carriage return at its end stays.
pub open spec fn lines_of(text: Seq<char>) -> Seq<Seq<char>>
    decreases text.len(),
{
    if text.len() == 0 {
        Seq::empty()
    } else {
        let end = line_end(text) as int;
        if end >= text.len() {
            seq![text]
        } else {
            seq![without_return(text.take(end))] + lines_of(text.skip(end + 1))
        }
    }
}

/// Whether a character is white space: whether it has the property
/// White_Space of Unicode.
pub open spec fn is_white_space(c: char) -> bool {
    let code = c as u32;
    ||| 0x0009 <= code <= 0x000D
    ||| code == 0x0020
    ||| code == 0x0085
    ||| code == 0x00A0
    ||| code == 0x1680
    ||| 0x2000 <= code <= 0x200A
    ||| code == 0x2028
    ||| code == 0x2029
    ||| code == 0x202F
    ||| code == 0x205F
    ||| code == 0x3000
}

/// A text without the white space at its start.
pub open spec fn trim_start_of(text: Seq<char>) -> Seq<char>
    decreases text.len(),
{
    if text.len() > 0 && is_white_space(text[0]) {
        trim_start_of(text.drop_first())
    } else {
        text
    }
}

/// A text without the white space at its end.
pub open spec fn trim_end_of(text: Seq<char>) -> Seq<char>
    decreases text.len(),
{
    if text.len() > 0 && is_white_space(text.last()) {
        trim_end_of(text.drop_last())
    } else {
        text
    }
}

/// A text without the white space at its start and at its end.
pub open spec fn trimmed(text: Seq<char>) -> Seq<char> {
    trim_end_of(trim_start_of(text))
}

/// A text is blank when it holds nothing but white space.
pub open spec fn blank_text(text: Seq<char>) -> bool {
    forall|i: int| 0 <= i < text.len() ==> is_white_space(#[trigger] text[i])
}

/// What is left of a text without the white space at its start is blank
/// only if it is empty, and is empty just where the text is blank.
pub proof fn lemma_trim_start(text: Seq<char>)
    ensures
        trim_start_of(text).len() > 0 ==> !is_white_space(trim_start_of(text)[0]),
        trim_start_of(text).len() == 0 <==> blank_text(text),
    decreases text.len(),
{
    if text.len() > 0 && is_white_space(text[0]) {
        let rest = text.drop_first();
        lemma_trim_start(rest);
        if blank_text(rest) {
            assert forall|i: int| 0 <= i < text.len() implies is_white_space(#[trigger] text[i]) by {
                if i > 0 {
                    assert(text[i] == rest[i - 1]);
                }
            }
        }
        if blank_text(text) {
            assert forall|i: int| 0 <= i < rest.len() implies is_white_space(#[trigger] rest[i]) by {
                assert(rest[i] == text[i + 1]);
            }
        }
    } else if text.len() > 0 {
        assert(!is_white_space(text[0]));
    }
}

/// What is left of a text without the white space at its end is empty just
/// where the text is blank.
pub proof fn lemma_trim_end(text: Seq<char>)
    ensures
        trim_end_of(text).len() == 0 <==> blank_text(text),
    decreases text.len(),
{
    if text.len() > 0 && is_white_space(text.last()) {
        let rest = text.drop_last();
        lemma_trim_end(rest);
        if blank_text(rest) {
            assert forall|i: int| 0 <= i < text.len() implies is_white_space(#[trigger] text[i]) by {
                if i < rest.len() {
                    assert(text[i] == rest[i]);
                }
            }
        }
        if blank_text(text) {
            assert forall|i: int| 0 <= i < rest.len() implies is_white_space(#[trigger] rest[i]) by {
                assert(rest[i] == text[i]);
            }
        }
    } else if text.len() > 0 {
        assert(!is_white_space(text[text.len() - 1]));
    }
}

/// Trimming leaves nothing of a text just where the text is blank.
pub proof fn lemma_trimmed_blank(text: Seq<char>)
    ensures
        trimmed(text).len() == 0 <==> blank_text(text),
{
    let start = trim_start_of(text);
    lemma_trim_start(text);
    lemma_trim_end(start);
    if blank_text(start) && start.len() > 0 {
        assert(is_white_space(start[0]));
    }
}

/// Calls `str::lines` and hands each line over as a `String`. The contract
/// says what the documentation of `str::lines` says: lines end at `\n` or
/// `\r\n`, the endings are left out, the last ending is optional, and a
/// carriage return that no line feed follows stays in its line.
#[verifier::external_body]
pub(crate) fn split_lines(content: &str) -> (lines: Vec<String>)
    ensures
        texts(lines@) == lines_of(content@),
{
    content.lines().map(|line| line.to_string()).collect()
}

/// Calls `str::trim`. The contract says what the documentation of
/// `str::trim` says: the result is the text without the white space at its
/// start and at its end, white space being what has the property
/// White_Space of Unicode.
#[verifier::external_body]
pub(crate) fn trim_text<'a>(line: &'a str) -> (rest: &'a str)
    ensures
        rest@ == trimmed(line@),
{
    line.trim()
}

/// Whether a line is blank: whether trimming leaves nothing of it.
pub fn is_blank(line: &str) -> (yes: bool)
    ensures
        yes == blank_text(line@),
{
    proof {
        lemma_trimmed_blank(line@);
    }
    trim_text(line).is_empty()
}

/// `part` stands in `whole`, in one piece.
pub open spec fn is_part_of(part: Seq<char>, whole: Seq<char>) -> bool {
    exists|start: int, end: int|
        0 <= start <= end <= whole.len() && #[trigger] whole.subrange(start, end) == part
}

/// A path that is written with slashes alone: it holds no backslash and no
/// colon, and does not start with two slashes.
pub open spec fn plain_path(path: Seq<char>) -> bool {
    &&& forall|i: int| 0 <= i < path.len() ==> path[i] != '\\' && path[i] != ':'
    &&& !(path.len() >= 2 && path[0] == '/' && path[1] == '/')
}

/// What stands after the last slash of a path: the whole path where it
/// holds no slash, nothing where it ends with one.
pub open spec fn last_piece(path: Seq<char>) -> Seq<char>
    decreases path.len(),
{
    if path.len() == 0 || path.last() == '/' {
        Seq::empty()
    } else {
        last_piece(path.drop_last()).push(path.last())
    }
}

/// The final segment of a path that is written with slashes: the last of
/// the pieces between slashes that is neither empty nor a single dot, and
/// none where there is no such piece or where it is two dots.
pub open spec fn final_segment(path: Seq<char>) -> Option<Seq<char>>
    decreases path.len(),
{
    let piece = last_piece(path);
    if path.len() == 0 {
        None
    } else if piece.len() == 0 || piece == seq!['.'] {
        final_segment(path.drop_last())
    } else if piece == seq!['.', '.'] {
        None
    } else {
        Some(piece)
    }
}

/// The model of a segment that was found.
pub open spec fn segment_model(segment: Option<String>) -> Option<Seq<char>> {
    match segment {
        Some(text) => Some(text@),
        None => None,
    }
}

/// The name of a file whose path has the final segment `segment`: the
/// segment, or `unknown` where the path has none.
pub open spec fn name_of_segment(segment: Option<Seq<char>>) -> Seq<char> {
    match segment {
        Some(text) => text,
        None => "unknown"@,
    }
}

/// Calls `std::path::Path::file_name` and hands the segment over where it
/// is valid Unicode. Which characters part the segments of a path depends
/// on the platform. The contract says what holds on every one:
/// `Path::file_name` gives a component of the path, borrowed from the path,
/// so the segment stands in the text of the path, in one piece, and is not
/// empty. And it says what the documentation of `Path::file_name` and of
/// `Path::components` shows of a path that is written with slashes alone,
/// on Unix and on Windows, the platforms that it describes: slashes part
/// the segments, empty pieces and single dots are passed over, and a path
/// that ends in two dots has no file name.
#[verifier::external_body]
pub(crate) fn last_segment(path: &str) -> (segment: Option<String>)
    ensures
        segment matches Some(text) ==> text@.len() > 0 && is_part_of(text@, path@),
        plain_path(path@) ==> segment_model(segment) == final_segment(path@),
{
    std::path::Path::new(path).file_name().and_then(|name| name.to_str()).map(
        |name| name.to_string(),
    )
}

/// The name of a file whose path has the last segment `segment`:
/// the segment, or `unknown` where the path has none.
pub fn file_name_or_unknown(segment: Option<String>) -> (name: String)
    ensures
        name@ == name_of_segment(segment_model(segment)),
{
    match segment {
        Some(text) => text,
        None => "unknown".to_owned(),
    }
}

/// The name of the file at `path`: the final segment of the path, or
/// `unknown` where it has none.
///
/// Of a path that is written with slashes alone, the final segment is the
/// last piece between slashes that is neither empty nor a single dot; a
/// path without such a piece, or with two dots for it, has none. Of any
/// other path the platform decides what the final segment is: then the name
/// is `unknown`, or is not empty and stands in the path in one piece.
pub fn file_name_of(path: &str) -> (name: String)
    ensures
        plain_path(path@) ==> name@ == name_of_segment(final_segment(path@)),
        name@ == "unknown"@ || (name@.len() > 0 && is_part_of(name@, path@)),
{
    file_name_or_unknown(last_segment(path))
}

} // verus!
