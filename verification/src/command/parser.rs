//! The grammar of command templates.
//!
//! A template is a run of segments. A segment that begins with `{` is a
//! placeholder: it goes on to the next `}`, with a body in between that is
//! not empty. A segment that begins with a quote, `"` or `'`, and has a
//! second quote of the same kind after at least one other character, is the
//! text between the two quotes. Any other segment is text as it stands, up
//! to the next `{` or the end.

use crate::command::error::CommandError;
use crate::command::placeholder::compiled;
use crate::command::placeholder::PlaceholderEnum;
use crate::command::placeholder::PlaceholderModel;
use crate::command::placeholder::PlaceholderString;
use crate::command::text::chars_of;
use crate::command::text::slice_of;
use crate::command::text::string_of;
use vstd::prelude::*;

verus! {

/// The first index from `from` on at which `c` stands in `text`, or the
/// length of `text` if there is none.
pub open spec fn find(text: Seq<char>, c: char, from: int) -> int
    decreases text.len() - from,
{
    if from >= text.len() {
        text.len() as int
    } else if text[from] == c {
        from
    } else {
        find(text, c, from + 1)
    }
}

/// A segment of a template.
pub enum Segment {
    /// Text that stands as it is.
    Literal(Seq<char>),
    /// The body of a placeholder.
    Placeholder(Seq<char>),
}

/// What stands between the delimiter at `from` and the next `close` after
/// it, with the index after that `close`; nothing if no `close` follows or
/// if it follows at once.
pub open spec fn enclosed(text: Seq<char>, from: int, close: char) -> Option<(Seq<char>, int)> {
    let end = find(text, close, from + 1);
    if from + 1 < end < text.len() {
        Some((text.subrange(from + 1, end), end + 1))
    } else {
        None
    }
}

/// The segment that begins at `from`, with the index at which the next one
/// begins; nothing if a brace opens there that is not a placeholder.
pub open spec fn segment_at(text: Seq<char>, from: int) -> Option<(Segment, int)> {
    let c = text[from];
    if c == '{' {
        match enclosed(text, from, '}') {
            Some((body, next)) => Some((Segment::Placeholder(body), next)),
            None => None,
        }
    } else {
        let quoted = if c == '"' || c == '\'' {
            enclosed(text, from, c)
        } else {
            None
        };
        match quoted {
            Some((value, next)) => Some((Segment::Literal(value), next)),
            None => {
                let end = find(text, '{', from);
                Some((Segment::Literal(text.subrange(from, end)), end))
            },
        }
    }
}

/// What a segment stands for.
pub open spec fn part_of(segment: Segment) -> Result<PlaceholderModel, CommandError> {
    match segment {
        Segment::Literal(text) => Ok(PlaceholderModel::Literal(text)),
        Segment::Placeholder(body) => compiled(body),
    }
}

/// `parts` before what `rest` holds, or the error of `rest`.
pub open spec fn prepend(
    parts: Seq<PlaceholderModel>,
    rest: Result<Seq<PlaceholderModel>, CommandError>,
) -> Result<Seq<PlaceholderModel>, CommandError> {
    match rest {
        Ok(more) => Ok(parts + more),
        Err(error) => Err(error),
    }
}

/// The parts of the template from `from` on: its segments in order, each
/// compiled. The first segment that cannot be read or compiled decides the
/// error.
pub open spec fn parse_from(text: Seq<char>, from: int) -> Result<
    Seq<PlaceholderModel>,
    CommandError,
>
    decreases text.len() - from,
    via parse_from_decreases
{
    if from < 0 || from >= text.len() {
        Ok(seq![])
    } else {
        match segment_at(text, from) {
            None => Err(CommandError::Syntax),
            Some((segment, next)) => match part_of(segment) {
                Err(error) => Err(error),
                Ok(part) => prepend(seq![part], parse_from(text, next)),
            },
        }
    }
}

#[via_fn]
proof fn parse_from_decreases(text: Seq<char>, from: int) {
    if 0 <= from < text.len() {
        lemma_segment_at(text, from);
    }
}

/// The parts that a template stands for.
pub open spec fn parse_template(text: Seq<char>) -> Result<Seq<PlaceholderModel>, CommandError> {
    parse_from(text, 0)
}

/// The parts that a list of placeholders stands for.
pub open spec fn parts_of(list: Seq<PlaceholderEnum>) -> Seq<PlaceholderModel> {
    Seq::new(list.len(), |i: int| list[i]@)
}

/// Whether every part is valid.
pub open spec fn all_valid(parts: Seq<PlaceholderModel>) -> bool {
    forall|i: int| 0 <= i < parts.len() ==> (#[trigger] parts[i]).valid()
}

/// The first index from `from` on at which `c` stands, or the length.
pub fn find_char(text: &Vec<char>, c: char, from: usize) -> (at: usize)
    requires
        from <= text.len(),
    ensures
        at == find(text@, c, from as int),
        from <= at <= text.len(),
{
    let mut at: usize = from;
    while at < text.len() && text[at] != c
        invariant
            from <= at <= text.len(),
            find(text@, c, from as int) == find(text@, c, at as int),
        decreases text.len() - at,
    {
        at += 1;
    }
    at
}

/// Reads a template.
pub fn parse_all(input: &str) -> (made: Result<Vec<PlaceholderEnum>, CommandError>)
    ensures
        match parse_template(input@) {
            Ok(parts) => made matches Ok(list) && parts_of(list@) == parts && all_valid(parts),
            Err(error) => made matches Err(e) && e == error,
        },
{
    let text = chars_of(input);
    let mut list: Vec<PlaceholderEnum> = Vec::new();
    let mut pos: usize = 0;
    proof {
        assert(parts_of(list@) =~= Seq::<PlaceholderModel>::empty());
        match parse_from(text@, 0) {
            Ok(more) => {
                assert(Seq::<PlaceholderModel>::empty() + more =~= more);
            },
            Err(_) => {},
        }
    }
    while pos < text.len()
        invariant
            pos <= text.len(),
            text@ == input@,
            parse_from(text@, 0) == prepend(parts_of(list@), parse_from(text@, pos as int)),
            all_valid(parts_of(list@)),
        decreases text.len() - pos,
    {
        let c = text[pos];
        let ghost done = parts_of(list@);
        proof {
            lemma_segment_at(text@, pos as int);
        }
        let next: usize;
        let part: PlaceholderEnum;
        if c == '{' {
            let end = find_char(&text, '}', pos + 1);
            if !(pos + 1 < end && end < text.len()) {
                return Err(CommandError::Syntax);
            }
            let body = slice_of(&text, pos + 1, end);
            match PlaceholderEnum::compile(&body) {
                Ok(placeholder) => {
                    part = placeholder;
                },
                Err(error) => {
                    return Err(error);
                },
            }
            next = end + 1;
        } else {
            let end = if c == '"' || c == '\'' {
                find_char(&text, c, pos + 1)
            } else {
                text.len()
            };
            if (c == '"' || c == '\'') && pos + 1 < end && end < text.len() {
                let value = slice_of(&text, pos + 1, end);
                part = PlaceholderEnum::String(PlaceholderString::new(string_of(&value)));
                next = end + 1;
            } else {
                let stop = find_char(&text, '{', pos);
                let value = slice_of(&text, pos, stop);
                part = PlaceholderEnum::String(PlaceholderString::new(string_of(&value)));
                next = stop;
            }
        }
        proof {
            match segment_at(text@, pos as int) {
                Some((segment, after)) => {
                    assert(after == next);
                    assert(part_of(segment) == Ok::<PlaceholderModel, CommandError>(part@));
                },
                None => {
                    assert(false);
                },
            }
            match parse_from(text@, next as int) {
                Ok(more) => {
                    assert(done + (seq![part@] + more) =~= done.push(part@) + more);
                },
                Err(_) => {},
            }
        }
        list.push(part);
        proof {
            assert(parts_of(list@) =~= done.push(part@));
        }
        pos = next;
    }
    proof {
        let parts = parts_of(list@);
        assert(parts + Seq::<PlaceholderModel>::empty() =~= parts);
    }
    Ok(list)
}

/// What `find` finds lies between `from` and the end, `c` stands there
/// unless it is the end, and `c` does not stand before it.
pub proof fn lemma_find(text: Seq<char>, c: char, from: int)
    requires
        0 <= from <= text.len(),
    ensures
        from <= find(text, c, from) <= text.len(),
        find(text, c, from) < text.len() ==> text[find(text, c, from)] == c,
        forall|i: int| from <= i < find(text, c, from) ==> text[i] != c,
    decreases text.len() - from,
{
    if from < text.len() && text[from] != c {
        lemma_find(text, c, from + 1);
    }
}

/// A segment ends after it begins, and within the text.
pub proof fn lemma_segment_at(text: Seq<char>, from: int)
    requires
        0 <= from < text.len(),
    ensures
        segment_at(text, from) matches Some((_, next)) ==> from < next <= text.len(),
{
    let c = text[from];
    lemma_find(text, '}', from + 1);
    lemma_find(text, '"', from + 1);
    lemma_find(text, '\'', from + 1);
    lemma_find(text, '{', from);
}

} // verus!
