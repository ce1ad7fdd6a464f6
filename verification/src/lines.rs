//! The lines of a text.

use vstd::prelude::*;
use crate::text::{chars_of, first_index_of, lemma_first_index_of, push_range, string_of, texts};

verus! {

/// `line` without the carriage return that ends it, if one does.
pub open spec fn strip_carriage_return(line: Seq<char>) -> Seq<char> {
    if line.len() > 0 && line.last() == '\r' {
        line.drop_last()
    } else {
        line
    }
}

/// Whether a line is a comment or blank: it begins with `#`, or it holds
/// nothing but spaces, tabs and carriage returns.
pub open spec fn is_comment_or_blank(line: Seq<char>) -> bool {
    ||| line.len() > 0 && line[0] == '#'
    ||| forall|i: int|
        0 <= i < line.len() ==> #[trigger] line[i] == ' ' || line[i] == '\t' || line[i] == '\r'
}

/// The lines of `text`. A line ends at a line feed, or at a carriage return
/// followed by a line feed; neither belongs to the line. What stands behind
/// the last line feed is a line of its own unless it is empty, and is kept as
/// it is.
pub open spec fn lines_of(text: Seq<char>) -> Seq<Seq<char>>
    decreases text.len(),
    via lines_of_decreases
{
    if text.len() == 0 {
        Seq::empty()
    } else {
        match first_index_of(text, '\n') {
            Some(at) => seq![strip_carriage_return(text.take(at))] + lines_of(text.skip(at + 1)),
            None => seq![text],
        }
    }
}

#[via_fn]
proof fn lines_of_decreases(text: Seq<char>) {
    lemma_first_index_of(text, '\n');
}

/// A text is its first line, a line feed, and the text that gives the other
/// lines.
proof fn lemma_lines_at_line_feed(text: Seq<char>, at: int)
    requires
        0 <= at < text.len(),
        text[at] == '\n',
        forall|i: int| 0 <= i < at ==> text[i] != '\n',
    ensures
        lines_of(text) == seq![strip_carriage_return(text.take(at))] + lines_of(
            text.skip(at + 1),
        ),
{
    lemma_first_index_of(text, '\n');
}

/// A text without a line feed is one line, or none if it is empty.
proof fn lemma_lines_without_line_feed(text: Seq<char>)
    requires
        forall|i: int| 0 <= i < text.len() ==> text[i] != '\n',
    ensures
        lines_of(text) == if text.len() == 0 {
            Seq::<Seq<char>>::empty()
        } else {
            seq![text]
        },
{
    lemma_first_index_of(text, '\n');
}

/// The lines of `text`.
pub fn split_lines(text: &str) -> (lines: Vec<String>)
    ensures
        texts(lines@) == lines_of(text@),
{
    let chars = chars_of(text);
    let mut lines: Vec<String> = Vec::new();
    let mut start: usize = 0;
    let mut i: usize = 0;
    assert(chars@.skip(0) =~= chars@);
    while i < chars.len()
        invariant
            start <= i <= chars.len(),
            chars@ == text@,
            lines_of(text@) == texts(lines@) + lines_of(chars@.skip(start as int)),
            forall|j: int| start <= j < i ==> chars@[j] != '\n',
        decreases chars.len() - i,
    {
        if chars[i] == '\n' {
            let end = if i > start && chars[i - 1] == '\r' {
                i - 1
            } else {
                i
            };
            let mut line: Vec<char> = Vec::new();
            push_range(&mut line, &chars, start, end);
            let line = string_of(&line);
            proof {
                let rest = chars@.skip(start as int);
                lemma_lines_at_line_feed(rest, i - start);
                assert(rest.take(i - start) =~= chars@.subrange(start as int, i as int));
                assert(rest.skip(i - start + 1) =~= chars@.skip(i + 1));
                assert(line@ =~= strip_carriage_return(chars@.subrange(start as int, i as int)));
            }
            lines.push(line);
            start = i + 1;
        }
        i += 1;
    }
    proof {
        lemma_lines_without_line_feed(chars@.skip(start as int));
    }
    if start < chars.len() {
        let mut line: Vec<char> = Vec::new();
        push_range(&mut line, &chars, start, chars.len());
        lines.push(string_of(&line));
    }
    lines
}

} // verus!
