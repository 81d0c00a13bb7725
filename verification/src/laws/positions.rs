use crate::location::range_of;
use crate::strings::decimal;
use crate::syntax::Span;
use crate::text::{
    byte_len, edited, index_of, last_line_width, law_every_offset_has_a_position,
    law_offsets_count_utf8_bytes, law_position_is_unique, lemma_prefix_grows, newlines, not_behind,
    offset_of, places, position_of, prefix_before, ChangeError, Position, Range,
};
use vstd::prelude::*;
use vstd::utf8::encode_utf8;

verus! {

/// The line of a place is the number of line feeds in front of it.
pub proof fn law_lines_are_ended_by_line_feeds(s: Seq<char>)
    ensures
        newlines(s) == s.filter(|c: char| c == '\n').len(),
    decreases s.len(),
{
    reveal(Seq::filter);
    if s.len() > 0 {
        law_lines_are_ended_by_line_feeds(s.drop_last());
    }
}

/// A column counts the UTF-16 code units since the start of the line: two for each character
/// beyond the basic plane, and one for each other character.
pub proof fn law_columns_count_utf16_units(s: Seq<char>, start: int)
    requires
        0 <= start <= s.len(),
        start == 0 || s[start - 1] == '\n',
        forall|j: int| start <= j < s.len() ==> s[j] != '\n',
    ensures
        last_line_width(s) == s.skip(start).fold_left(
            0int,
            |n: int, c: char|
                n + if c as u32 >= 0x10000 {
                    2int
                } else {
                    1int
                },
        ),
    decreases s.len(),
{
    let units = |n: int, c: char|
        n + if c as u32 >= 0x10000 {
            2int
        } else {
            1int
        };
    if start == s.len() {
        assert(s.skip(start) =~= Seq::empty());
    } else {
        assert(s.skip(start).drop_last() =~= s.drop_last().skip(start));
        assert(s.skip(start).last() == s.last());
        law_columns_count_utf16_units(s.drop_last(), start);
    }
}

/// A position lies in front of the character before which there are as many line feeds as it has
/// lines, and as many UTF-16 code units since the last of them as it has columns. No other
/// position lies there.
pub proof fn law_positions_count_lines_and_columns(
    text: Seq<char>,
    p: Position,
    start: int,
    i: int,
)
    requires
        0 <= start <= i <= text.len(),
        start == 0 || text[start - 1] == '\n',
        forall|j: int| start <= j < i ==> text[j] != '\n',
    ensures
        index_of(text, p) == Some(i) <==> {
            &&& p.line == text.take(i).filter(|c: char| c == '\n').len()
            &&& p.character == text.subrange(start, i).fold_left(
                0int,
                |n: int, c: char|
                    n + if c as u32 >= 0x10000 {
                        2int
                    } else {
                        1int
                    },
            )
        },
{
    law_lines_are_ended_by_line_feeds(text.take(i));
    law_columns_count_utf16_units(text.take(i), start);
    assert(text.take(i).skip(start) =~= text.subrange(start, i));
    if places(text, i, p) {
        law_position_is_unique(text, index_of(text, p)->0, i, p);
    }
    if index_of(text, p) == Some(i) {
        assert(places(text, i, p));
    }
}

/// A position lies in front of a character of the text or behind the last one, and its offset is
/// the number of UTF-8 bytes in front of it.
pub proof fn law_offset_counts_the_bytes_before(text: Seq<char>, p: Position)
    ensures
        match index_of(text, p) {
            Some(i) => 0 <= i <= text.len() && offset_of(text, p) == Some(
                encode_utf8(text.take(i)).len(),
            ),
            None => offset_of(text, p) is None,
        },
{
    if let Some(i) = index_of(text, p) {
        assert(places(text, i, p));
        law_offsets_count_utf8_bytes(text.take(i));
    }
}

/// The position of an offset lies in front of the first character that does not start before the
/// offset, or behind the text if there is none.
pub proof fn law_offset_is_rounded_up(text: Seq<char>, offset: nat, i: int)
    requires
        byte_len(text) <= u32::MAX,
        0 <= i <= text.len(),
        i == text.len() || encode_utf8(text.take(i)).len() >= offset,
        i == 0 || encode_utf8(text.take(i - 1)).len() < offset,
    ensures
        index_of(text, position_of(text, offset)) == Some(i),
{
    law_every_offset_has_a_position(text, offset);
    lemma_rounded_prefix(text, offset, i);
    law_offsets_count_utf8_bytes(text.take(i));
    let p = position_of(text, offset);
    let k = index_of(text, p)->0;
    assert(places(text, k, p));
    if k < i {
        lemma_prefix_grows(text, k, i);
    } else {
        lemma_prefix_grows(text, i, k);
    }
}

proof fn lemma_rounded_prefix(text: Seq<char>, offset: nat, i: int)
    requires
        0 <= i <= text.len(),
        i == text.len() || encode_utf8(text.take(i)).len() >= offset,
        i == 0 || encode_utf8(text.take(i - 1)).len() < offset,
    ensures
        prefix_before(text, offset) == text.take(i),
    decreases text.len(),
{
    law_offsets_count_utf8_bytes(text.take(i));
    if i > 0 {
        law_offsets_count_utf8_bytes(text.take(i - 1));
    }
    if i == text.len() {
        assert(text.take(i) =~= text);
        if i > 0 {
            assert(text.drop_last() =~= text.take(i - 1));
        }
    } else {
        let shorter = text.drop_last();
        assert(shorter =~= text.take(text.len() - 1));
        assert(shorter.take(i) =~= text.take(i));
        if i > 0 {
            assert(shorter.take(i - 1) =~= text.take(i - 1));
        }
        lemma_prefix_grows(text, i, text.len() - 1);
        lemma_rounded_prefix(shorter, offset, i);
    }
}

/// A span covers from the position of its start to the position of its end.
pub proof fn law_range_has_the_ends_of_the_span(text: Seq<char>, span: Span)
    ensures
        range_of(text, span).start == position_of(text, span.start as nat),
        range_of(text, span).end == position_of(text, span.end as nat),
        forall|offset: u32| span.covers(offset) <==> span.start <= offset && offset < span.end,
{
}

/// One position lies behind another if its line does, or on one line its column.
pub proof fn law_positions_are_ordered_by_line_and_column(p: Position, q: Position)
    ensures
        not_behind(p, q) && not_behind(q, p) <==> p == q,
        not_behind(p, q) || not_behind(q, p),
        p.line < q.line ==> not_behind(p, q) && !not_behind(q, p),
        p.line == q.line && p.character < q.character ==> not_behind(p, q) && !not_behind(q, p),
{
}

/// An edit keeps what lies in front of its start and what lies behind its end, and puts the
/// replacement between the two, even if the replacement or the stretch is empty.
pub proof fn law_edit_replaces_the_stretch(
    text: Seq<char>,
    range: Range,
    replacement: Seq<char>,
    i: int,
    j: int,
)
    requires
        index_of(text, range.start) == Some(i),
        index_of(text, range.end) == Some(j),
    ensures
        match edited(text, range, replacement) {
            Ok(now) => {
                &&& i <= j
                &&& now.len() == text.len() - (j - i) + replacement.len()
                &&& now.take(i) == text.take(i)
                &&& now.subrange(i, i + replacement.len()) == replacement
                &&& now.skip(i + replacement.len()) == text.skip(j)
            },
            Err(error) => i > j && error == ChangeError::StartAfterEnd,
        },
        i <= j ==> edited(text, range, replacement) == Ok::<Seq<char>, ChangeError>(
            text.take(i) + replacement + text.skip(j),
        ),
{
    assert(places(text, i, range.start) && places(text, j, range.end));
    if i <= j {
        let now = text.take(i) + replacement + text.skip(j);
        assert(now.take(i) =~= text.take(i));
        assert(now.subrange(i, i + replacement.len()) =~= replacement);
        assert(now.skip(i + replacement.len()) =~= text.skip(j));
    }
}

/// An edit whose start is no position of the text is refused for its start, and else one whose
/// end is none for its end.
pub proof fn law_edit_outside_the_text_is_refused(
    text: Seq<char>,
    range: Range,
    replacement: Seq<char>,
)
    ensures
        index_of(text, range.start) is None <==> edited(text, range, replacement) == Err::<
            Seq<char>,
            ChangeError,
        >(ChangeError::InvalidStart(range.start)),
        index_of(text, range.start) is Some && index_of(text, range.end) is None <==> edited(
            text,
            range,
            replacement,
        ) == Err::<Seq<char>, ChangeError>(ChangeError::InvalidEnd(range.end)),
{
}

/// The words of an error name the position that is none.
pub proof fn law_errors_name_their_position(p: Position)
    ensures
        ChangeError::InvalidStart(p).spec_message() == "invalid start position: "@
            + "Position { line: "@ + decimal(p.line as nat) + ", character: "@ + decimal(
            p.character as nat,
        ) + " }"@,
        ChangeError::InvalidEnd(p).spec_message() == "invalid end position: "@
            + "Position { line: "@ + decimal(p.line as nat) + ", character: "@ + decimal(
            p.character as nat,
        ) + " }"@,
        ChangeError::StartAfterEnd.spec_message() == "change start is after end"@,
{
    let place = "Position { line: "@ + decimal(p.line as nat) + ", character: "@ + decimal(
        p.character as nat,
    ) + " }"@;
    assert("invalid start position: "@ + place =~= "invalid start position: "@
        + "Position { line: "@ + decimal(p.line as nat) + ", character: "@ + decimal(
        p.character as nat,
    ) + " }"@);
    assert("invalid end position: "@ + place =~= "invalid end position: "@ + "Position { line: "@
        + decimal(p.line as nat) + ", character: "@ + decimal(p.character as nat) + " }"@);
}

} // verus!
