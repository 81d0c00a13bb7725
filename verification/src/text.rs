use crate::strings::{append_decimal, decimal};
use vstd::prelude::*;

verus! {

/// A zero-based place in a document: a line, and a column counted in UTF-16 code units.
#[derive(Clone, Copy, Debug, PartialEq, Eq, Structural)]
pub struct Position {
    pub line: u32,
    pub character: u32,
}

/// A stretch of a document, from `start` up to but without `end`.
#[derive(Clone, Copy, Debug, PartialEq, Eq, Structural)]
pub struct Range {
    pub start: Position,
    pub end: Position,
}

/// Why an edit could not be applied.
#[derive(Clone, Copy, Debug, PartialEq, Eq, Structural)]
pub enum ChangeError {
    /// The start is not a position of the text.
    InvalidStart(Position),
    /// The start is a position of the text and the end is not.
    InvalidEnd(Position),
    /// Both are positions of the text, and the end comes first.
    StartAfterEnd,
}

impl Position {
    /// The position spelled out with the names of its parts.
    pub open spec fn spelled_out(self) -> Seq<char> {
        "Position { line: "@ + decimal(self.line as nat) + ", character: "@ + decimal(
            self.character as nat,
        ) + " }"@
    }

    /// Writes the position behind `out`.
    fn append_to(self, out: &mut String)
        ensures
            final(out)@ == old(out)@ + self.spelled_out(),
    {
        out.append("Position { line: ");
        append_decimal(out, self.line);
        out.append(", character: ");
        append_decimal(out, self.character);
        out.append(" }");
        assert(out@ =~= old(out)@ + self.spelled_out());
    }
}

impl ChangeError {
    /// What [`ChangeError::message`] says.
    pub open spec fn spec_message(self) -> Seq<char> {
        match self {
            ChangeError::InvalidStart(p) => "invalid start position: "@ + p.spelled_out(),
            ChangeError::InvalidEnd(p) => "invalid end position: "@ + p.spelled_out(),
            ChangeError::StartAfterEnd => "change start is after end"@,
        }
    }

    /// The error in words.
    pub fn message(self) -> (message: String)
        ensures
            message@ == self.spec_message(),
    {
        match self {
            ChangeError::InvalidStart(p) => {
                let mut message = "invalid start position: ".to_owned();
                p.append_to(&mut message);
                message
            },
            ChangeError::InvalidEnd(p) => {
                let mut message = "invalid end position: ".to_owned();
                p.append_to(&mut message);
                message
            },
            ChangeError::StartAfterEnd => "change start is after end".to_owned(),
        }
    }
}

/// The number of bytes that UTF-8 spends on a character.
pub open spec fn utf8_width(c: char) -> nat {
    if (c as u32) < 0x80 {
        1
    } else if (c as u32) < 0x800 {
        2
    } else if (c as u32) < 0x10000 {
        3
    } else {
        4
    }
}

/// The number of code units that UTF-16 spends on a character.
pub open spec fn utf16_width(c: char) -> nat {
    if (c as u32) < 0x10000 {
        1
    } else {
        2
    }
}

/// The number of bytes that UTF-8 spends on a text.
pub open spec fn byte_len(s: Seq<char>) -> nat
    decreases s.len(),
{
    if s.len() == 0 {
        0
    } else {
        byte_len(s.drop_last()) + utf8_width(s.last())
    }
}

/// The number of line feeds in a text.
pub open spec fn newlines(s: Seq<char>) -> nat
    decreases s.len(),
{
    if s.len() == 0 {
        0
    } else {
        newlines(s.drop_last()) + if s.last() == '\n' {
            1nat
        } else {
            0
        }
    }
}

/// The number of UTF-16 code units after the last line feed of a text.
pub open spec fn last_line_width(s: Seq<char>) -> nat
    decreases s.len(),
{
    if s.len() == 0 || s.last() == '\n' {
        0
    } else {
        last_line_width(s.drop_last()) + utf16_width(s.last())
    }
}

/// Whether `p` is the place that is reached after reading `s`.
pub open spec fn ends_at(s: Seq<char>, p: Position) -> bool {
    &&& p.line == newlines(s)
    &&& p.character == last_line_width(s)
}

/// Whether `p` is the place in front of the `i`-th character of `text`, or behind the last one.
pub open spec fn places(text: Seq<char>, i: int, p: Position) -> bool {
    0 <= i <= text.len() && ends_at(text.take(i), p)
}

/// The index of the character in front of which `p` lies; `None` where `p` lies behind the
/// end of its line, behind the end of the text or inside a surrogate pair.
pub open spec fn index_of(text: Seq<char>, p: Position) -> Option<int> {
    if exists|i: int| places(text, i, p) {
        Some(choose|i: int| places(text, i, p))
    } else {
        None
    }
}

/// The byte offset of `p` in `text`.
pub open spec fn offset_of(text: Seq<char>, p: Position) -> Option<nat> {
    match index_of(text, p) {
        Some(i) => Some(byte_len(text.take(i))),
        None => None,
    }
}

/// The longest prefix of `text` all of whose characters start before byte `offset`.
pub open spec fn prefix_before(text: Seq<char>, offset: nat) -> Seq<char>
    decreases text.len(),
{
    if text.len() == 0 || byte_len(text.drop_last()) < offset {
        text
    } else {
        prefix_before(text.drop_last(), offset)
    }
}

/// The place of a byte offset in `text`.
pub open spec fn position_of(text: Seq<char>, offset: nat) -> Position {
    let prefix = prefix_before(text, offset);
    Position { line: newlines(prefix) as u32, character: last_line_width(prefix) as u32 }
}

/// The text after the stretch `range` of it is replaced.
pub open spec fn edited(text: Seq<char>, range: Range, replacement: Seq<char>) -> Result<
    Seq<char>,
    ChangeError,
> {
    match (index_of(text, range.start), index_of(text, range.end)) {
        (None, _) => Err(ChangeError::InvalidStart(range.start)),
        (Some(_), None) => Err(ChangeError::InvalidEnd(range.end)),
        (Some(i), Some(j)) => if i > j {
            Err(ChangeError::StartAfterEnd)
        } else {
            Ok(text.take(i) + replacement + text.skip(j))
        },
    }
}

/// Taking one more character of a text.
pub proof fn lemma_take_step(s: Seq<char>, i: int)
    requires
        0 <= i < s.len(),
    ensures
        s.take(i + 1).drop_last() == s.take(i),
        s.take(i + 1).last() == s[i],
        byte_len(s.take(i + 1)) == byte_len(s.take(i)) + utf8_width(s[i]),
        newlines(s.take(i + 1)) == newlines(s.take(i)) + if s[i] == '\n' {
            1nat
        } else {
            0
        },
        last_line_width(s.take(i + 1)) == if s[i] == '\n' {
            0
        } else {
            last_line_width(s.take(i)) + utf16_width(s[i])
        },
{
    assert(s.take(i + 1).drop_last() =~= s.take(i));
}

/// A longer prefix has more bytes, and no fewer line feeds.
pub proof fn lemma_prefix_grows(s: Seq<char>, i: int, j: int)
    requires
        0 <= i <= j <= s.len(),
    ensures
        byte_len(s.take(i)) + (j - i) <= byte_len(s.take(j)),
        newlines(s.take(i)) <= newlines(s.take(j)),
        newlines(s.take(i)) == newlines(s.take(j)) ==> last_line_width(s.take(i)) + (j - i)
            <= last_line_width(s.take(j)),
    decreases j - i,
{
    if i < j {
        lemma_prefix_grows(s, i, j - 1);
        lemma_take_step(s, j - 1);
    }
}

/// No part of a position outgrows the byte length of the text before it.
pub proof fn lemma_position_bounds(s: Seq<char>)
    ensures
        s.len() <= byte_len(s),
        newlines(s) <= s.len(),
        last_line_width(s) <= byte_len(s),
    decreases s.len(),
{
    if s.len() > 0 {
        lemma_position_bounds(s.drop_last());
    }
}

/// Distinct characters of a text have distinct positions.
pub proof fn law_position_is_unique(text: Seq<char>, i: int, j: int, p: Position)
    requires
        places(text, i, p),
        places(text, j, p),
    ensures
        i == j,
{
    if i < j {
        lemma_prefix_grows(text, i, j);
    } else if j < i {
        lemma_prefix_grows(text, j, i);
    }
}

/// Converting a position to an offset and back gives the position again.
pub proof fn law_position_round_trip(text: Seq<char>, p: Position)
    requires
        offset_of(text, p) is Some,
    ensures
        ends_at(prefix_before(text, offset_of(text, p)->0), p),
{
    let i = index_of(text, p)->0;
    assert(places(text, i, p));
    if i > 0 {
        lemma_prefix_grows(text, i - 1, i);
    }
    lemma_prefix_before(text, byte_len(text.take(i)), i);
}

/// Converting the offset of a character to a position and back gives the offset again.
pub proof fn law_offset_round_trip(text: Seq<char>, i: int, p: Position)
    requires
        0 <= i <= text.len(),
        ends_at(prefix_before(text, byte_len(text.take(i))), p),
    ensures
        offset_of(text, p) == Some(byte_len(text.take(i))),
{
    if i > 0 {
        lemma_prefix_grows(text, i - 1, i);
    }
    lemma_prefix_before(text, byte_len(text.take(i)), i);
    assert(places(text, i, p));
    law_position_is_unique(text, index_of(text, p)->0, i, p);
}

/// A later position has a later offset, and the other way round.
pub proof fn law_offsets_follow_positions(text: Seq<char>, p: Position, q: Position)
    requires
        offset_of(text, p) is Some,
        offset_of(text, q) is Some,
    ensures
        offset_of(text, p)->0 < offset_of(text, q)->0 <==> (p.line < q.line || (p.line == q.line
            && p.character < q.character)),
{
    let i = index_of(text, p)->0;
    let j = index_of(text, q)->0;
    assert(places(text, i, p) && places(text, j, q));
    if i <= j {
        lemma_prefix_grows(text, i, j);
    } else {
        lemma_prefix_grows(text, j, i);
    }
}

/// Whether `p` does not lie behind `q`.
pub open spec fn not_behind(p: Position, q: Position) -> bool {
    p.line < q.line || (p.line == q.line && p.character <= q.character)
}

proof fn lemma_prefix_before_is_prefix(text: Seq<char>, offset: nat)
    ensures
        prefix_before(text, offset).len() <= text.len(),
        prefix_before(text, offset) == text.take(prefix_before(text, offset).len() as int),
    decreases text.len(),
{
    let prefix = prefix_before(text, offset);
    if text.len() == 0 || byte_len(text.drop_last()) < offset {
        assert(text.take(text.len() as int) =~= text);
    } else {
        lemma_prefix_before_is_prefix(text.drop_last(), offset);
        assert(text.take(prefix.len() as int) =~= text.drop_last().take(prefix.len() as int));
    }
}

proof fn lemma_prefix_before_grows(text: Seq<char>, low: nat, high: nat)
    requires
        low <= high,
    ensures
        prefix_before(text, low).len() <= prefix_before(text, high).len(),
    decreases text.len(),
{
    if text.len() == 0 || byte_len(text.drop_last()) < high {
        lemma_prefix_before_is_prefix(text, low);
    } else {
        lemma_prefix_before_grows(text.drop_last(), low, high);
    }
}

/// An offset that does not lie behind another has a position that does not lie behind the
/// position of the other.
pub proof fn law_positions_follow_offsets(text: Seq<char>, low: nat, high: nat)
    requires
        byte_len(text) <= u32::MAX,
        low <= high,
    ensures
        not_behind(position_of(text, low), position_of(text, high)),
{
    let first = prefix_before(text, low);
    let second = prefix_before(text, high);
    lemma_prefix_before_is_prefix(text, low);
    lemma_prefix_before_is_prefix(text, high);
    lemma_prefix_before_grows(text, low, high);
    lemma_prefix_grows(text, first.len() as int, second.len() as int);
    lemma_prefix_grows(text, second.len() as int, text.len() as int);
    assert(text.take(text.len() as int) =~= text);
    lemma_position_bounds(first);
    lemma_position_bounds(second);
}

/// The position of an offset is a position of the text, whatever the offset.
pub proof fn law_every_offset_has_a_position(text: Seq<char>, offset: nat)
    requires
        byte_len(text) <= u32::MAX,
    ensures
        offset_of(text, position_of(text, offset)) == Some(byte_len(prefix_before(text, offset))),
{
    let prefix = prefix_before(text, offset);
    let p = position_of(text, offset);
    lemma_prefix_before_is_prefix(text, offset);
    lemma_prefix_grows(text, prefix.len() as int, text.len() as int);
    assert(text.take(text.len() as int) =~= text);
    lemma_position_bounds(prefix);
    assert(places(text, prefix.len() as int, p));
    law_position_is_unique(text, index_of(text, p)->0, prefix.len() as int, p);
}

/// Offsets count the bytes of the UTF-8 encoding.
pub proof fn law_offsets_count_utf8_bytes(s: Seq<char>)
    ensures
        byte_len(s) == vstd::utf8::encode_utf8(s).len(),
    decreases s.len(),
{
    if s.len() > 0 {
        let c = s[0];
        let rest = s.drop_first();
        law_offsets_count_utf8_bytes(rest);
        lemma_byte_len_first(s);
        vstd::utf8::char_is_scalar(c);
        vstd::utf8::char_u32_cast(c, c as u32);
        assert(vstd::utf8::encode_scalar(c as u32).len() == utf8_width(c));
    }
}

proof fn lemma_byte_len_first(s: Seq<char>)
    requires
        s.len() > 0,
    ensures
        byte_len(s) == utf8_width(s[0]) + byte_len(s.drop_first()),
    decreases s.len(),
{
    if s.len() > 1 {
        lemma_byte_len_first(s.drop_last());
        assert(s.drop_last().drop_first() =~= s.drop_first().drop_last());
    } else {
        assert(s.drop_last() =~= Seq::<char>::empty());
        assert(s.drop_first() =~= Seq::<char>::empty());
    }
}

/// Replacing a stretch by what it already holds changes nothing.
pub proof fn law_edit_to_the_same_text(text: Seq<char>, range: Range)
    requires
        index_of(text, range.start) is Some,
        index_of(text, range.end) is Some,
        index_of(text, range.start)->0 <= index_of(text, range.end)->0,
    ensures
        edited(
            text,
            range,
            text.subrange(index_of(text, range.start)->0, index_of(text, range.end)->0),
        ) == Ok::<Seq<char>, ChangeError>(text),
{
    let i = index_of(text, range.start)->0;
    let j = index_of(text, range.end)->0;
    assert(places(text, i, range.start) && places(text, j, range.end));
    assert(text.take(i) + text.subrange(i, j) + text.skip(j) =~= text);
}

/// An edit is undone by putting the replaced text back in place of the replacement, which
/// lies between the start of the edit and the position behind the replacement.
pub proof fn law_edit_can_be_undone(
    text: Seq<char>,
    range: Range,
    replacement: Seq<char>,
    behind: Position,
)
    requires
        edited(text, range, replacement) is Ok,
        places(
            edited(text, range, replacement)->Ok_0,
            index_of(text, range.start)->0 + replacement.len(),
            behind,
        ),
    ensures
        edited(
            edited(text, range, replacement)->Ok_0,
            Range { start: range.start, end: behind },
            text.subrange(index_of(text, range.start)->0, index_of(text, range.end)->0),
        ) == Ok::<Seq<char>, ChangeError>(text),
{
    let i = index_of(text, range.start)->0;
    let j = index_of(text, range.end)->0;
    assert(places(text, i, range.start) && places(text, j, range.end));
    let new_text = edited(text, range, replacement)->Ok_0;
    assert(new_text.take(i) =~= text.take(i));
    assert(places(new_text, i, range.start));
    law_position_is_unique(new_text, index_of(new_text, range.start)->0, i, range.start);
    let k = i + replacement.len();
    law_position_is_unique(new_text, index_of(new_text, behind)->0, k, behind);
    assert(new_text.skip(k) =~= text.skip(j));
    assert(text.take(i) + text.subrange(i, j) + text.skip(j) =~= text);
}

/// The prefix before an offset ends where the offset is first reached.
proof fn lemma_prefix_before(text: Seq<char>, offset: nat, i: int)
    requires
        0 <= i <= text.len(),
        offset <= byte_len(text.take(i)) || i == text.len(),
        i > 0 ==> byte_len(text.take(i - 1)) < offset,
    ensures
        prefix_before(text, offset) == text.take(i),
    decreases text.len(),
{
    if i == text.len() {
        assert(text.take(i) =~= text);
        if i > 0 {
            assert(text.drop_last() =~= text.take(i - 1));
        }
    } else {
        let shorter = text.drop_last();
        assert(shorter =~= text.take(text.len() - 1));
        assert(shorter.take(i) =~= text.take(i));
        if i > 0 {
            assert(shorter.take(i - 1) =~= text.take(i - 1));
        }
        lemma_prefix_grows(text, i, text.len() - 1);
        lemma_prefix_before(shorter, offset, i);
    }
}

fn utf8_width_of(c: char) -> (n: u32)
    ensures
        n == utf8_width(c),
{
    let code: u32 = c as u32;
    if code < 0x80 {
        1
    } else if code < 0x800 {
        2
    } else if code < 0x10000 {
        3
    } else {
        4
    }
}

fn utf16_width_of(c: char) -> (n: u32)
    ensures
        n == utf16_width(c),
{
    if (c as u32) < 0x10000 {
        1
    } else {
        2
    }
}

/// Finds the character in front of which `position` lies, with its index and its byte offset.
fn find_position(text: &str, position: Position) -> (found: Option<(usize, u32)>)
    requires
        byte_len(text@) <= u32::MAX,
    ensures
        match found {
            Some((i, offset)) => {
                &&& index_of(text@, position) == Some(i as int)
                &&& i <= text@.len()
                &&& offset == byte_len(text@.take(i as int))
            },
            None => index_of(text@, position) is None,
        },
{
    let mut line: u32 = 0;
    let mut column: u32 = 0;
    let mut offset: u32 = 0;
    let mut index: usize = 0;
    proof {
        lemma_position_bounds(text@);
        assert(text@.take(0) =~= Seq::<char>::empty());
    }
    for ch in it: text.chars()
        invariant
            it.seq() == text@,
            index == it.index(),
            byte_len(text@) <= u32::MAX,
            text@.len() <= u32::MAX,
            offset == byte_len(text@.take(index as int)),
            line == newlines(text@.take(index as int)),
            column == last_line_width(text@.take(index as int)),
            forall|i: int| 0 <= i < index ==> !places(text@, i, position),
    {
        if line == position.line && column == position.character {
            proof {
                assert(places(text@, index as int, position));
                let i = choose|i: int| places(text@, i, position);
                law_position_is_unique(text@, i, index as int, position);
            }
            return Some((index, offset));
        }
        proof {
            lemma_take_step(text@, index as int);
            lemma_prefix_grows(text@, index + 1, text@.len() as int);
            assert(text@.take(text@.len() as int) =~= text@);
            lemma_position_bounds(text@.take(index + 1));
        }
        if ch == '\n' {
            line = line + 1;
            column = 0;
        } else {
            column = column + utf16_width_of(ch);
        }
        offset = offset + utf8_width_of(ch);
        index = index + 1;
        if line > position.line || (line == position.line && column > position.character) {
            proof {
                assert forall|i: int| !places(text@, i, position) by {
                    if places(text@, i, position) && i >= index {
                        lemma_prefix_grows(text@, index as int, i);
                    }
                }
            }
            return None;
        }
    }
    if line == position.line && column == position.character {
        proof {
            assert(places(text@, index as int, position));
            let i = choose|i: int| places(text@, i, position);
            law_position_is_unique(text@, i, index as int, position);
        }
        Some((index, offset))
    } else {
        None
    }
}

/// Converts a position to a byte offset.
pub fn lsp_position_to_offset(text: &str, position: Position) -> (offset: Option<u32>)
    requires
        byte_len(text@) <= u32::MAX,
    ensures
        match offset {
            Some(o) => offset_of(text@, position) == Some(o as nat),
            None => offset_of(text@, position) is None,
        },
{
    match find_position(text, position) {
        Some((_, offset)) => Some(offset),
        None => None,
    }
}

/// Converts a byte offset to a position. An offset inside a character counts as the end of
/// that character, and one behind the text as the end of the text.
pub fn offset_to_lsp_position(text: &str, offset: usize) -> (position: Position)
    requires
        byte_len(text@) <= u32::MAX,
    ensures
        ends_at(prefix_before(text@, offset as nat), position),
        position == position_of(text@, offset as nat),
{
    let mut line: u32 = 0;
    let mut column: u32 = 0;
    let mut at: u32 = 0;
    let mut index: usize = 0;
    proof {
        lemma_position_bounds(text@);
        assert(text@.take(0) =~= Seq::<char>::empty());
    }
    for ch in it: text.chars()
        invariant
            it.seq() == text@,
            index == it.index(),
            byte_len(text@) <= u32::MAX,
            text@.len() <= u32::MAX,
            at == byte_len(text@.take(index as int)),
            line == newlines(text@.take(index as int)),
            column == last_line_width(text@.take(index as int)),
            index > 0 ==> byte_len(text@.take(index - 1)) < offset,
    {
        if at as usize >= offset {
            proof {
                lemma_prefix_before(text@, offset as nat, index as int);
            }
            return Position { line, character: column };
        }
        proof {
            lemma_take_step(text@, index as int);
            lemma_prefix_grows(text@, index + 1, text@.len() as int);
            assert(text@.take(text@.len() as int) =~= text@);
            lemma_position_bounds(text@.take(index + 1));
        }
        if ch == '\n' {
            line = line + 1;
            column = 0;
        } else {
            column = column + utf16_width_of(ch);
        }
        at = at + utf8_width_of(ch);
        index = index + 1;
    }
    proof {
        assert(text@.take(text@.len() as int) =~= text@);
        if text@.len() > 0 {
            assert(text@.drop_last() =~= text@.take(text@.len() - 1));
        }
    }
    Position { line, character: column }
}

/// Replaces the stretch `range` of `text`. On an error the text stays as it is.
pub fn apply_incremental_change(text: &mut String, range: Range, replacement: &str) -> (done:
    Result<(), ChangeError>)
    requires
        byte_len(old(text)@) <= u32::MAX,
    ensures
        match edited(old(text)@, range, replacement@) {
            Ok(new_text) => done is Ok && final(text)@ == new_text,
            Err(error) => done == Err::<(), ChangeError>(error) && final(text)@ == old(text)@,
        },
{
    let (start, _) = match find_position(text.as_str(), range.start) {
        Some(found) => found,
        None => return Err(ChangeError::InvalidStart(range.start)),
    };
    let (end, _) = match find_position(text.as_str(), range.end) {
        Some(found) => found,
        None => return Err(ChangeError::InvalidEnd(range.end)),
    };
    if start > end {
        return Err(ChangeError::StartAfterEnd);
    }
    let len: usize = text.as_str().unicode_len();
    let mut changed = text.as_str().substring_char(0, start).to_owned();
    changed.append(replacement);
    changed.append(text.as_str().substring_char(end, len));
    proof {
        assert(text@.subrange(0, start as int) =~= text@.take(start as int));
        assert(text@.subrange(end as int, len as int) =~= text@.skip(end as int));
    }
    *text = changed;
    Ok(())
}

} // verus!
