use python_ls::text::{
    apply_incremental_change, lsp_position_to_offset, offset_to_lsp_position, ChangeError,
    Position, Range,
};

fn at(line: u32, character: u32) -> Position {
    Position { line, character }
}

fn range(start: Position, end: Position) -> Range {
    Range { start, end }
}

const MIXED: &str = "a\n\u{1F600}b\n";

#[test]
fn positions_count_utf16_units() {
    let expected = [
        (at(0, 0), Some(0)),
        (at(0, 1), Some(1)),
        (at(1, 0), Some(2)),
        (at(1, 2), Some(6)),
        (at(1, 3), Some(7)),
        (at(2, 0), Some(8)),
    ];
    for (position, offset) in expected {
        assert_eq!(lsp_position_to_offset(MIXED, position), offset);
    }
}

#[test]
fn positions_outside_the_text_have_no_offset() {
    for position in [at(0, 2), at(1, 4), at(2, 1), at(3, 0)] {
        assert_eq!(lsp_position_to_offset(MIXED, position), None);
    }
}

#[test]
fn position_inside_a_surrogate_pair_has_no_offset() {
    assert_eq!(lsp_position_to_offset(MIXED, at(1, 1)), None);
}

#[test]
fn empty_text_has_one_position() {
    assert_eq!(lsp_position_to_offset("", at(0, 0)), Some(0));
    assert_eq!(lsp_position_to_offset("", at(0, 1)), None);
    assert_eq!(offset_to_lsp_position("", 5), at(0, 0));
}

#[test]
fn carriage_return_belongs_to_its_line() {
    assert_eq!(lsp_position_to_offset("a\r\nb", at(0, 2)), Some(2));
    assert_eq!(lsp_position_to_offset("a\r\nb", at(0, 3)), None);
    assert_eq!(lsp_position_to_offset("a\r\nb", at(1, 0)), Some(3));
    assert_eq!(offset_to_lsp_position("a\r\nb", 2), at(0, 2));
}

#[test]
fn offsets_have_positions() {
    let expected = [(0, at(0, 0)), (1, at(0, 1)), (2, at(1, 0)), (6, at(1, 2)), (7, at(1, 3)), (8, at(2, 0))];
    for (offset, position) in expected {
        assert_eq!(offset_to_lsp_position(MIXED, offset), position);
    }
}

#[test]
fn offset_inside_a_character_is_its_end() {
    for offset in 3..6 {
        assert_eq!(offset_to_lsp_position(MIXED, offset), at(1, 2));
    }
}

#[test]
fn offset_behind_the_text_is_its_end() {
    assert_eq!(offset_to_lsp_position(MIXED, 100), at(2, 0));
    assert_eq!(offset_to_lsp_position("abc", usize::MAX), at(0, 3));
}

#[test]
fn positions_and_offsets_are_inverse() {
    for text in [MIXED, "", "x", "\n\n", "\u{e4}\u{20ac}\u{10348}\nz"] {
        for (offset, _) in text.char_indices() {
            let position = offset_to_lsp_position(text, offset);
            assert_eq!(lsp_position_to_offset(text, position), Some(offset as u32));
        }
    }
}

#[test]
fn every_offset_has_a_position_of_the_text() {
    for offset in 0..12 {
        let position = offset_to_lsp_position(MIXED, offset);
        assert!(lsp_position_to_offset(MIXED, position).is_some());
    }
}

#[test]
fn later_offsets_have_later_positions() {
    let mut last = (0, 0);
    for offset in 0..12 {
        let position = offset_to_lsp_position(MIXED, offset);
        assert!(last <= (position.line, position.character));
        last = (position.line, position.character);
    }
}

#[test]
fn change_replaces_a_stretch() {
    let mut text = String::from("hello world");
    assert_eq!(apply_incremental_change(&mut text, range(at(0, 6), at(0, 11)), "there"), Ok(()));
    assert_eq!(text, "hello there");
}

#[test]
fn change_can_span_lines() {
    let mut text = String::from("one\ntwo\nthree\n");
    assert_eq!(apply_incremental_change(&mut text, range(at(0, 2), at(2, 1)), "\u{e9}\n"), Ok(()));
    assert_eq!(text, "on\u{e9}\nhree\n");
}

#[test]
fn empty_change_inserts() {
    let mut text = String::from(MIXED);
    assert_eq!(apply_incremental_change(&mut text, range(at(1, 2), at(1, 2)), "!"), Ok(()));
    assert_eq!(text, "a\n\u{1F600}!b\n");
}

#[test]
fn change_to_the_same_text_changes_nothing() {
    let mut text = String::from(MIXED);
    assert_eq!(apply_incremental_change(&mut text, range(at(0, 1), at(1, 2)), "\n\u{1F600}"), Ok(()));
    assert_eq!(text, MIXED);
}

#[test]
fn change_can_be_undone() {
    let mut text = String::from("one two three");
    assert_eq!(apply_incremental_change(&mut text, range(at(0, 4), at(0, 7)), "2\n"), Ok(()));
    assert_eq!(text, "one 2\n three");
    assert_eq!(apply_incremental_change(&mut text, range(at(0, 4), at(1, 0)), "two"), Ok(()));
    assert_eq!(text, "one two three");
}

#[test]
fn invalid_start_is_refused() {
    let mut text = String::from("x = 1\n");
    let error = apply_incremental_change(&mut text, range(at(12, 345), at(0, 99)), "y").unwrap_err();
    assert_eq!(error, ChangeError::InvalidStart(at(12, 345)));
    assert_eq!(error.message(), "invalid start position: Position { line: 12, character: 345 }");
    assert_eq!(text, "x = 1\n");
}

#[test]
fn invalid_end_is_refused() {
    let mut text = String::from("x = 1\n");
    let error = apply_incremental_change(&mut text, range(at(0, 0), at(0, 6)), "y").unwrap_err();
    assert_eq!(error, ChangeError::InvalidEnd(at(0, 6)));
    assert_eq!(error.message(), "invalid end position: Position { line: 0, character: 6 }");
    assert_eq!(text, "x = 1\n");
}

#[test]
fn start_behind_end_is_refused() {
    let mut text = String::from("x = 1\n");
    let error = apply_incremental_change(&mut text, range(at(0, 3), at(0, 2)), "y").unwrap_err();
    assert_eq!(error, ChangeError::StartAfterEnd);
    assert_eq!(error.message(), "change start is after end");
    assert_eq!(text, "x = 1\n");
}
