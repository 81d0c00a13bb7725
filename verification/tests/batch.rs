use python_ls::batch::{count_lines, BatchReport};
use python_ls::parser::SyntaxError;

fn error(offset: usize) -> SyntaxError {
    SyntaxError { offset, error: String::from("odd"), message: String::from("odd at byte offset 9") }
}

#[test]
fn lines_are_counted() {
    assert_eq!(count_lines(""), 0);
    assert_eq!(count_lines("a"), 1);
    assert_eq!(count_lines("a\n"), 1);
    assert_eq!(count_lines("\n"), 1);
    assert_eq!(count_lines("a\nb"), 2);
    assert_eq!(count_lines("a\r\n\r\n"), 2);
    for text in ["", "a", "a\n", "\n", "a\nb", "a\r\n\r\n", "\r", "x\n\ny\n"] {
        assert_eq!(count_lines(text), text.lines().count());
    }
}

#[test]
fn error_is_told_with_its_line() {
    let mut report = BatchReport::new();
    report.add_parsed(String::from("a.py"), "x\ny\nz z\n", Err(error(7)));
    assert_eq!(report.failed, 1);
    assert_eq!(report.passed, 0);
    assert_eq!(report.diagnostic_err, 1);
    assert_eq!(report.total_lines_parsed, 3);
    assert_eq!(report.err_in_files.len(), 1);
    assert_eq!(report.err_in_files[0].path, "a.py");
    assert_eq!(report.err_in_files[0].text, "odd at byte offset 9");
    assert_eq!(report.err_in_files[0].line, 3);
    assert_eq!(report.err_in_files[0].column, 4);
}

#[test]
fn error_is_told_with_its_utf16_column() {
    let mut report = BatchReport::new();
    report.add_parsed(String::from("a.py"), "\u{1F600}\u{e9} x", Err(error(7)));
    assert_eq!(report.err_in_files[0].line, 1);
    assert_eq!(report.err_in_files[0].column, 5);
}

#[test]
fn module_passes() {
    let mut report = BatchReport::new();
    report.add_parsed(String::from("a.py"), "x\n", Ok(vec![]));
    assert_eq!(report.passed, 1);
    assert_eq!(report.failed, 0);
    assert_eq!(report.total_lines_parsed, 1);
    assert!(report.err_in_files.is_empty());
}

#[test]
fn files_of_a_batch_are_counted() {
    let mut report = BatchReport::new();
    report.add_file(String::from("good.py"), Some(String::from("x = 1\ny = 2\n")));
    report.add_file(String::from("gone.py"), None);
    report.add_file(String::from("bad.py"), Some(String::from("x = 1\n\ndef (:\n")));
    report.add_file(String::from("empty.py"), Some(String::new()));
    assert_eq!(report.passed, 2);
    assert_eq!(report.failed, 2);
    assert_eq!(report.diagnostic_err, 1);
    assert_eq!(report.total_lines_parsed, 5);
    assert_eq!(report.err_in_files.len(), 1);
    assert_eq!(report.err_in_files[0].path, "bad.py");
    assert_eq!(report.err_in_files[0].line, 3);
    assert_eq!(report.err_in_files[0].column, 5);
    assert!(report.err_in_files[0].text.ends_with(" at byte offset 11"));
}
