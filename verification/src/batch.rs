use crate::binding::optional_text;
use crate::parser::{
    found_view, is_found, parse_module, parsed, SyntaxError, SyntaxProblem,
};
use crate::syntax::{Node, NodeView};
use crate::text::{
    byte_len, last_line_width, lemma_position_bounds, newlines, offset_to_lsp_position,
    position_of, prefix_before,
};
use vstd::prelude::*;

verus! {

/// An error in one file of a batch. Lines and columns are counted from one.
#[derive(Debug, PartialEq, Eq)]
pub struct ParseErrorDetail {
    pub path: String,
    pub text: String,
    pub line: u32,
    pub column: u32,
}

/// What a [`ParseErrorDetail`] says.
pub ghost struct ParseErrorDetailView {
    pub path: Seq<char>,
    pub text: Seq<char>,
    pub line: nat,
    pub column: nat,
}

impl View for ParseErrorDetail {
    type V = ParseErrorDetailView;

    open spec fn view(&self) -> ParseErrorDetailView {
        ParseErrorDetailView {
            path: self.path@,
            text: self.text@,
            line: self.line as nat,
            column: self.column as nat,
        }
    }
}

/// What parsing a batch of files brought.
#[derive(Debug, PartialEq, Eq)]
pub struct BatchReport {
    /// The files that hold modules.
    pub passed: usize,
    /// The files that could not be read or hold no module.
    pub failed: usize,
    /// The files that hold no module.
    pub diagnostic_err: usize,
    /// The lines of the files that could be read.
    pub total_lines_parsed: usize,
    /// The errors, file by file.
    pub err_in_files: Vec<ParseErrorDetail>,
}

/// What a [`BatchReport`] says.
pub ghost struct BatchReportView {
    pub passed: nat,
    pub failed: nat,
    pub diagnostic_err: nat,
    pub total_lines_parsed: nat,
    pub err_in_files: Seq<ParseErrorDetailView>,
}

impl View for BatchReport {
    type V = BatchReportView;

    open spec fn view(&self) -> BatchReportView {
        BatchReportView {
            passed: self.passed as nat,
            failed: self.failed as nat,
            diagnostic_err: self.diagnostic_err as nat,
            total_lines_parsed: self.total_lines_parsed as nat,
            err_in_files: self.err_in_files@.map_values(|detail: ParseErrorDetail| detail@),
        }
    }
}

/// The number of lines of a text. The last one may go without a line feed.
pub open spec fn line_count(text: Seq<char>) -> nat {
    newlines(text) + if text.len() > 0 && text.last() != '\n' {
        1nat
    } else {
        0
    }
}

/// What is told of an error in a file.
pub open spec fn error_detail(
    path: Seq<char>,
    text: Seq<char>,
    problem: SyntaxProblem,
) -> ParseErrorDetailView {
    let place = position_of(text, problem.offset);
    ParseErrorDetailView {
        path,
        text: problem.message,
        line: place.line as nat + 1,
        column: place.character as nat + 1,
    }
}

/// The report before the first file.
pub open spec fn empty_report() -> BatchReportView {
    BatchReportView {
        passed: 0,
        failed: 0,
        diagnostic_err: 0,
        total_lines_parsed: 0,
        err_in_files: Seq::empty(),
    }
}

/// The report after a file that could not be read.
pub open spec fn after_unreadable(report: BatchReportView) -> BatchReportView {
    BatchReportView { failed: report.failed + 1, ..report }
}

/// The report after a file that was parsed.
pub open spec fn after_parsed(
    report: BatchReportView,
    path: Seq<char>,
    text: Seq<char>,
    found: Result<Seq<NodeView>, SyntaxProblem>,
) -> BatchReportView {
    let lines = report.total_lines_parsed + line_count(text);
    match found {
        Ok(_) => BatchReportView {
            passed: report.passed + 1,
            total_lines_parsed: lines,
            ..report
        },
        Err(problem) => BatchReportView {
            failed: report.failed + 1,
            diagnostic_err: report.diagnostic_err + 1,
            total_lines_parsed: lines,
            err_in_files: report.err_in_files.push(error_detail(path, text, problem)),
            ..report
        },
    }
}

/// The report after a file, whose text is missing if it could not be read.
pub open spec fn after_file(
    report: BatchReportView,
    path: Seq<char>,
    text: Option<Seq<char>>,
) -> BatchReportView {
    match text {
        Some(text) => after_parsed(report, path, text, parsed(text, path)),
        None => after_unreadable(report),
    }
}

/// The report on a row of files.
pub open spec fn report_on(files: Seq<(Seq<char>, Option<Seq<char>>)>) -> BatchReportView
    decreases files.len(),
{
    if files.len() == 0 {
        empty_report()
    } else {
        after_file(report_on(files.drop_last()), files.last().0, files.last().1)
    }
}

/// Every file of a batch is counted once, and every file that was read and holds no module is
/// reported with its error.
pub proof fn law_every_file_is_counted(files: Seq<(Seq<char>, Option<Seq<char>>)>)
    ensures
        report_on(files).passed + report_on(files).failed == files.len(),
        report_on(files).err_in_files.len() == report_on(files).diagnostic_err,
        report_on(files).diagnostic_err <= report_on(files).failed,
    decreases files.len(),
{
    if files.len() > 0 {
        law_every_file_is_counted(files.drop_last());
    }
}

/// No part of the position of an offset outgrows the byte length of the text.
proof fn lemma_place_bounds(text: Seq<char>, offset: nat)
    ensures
        newlines(prefix_before(text, offset)) <= byte_len(text),
        last_line_width(prefix_before(text, offset)) <= byte_len(text),
    decreases text.len(),
{
    lemma_position_bounds(text);
    if text.len() > 0 && byte_len(text.drop_last()) >= offset {
        lemma_place_bounds(text.drop_last(), offset);
    }
}

/// Counts the lines of a text.
pub fn count_lines(text: &str) -> (count: usize)
    requires
        byte_len(text@) < usize::MAX,
    ensures
        count == line_count(text@),
{
    let mut count: usize = 0;
    let mut ended = true;
    let ghost mut n: int = 0;
    proof {
        lemma_position_bounds(text@);
        assert(text@.take(0) =~= Seq::empty());
    }
    for ch in it: text.chars()
        invariant
            it.seq() == text@,
            n == it.index(),
            text@.len() < usize::MAX,
            count == newlines(text@.take(n)),
            count <= n,
            ended == (n == 0 || text@[n - 1] == '\n'),
    {
        assert(text@.take(n + 1).drop_last() =~= text@.take(n));
        ended = ch == '\n';
        if ended {
            count = count + 1;
        }
        proof {
            n = n + 1;
        }
    }
    assert(text@.take(text@.len() as int) =~= text@);
    if ended {
        count
    } else {
        count + 1
    }
}

impl BatchReport {
    /// Whether the counts fit together.
    pub open spec fn wf(&self) -> bool {
        &&& self.diagnostic_err <= self.failed
        &&& self.err_in_files@.len() == self.diagnostic_err
    }

    /// The report before the first file.
    pub fn new() -> (report: BatchReport)
        ensures
            report@ == empty_report(),
            report.wf(),
    {
        let report = BatchReport {
            passed: 0,
            failed: 0,
            diagnostic_err: 0,
            total_lines_parsed: 0,
            err_in_files: Vec::new(),
        };
        assert(report@.err_in_files =~= Seq::empty());
        report
    }

    /// Adds a file that was parsed.
    pub fn add_parsed(
        &mut self,
        path: String,
        text: &str,
        found: Result<Vec<Node>, SyntaxError>,
    )
        requires
            old(self).wf(),
            byte_len(text@) < u32::MAX,
            old(self).passed < usize::MAX,
            old(self).failed < usize::MAX,
            old(self).total_lines_parsed + line_count(text@) <= usize::MAX,
        ensures
            final(self).wf(),
            final(self)@ == after_parsed(old(self)@, path@, text@, found_view(found)),
    {
        self.total_lines_parsed = self.total_lines_parsed + count_lines(text);
        match found {
            Ok(_) => {
                self.passed = self.passed + 1;
            },
            Err(error) => {
                self.failed = self.failed + 1;
                self.diagnostic_err = self.diagnostic_err + 1;
                proof {
                    lemma_place_bounds(text@, error.offset as nat);
                }
                let place = offset_to_lsp_position(text, error.offset);
                let detail = ParseErrorDetail {
                    path,
                    text: error.message,
                    line: place.line + 1,
                    column: place.character + 1,
                };
                let ghost before = self@.err_in_files;
                self.err_in_files.push(detail);
                assert(self@.err_in_files =~= before.push(detail@));
            },
        }
    }

    /// Parses a file and adds it. A file without a text could not be read.
    pub fn add_file(&mut self, path: String, text: Option<String>)
        requires
            old(self).wf(),
            old(self).passed < usize::MAX,
            old(self).failed < usize::MAX,
            match text {
                Some(text) => byte_len(text@) < u32::MAX && old(self).total_lines_parsed
                    + line_count(text@) <= usize::MAX,
                None => true,
            },
        ensures
            final(self).wf(),
            final(self)@ == after_file(
                old(self)@,
                path@,
                optional_text(text),
            ),
            text is Some ==> is_found(text->0@, path@, parsed(text->0@, path@)),
    {
        match text {
            Some(text) => {
                let found = parse_module(text.as_str(), path.as_str());
                self.add_parsed(path, text.as_str(), found);
            },
            None => {
                self.failed = self.failed + 1;
            },
        }
    }
}

} // verus!
