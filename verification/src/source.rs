use crate::parser::{
    found_view, is_found, parse_module, parsed, SyntaxError, SyntaxProblem,
};
use crate::syntax::{lemma_node_views, node_views, Node, NodeView};
use crate::text::{byte_len, offset_to_lsp_position, position_of, Range};
use std::sync::Arc;
use vstd::prelude::*;

verus! {

/// A text with the module that it holds.
#[derive(Debug, PartialEq, Eq)]
pub struct Source {
    pub text: String,
    pub module: Arc<Vec<Node>>,
}

/// What a [`Source`] says.
pub ghost struct SourceView {
    pub text: Seq<char>,
    pub module: Seq<NodeView>,
}

impl View for Source {
    type V = SourceView;

    open spec fn view(&self) -> SourceView {
        SourceView { text: self.text@, module: node_views(self.module@) }
    }
}

/// What an optional source says.
pub open spec fn optional_source(source: Option<Source>) -> Option<SourceView> {
    match source {
        Some(source) => Some(source@),
        None => None,
    }
}

/// How serious a finding is.
#[derive(Clone, Copy, Debug, PartialEq, Eq, Structural)]
pub enum DiagnosticSeverity {
    Error,
    Warning,
    Information,
    Hint,
}

/// A finding that is shown in a document.
#[derive(Debug, PartialEq, Eq)]
pub struct Diagnostic {
    pub range: Range,
    pub severity: DiagnosticSeverity,
    pub source: String,
    pub message: String,
}

/// What a [`Diagnostic`] says.
pub ghost struct DiagnosticView {
    pub range: Range,
    pub severity: DiagnosticSeverity,
    pub source: Seq<char>,
    pub message: Seq<char>,
}

impl View for Diagnostic {
    type V = DiagnosticView;

    open spec fn view(&self) -> DiagnosticView {
        DiagnosticView {
            range: self.range,
            severity: self.severity,
            source: self.source@,
            message: self.message@,
        }
    }
}

/// What each of a row of findings says.
pub open spec fn diagnostics_view(diagnostics: Seq<Diagnostic>) -> Seq<DiagnosticView> {
    diagnostics.map_values(|diagnostic: Diagnostic| diagnostic@)
}

/// An error that this server found.
pub open spec fn error_at(range: Range, message: Seq<char>) -> DiagnosticView {
    DiagnosticView { range, severity: DiagnosticSeverity::Error, source: "pylsp"@, message }
}

/// A document as it is kept: its text, and the module that it held when it was last parsed.
#[derive(Debug, PartialEq, Eq)]
pub struct Document {
    pub text: String,
    pub module: Option<Arc<Vec<Node>>>,
}

/// What a [`Document`] says.
pub ghost struct DocumentView {
    pub text: Seq<char>,
    pub module: Option<Seq<NodeView>>,
}

impl View for Document {
    type V = DocumentView;

    open spec fn view(&self) -> DocumentView {
        DocumentView {
            text: self.text@,
            module: match self.module {
                Some(module) => Some(node_views(module@)),
                None => None,
            },
        }
    }
}

/// What parsing a document brought: what is to be shown in it, and either the number of its
/// statements or the error in words.
#[derive(Debug, PartialEq, Eq)]
pub struct ParseReport {
    pub diagnostics: Vec<Diagnostic>,
    pub outcome: Result<usize, String>,
}

/// What a [`ParseReport`] says.
pub ghost struct ParseReportView {
    pub diagnostics: Seq<DiagnosticView>,
    pub outcome: Result<nat, Seq<char>>,
}

impl View for ParseReport {
    type V = ParseReportView;

    open spec fn view(&self) -> ParseReportView {
        ParseReportView {
            diagnostics: diagnostics_view(self.diagnostics@),
            outcome: match self.outcome {
                Ok(statements) => Ok(statements as nat),
                Err(message) => Err(message@),
            },
        }
    }
}

/// The document that a text and what the parser found in it make.
pub open spec fn document_of(
    text: Seq<char>,
    found: Result<Seq<NodeView>, SyntaxProblem>,
) -> DocumentView {
    DocumentView {
        text,
        module: match found {
            Ok(module) => Some(module),
            Err(_) => None,
        },
    }
}

/// The report on what the parser found in a text: nothing is shown in a module, and an error is
/// shown at its place.
pub open spec fn report_of(
    text: Seq<char>,
    found: Result<Seq<NodeView>, SyntaxProblem>,
) -> ParseReportView {
    match found {
        Ok(module) => ParseReportView { diagnostics: Seq::empty(), outcome: Ok(module.len()) },
        Err(problem) => {
            let place = position_of(text, problem.offset);
            ParseReportView {
                diagnostics: seq![
                    error_at(Range { start: place, end: place }, "Syntax Error: "@ + problem.error),
                ],
                outcome: Err(problem.message),
            }
        },
    }
}

/// Makes an error out of a place and a message.
pub fn create_diagnostic(range: Range, message: String) -> (diagnostic: Diagnostic)
    ensures
        diagnostic@ == error_at(range, message@),
{
    Diagnostic {
        range,
        severity: DiagnosticSeverity::Error,
        source: "pylsp".to_owned(),
        message,
    }
}

/// Makes a document and a report out of a text and what the parser found in it.
pub fn record(text: String, found: Result<Vec<Node>, SyntaxError>) -> (recorded: (
    Document,
    ParseReport,
))
    requires
        byte_len(text@) <= u32::MAX,
    ensures
        recorded.0@ == document_of(text@, found_view(found)),
        recorded.1@ == report_of(text@, found_view(found)),
{
    match found {
        Ok(module) => {
            proof {
                lemma_node_views(module@);
            }
            let report = ParseReport { diagnostics: Vec::new(), outcome: Ok(module.len()) };
            assert(report@.diagnostics =~= Seq::empty());
            (Document { text, module: Some(Arc::new(module)) }, report)
        },
        Err(error) => {
            let place = offset_to_lsp_position(text.as_str(), error.offset);
            let mut message = "Syntax Error: ".to_owned();
            message.append(error.error.as_str());
            let diagnostic = create_diagnostic(Range { start: place, end: place }, message);
            let mut diagnostics: Vec<Diagnostic> = Vec::new();
            diagnostics.push(diagnostic);
            assert(diagnostics_view(diagnostics@) =~= seq![diagnostic@]);
            let report = ParseReport { diagnostics, outcome: Err(error.message) };
            (Document { text, module: None }, report)
        },
    }
}

/// Parses a text into a document.
pub fn parse_document(text: String, uri: &str) -> (recorded: (Document, ParseReport))
    requires
        byte_len(text@) <= u32::MAX,
    ensures
        is_found(text@, uri@, parsed(text@, uri@)),
        recorded.0@ == document_of(text@, parsed(text@, uri@)),
        recorded.1@ == report_of(text@, parsed(text@, uri@)),
{
    let found = parse_module(text.as_str(), uri);
    record(text, found)
}

/// Takes a document for a source, which it is if it holds a module.
pub fn into_source(document: Document) -> (source: Option<Source>)
    ensures
        optional_source(source) == (match document@.module {
            Some(module) => Some(SourceView { text: document@.text, module }),
            None => None,
        }),
{
    match document.module {
        Some(module) => Some(Source { text: document.text, module }),
        None => None,
    }
}

} // verus!
