use python_ls::binding::ImportBinding;
use python_ls::imports::ImportStep;
use python_ls::location::Location;
use python_ls::modules::FilePath;
use python_ls::parser::SyntaxError;
use python_ls::references::ResolvedImport;
use python_ls::source::{create_diagnostic, record, DiagnosticSeverity, ParseReport};
use python_ls::text::{ChangeError, Position, Range};
use python_ls::workspace::{apply_changes, text_size, ChangeOutcome, TextChange, Workspace};

fn uri() -> String {
    String::from("file:///work/app/main.py")
}

fn lib() -> String {
    String::from("file:///work/app/lib.py")
}

fn at(line: u32, character: u32) -> Position {
    Position { line, character }
}

fn range(start: Position, end: Position) -> Range {
    Range { start, end }
}

fn located(uri: String, start: Position, end: Position) -> Location {
    Location { uri, range: range(start, end) }
}

fn edit(start: Position, end: Position, text: &str) -> TextChange {
    TextChange { range: Some(range(start, end)), text: String::from(text) }
}

fn whole(text: &str) -> TextChange {
    TextChange { range: None, text: String::from(text) }
}

fn opened(text: &str) -> Workspace {
    let mut workspace = Workspace::new();
    workspace.update_file(uri(), String::from(text));
    workspace
}

fn stored(workspace: &Workspace) -> Option<String> {
    workspace.load_parsed_file(&uri(), None).map(|source| source.text)
}

fn path(text: &str) -> FilePath {
    let names = text.split('/').filter(|name| !name.is_empty());
    FilePath { root: String::from("/"), names: names.map(|name| name.as_bytes().to_vec()).collect() }
}

fn import(module: Option<&str>, name: Option<&str>, level: usize) -> ImportBinding {
    ImportBinding { module: module.map(String::from), name: name.map(String::from), level }
}

#[test]
fn module_is_opened_without_complaint() {
    let mut workspace = Workspace::new();
    let report = workspace.update_file(uri(), String::from("x = 1\ny = 2\n"));
    assert_eq!(report, ParseReport { diagnostics: vec![], outcome: Ok(2) });
    assert!(workspace.is_open(&uri()));
    assert_eq!(stored(&workspace).unwrap(), "x = 1\ny = 2\n");
}

#[test]
fn syntax_error_is_reported_at_its_place() {
    let mut workspace = Workspace::new();
    let report = workspace.update_file(uri(), String::from("x = 1\n\ndef (:\n"));
    assert_eq!(report.diagnostics.len(), 1);
    let diagnostic = &report.diagnostics[0];
    assert_eq!(diagnostic.range, range(at(2, 4), at(2, 4)));
    assert_eq!(diagnostic.severity, DiagnosticSeverity::Error);
    assert_eq!(diagnostic.source, "pylsp");
    let error = diagnostic.message.strip_prefix("Syntax Error: ").unwrap();
    assert_eq!(report.outcome, Err(format!("{} at byte offset 11", error)));
}

#[test]
fn broken_module_answers_nothing() {
    let workspace = opened("def (:\n");
    assert!(workspace.is_open(&uri()));
    assert_eq!(workspace.hover(&uri(), at(0, 4)), None);
    assert_eq!(workspace.find_binding(&uri(), at(0, 4)), None);
    assert_eq!(workspace.goto_definition(&uri(), at(0, 4), &vec![]), None);
    assert_eq!(workspace.document_symbol(&uri()), Some(vec![]));
    assert_eq!(stored(&workspace), None);
}

#[test]
fn parse_result_is_recorded() {
    let error = || SyntaxError {
        offset: 4,
        error: String::from("odd"),
        message: String::from("odd at byte offset 4"),
    };
    let (document, report) = record(String::from("a\nbc d"), Err(error()));
    assert_eq!(document.text, "a\nbc d");
    assert_eq!(document.module, None);
    assert_eq!(report.outcome, Err(String::from("odd at byte offset 4")));
    assert_eq!(
        report.diagnostics,
        vec![create_diagnostic(range(at(1, 2), at(1, 2)), String::from("Syntax Error: odd"))]
    );
    let (document, report) = record(String::from("a"), Ok(vec![]));
    assert!(document.module.is_some());
    assert_eq!(report, ParseReport { diagnostics: vec![], outcome: Ok(0) });
}

#[test]
fn unknown_document_answers_nothing() {
    let workspace = opened("x = 1\n");
    assert!(!workspace.is_open(&lib()));
    assert_eq!(workspace.hover(&lib(), at(0, 0)), None);
    assert_eq!(workspace.document_symbol(&lib()), None);
    assert_eq!(workspace.goto_definition(&lib(), at(0, 0), &vec![]), None);
    assert_eq!(workspace.reference_target(&lib(), at(0, 0), &vec![]), None);
}

#[test]
fn close_undoes_open() {
    let mut workspace = opened("x = 1\n");
    workspace.update_file(lib(), String::from("y = 2\n"));
    workspace.did_close(&uri());
    assert!(!workspace.is_open(&uri()));
    assert!(workspace.is_open(&lib()));
    assert_eq!(workspace.hover(&uri(), at(0, 0)), None);
    workspace.did_close(&uri());
    assert_eq!(workspace.python_uris(&vec![]), vec![lib()]);
}

#[test]
fn open_again_replaces_the_text() {
    let mut workspace = opened("x = 1\n");
    workspace.update_file(uri(), String::from("y = 2\n"));
    assert_eq!(stored(&workspace).unwrap(), "y = 2\n");
    assert_eq!(workspace.python_uris(&vec![]), vec![uri()]);
}

#[test]
fn documents_are_independent() {
    let mut workspace = opened("def run(a): pass\n");
    let before = workspace.hover(&uri(), at(0, 4));
    assert_eq!(before, Some(String::from("run(a)\nkind: Function")));
    workspace.update_file(lib(), String::from("def run(b): pass\n"));
    assert_eq!(workspace.hover(&uri(), at(0, 4)), before);
    workspace.did_change(lib(), &vec![whole("x")]);
    assert_eq!(workspace.hover(&uri(), at(0, 4)), before);
    workspace.did_close(&lib());
    assert_eq!(workspace.hover(&uri(), at(0, 4)), before);
}

#[test]
fn changes_are_applied_in_order() {
    let mut workspace = opened("x = 1\n");
    let changes = vec![
        edit(at(0, 4), at(0, 5), "22"),
        edit(at(0, 6), at(0, 6), "3"),
        edit(at(1, 0), at(1, 0), "y = x\n"),
    ];
    let outcome = workspace.did_change(uri(), &changes);
    assert_eq!(outcome, ChangeOutcome::Updated(ParseReport { diagnostics: vec![], outcome: Ok(2) }));
    assert_eq!(stored(&workspace).unwrap(), "x = 223\ny = x\n");
    assert_eq!(
        workspace.goto_definition(&uri(), at(1, 4), &vec![]),
        Some(located(uri(), at(0, 0), at(0, 1)))
    );
}

#[test]
fn change_without_range_replaces_the_text() {
    let mut workspace = opened("x = 1\n");
    let outcome = workspace.did_change(uri(), &vec![whole("def (:"), whole("a\nb\nc\n")]);
    assert_eq!(outcome, ChangeOutcome::Updated(ParseReport { diagnostics: vec![], outcome: Ok(3) }));
    assert_eq!(stored(&workspace).unwrap(), "a\nb\nc\n");
}

#[test]
fn no_change_parses_again() {
    let mut workspace = opened("x = 1\n");
    let outcome = workspace.did_change(uri(), &vec![]);
    assert_eq!(outcome, ChangeOutcome::Updated(ParseReport { diagnostics: vec![], outcome: Ok(1) }));
}

#[test]
fn failed_change_keeps_the_module() {
    let mut workspace = opened("x = 1\n");
    let changes = vec![
        edit(at(0, 0), at(0, 1), "y"),
        edit(at(7, 0), at(7, 0), "z"),
        edit(at(0, 0), at(0, 1), "never"),
    ];
    let outcome = workspace.did_change(uri(), &changes);
    assert_eq!(outcome, ChangeOutcome::Failed(ChangeError::InvalidStart(at(7, 0))));
    assert_eq!(stored(&workspace).unwrap(), "y = 1\n");
    assert_eq!(workspace.hover(&uri(), at(0, 0)), Some(String::from("You are hovering over: x ")));
}

#[test]
fn change_of_a_closed_document_changes_nothing() {
    let mut workspace = opened("x = 1\n");
    assert_eq!(workspace.did_change(lib(), &vec![whole("y")]), ChangeOutcome::NotOpen);
    assert!(!workspace.is_open(&lib()));
    assert_eq!(stored(&workspace).unwrap(), "x = 1\n");
}

#[test]
fn changes_can_be_applied_in_parts() {
    let first = vec![edit(at(0, 1), at(0, 1), "b")];
    let second = vec![edit(at(0, 2), at(0, 2), "c"), edit(at(0, 9), at(0, 9), "d")];
    let all = vec![
        edit(at(0, 1), at(0, 1), "b"),
        edit(at(0, 2), at(0, 2), "c"),
        edit(at(0, 9), at(0, 9), "d"),
    ];
    let mut parts = String::from("a");
    assert_eq!(apply_changes(&mut parts, &first), None);
    assert_eq!(apply_changes(&mut parts, &second), Some(ChangeError::InvalidStart(at(0, 9))));
    let mut once = String::from("a");
    assert_eq!(apply_changes(&mut once, &all), Some(ChangeError::InvalidStart(at(0, 9))));
    assert_eq!(parts, "abc");
    assert_eq!(once, "abc");
}

#[test]
fn small_changes_fit() {
    let workspace = opened("x = 1\n");
    assert!(workspace.changes_fit(&uri(), &vec![whole("y"), whole("z")]));
    assert!(workspace.changes_fit(&lib(), &vec![]));
    assert_eq!(text_size("\u{e9}\u{1F600}x"), 7);
}

#[test]
fn stale_module_does_no_harm() {
    let mut workspace = opened("def long_name():\n    pass\n");
    let outcome = workspace.did_change(uri(), &vec![whole("\u{e9}"), edit(at(9, 9), at(9, 9), "")]);
    assert_eq!(outcome, ChangeOutcome::Failed(ChangeError::InvalidStart(at(9, 9))));
    assert_eq!(workspace.hover(&uri(), at(0, 0)), None);
    assert_eq!(workspace.document_symbol(&uri()), Some(vec![]));
}

#[test]
fn local_definition_lies_in_its_document() {
    let workspace = opened("def run():\n    pass\nrun()\n");
    let expected = Some(located(uri(), at(0, 4), at(0, 7)));
    assert_eq!(workspace.goto_definition(&uri(), at(2, 1), &vec![]), expected);
    assert_eq!(workspace.reference_target(&uri(), at(2, 1), &vec![]), expected);
    assert_eq!(workspace.goto_definition(&uri(), at(2, 3), &vec![]), None);
    assert_eq!(workspace.goto_definition(&uri(), at(2, 9), &vec![]), None);
}

#[test]
fn imported_definition_lies_where_the_import_leads() {
    let workspace = opened("from lib import work\nwork()\n");
    let binding = workspace.find_binding(&uri(), at(1, 0)).unwrap();
    assert_eq!(binding.import, Some(import(Some("lib"), Some("work"), 0)));
    let rows = vec![ResolvedImport {
        import: binding.import.unwrap(),
        location: Some(located(lib(), at(3, 4), at(3, 8))),
    }];
    let expected = Some(located(lib(), at(3, 4), at(3, 8)));
    assert_eq!(workspace.goto_definition(&uri(), at(1, 0), &rows), expected);
    assert_eq!(workspace.reference_target(&uri(), at(1, 0), &rows), expected);
}

#[test]
fn import_that_leads_nowhere_is_defined_by_itself() {
    let workspace = opened("from lib import work\nwork()\n");
    assert_eq!(
        workspace.goto_definition(&uri(), at(1, 0), &vec![]),
        Some(located(uri(), at(0, 16), at(0, 20)))
    );
    assert_eq!(workspace.reference_target(&uri(), at(1, 0), &vec![]), None);
}

#[test]
fn open_document_hides_the_file() {
    let mut workspace = opened("x = 1\n");
    let disk = || Some(String::from("y = 2\n"));
    assert_eq!(workspace.load_parsed_file(&uri(), disk()).unwrap().text, "x = 1\n");
    assert_eq!(workspace.stored_path(&uri()), None);
    workspace.did_close(&uri());
    let source = workspace.load_parsed_file(&uri(), disk()).unwrap();
    assert_eq!(source.text, "y = 2\n");
    assert_eq!(source.module.len(), 1);
    assert_eq!(workspace.load_parsed_file(&uri(), None), None);
    assert_eq!(workspace.load_parsed_file(&uri(), Some(String::from("def (:"))), None);
    assert_eq!(workspace.stored_path(&uri()), Some(path("/work/app/main.py")));
}

#[test]
fn document_outside_the_file_system_has_no_path() {
    let workspace = Workspace::new();
    assert_eq!(workspace.stored_path(&String::from("untitled:Untitled-1")), None);
    assert_eq!(workspace.stored_path(&String::from("no uri")), None);
    let escaped = String::from("file:///work/my%20app/x.py");
    assert_eq!(workspace.stored_path(&escaped), Some(path("/work/my app/x.py")));
}

#[test]
fn uris_of_open_documents_and_files_are_listed_once() {
    let mut workspace = opened("x = 1\n");
    workspace.update_file(lib(), String::from("y = 2\n"));
    let found = vec![path("/work/app/lib.py"), path("/work/my app/x.py"), path("/work/my app/x.py")];
    let uris = workspace.python_uris(&found);
    assert_eq!(uris.len(), 3);
    assert!(uris[..2].contains(&uri()));
    assert!(uris[..2].contains(&lib()));
    assert_eq!(uris[2], "file:///work/my%20app/x.py");
}

#[test]
fn relative_path_has_no_uri() {
    let workspace = Workspace::new();
    let relative = FilePath { root: String::new(), names: vec![b"x.py".to_vec()] };
    assert_eq!(workspace.python_uris(&vec![relative]), Vec::<String>::new());
}

fn candidates(workspace: &Workspace, import: &ImportBinding) -> Vec<FilePath> {
    match workspace.begin_import(&uri(), import) {
        ImportStep::Probe(candidates) => candidates,
        step => panic!("{:?}", step),
    }
}

#[test]
fn import_is_probed_first() {
    let workspace = Workspace::new();
    assert_eq!(
        candidates(&workspace, &import(Some("lib"), Some("work"), 1)),
        vec![path("/work/app/lib.py"), path("/work/app/lib/__init__.py")]
    );
    assert_eq!(candidates(&workspace, &import(Some("a.b"), None, 0)).len(), 6);
    let step = workspace.begin_import("untitled:Untitled-1", &import(Some("lib"), None, 1));
    assert_eq!(step, ImportStep::Done(None));
}

#[test]
fn import_without_a_file_leads_nowhere() {
    let workspace = Workspace::new();
    let wanted = import(Some("lib"), None, 1);
    let paths = candidates(&workspace, &wanted);
    let step = workspace.probed_import(&wanted, paths, &vec![false, false]);
    assert_eq!(step, ImportStep::Done(None));
}

#[test]
fn import_of_a_module_leads_to_its_start() {
    let workspace = Workspace::new();
    let wanted = import(Some("lib"), None, 1);
    let paths = candidates(&workspace, &wanted);
    let step = workspace.probed_import(&wanted, paths, &vec![false, true]);
    let target = String::from("file:///work/app/lib/__init__.py");
    assert_eq!(step, ImportStep::Done(Some(located(target, at(0, 0), at(0, 0)))));
}

#[test]
fn import_of_a_name_reads_the_file() {
    let workspace = Workspace::new();
    let wanted = import(Some("lib"), Some("work"), 1);
    let paths = candidates(&workspace, &wanted);
    let step = workspace.probed_import(&wanted, paths, &vec![true, true]);
    assert_eq!(step, ImportStep::Read { uri: lib(), path: path("/work/app/lib.py") });
    let text = || Some(String::from("\ndef work():\n    pass\n"));
    let found = workspace.read_import(&wanted, lib(), text());
    assert_eq!(found, Some(located(lib(), at(1, 4), at(1, 8))));
    let other = import(Some("lib"), Some("gone"), 1);
    assert_eq!(workspace.read_import(&other, lib(), text()), Some(located(lib(), at(0, 0), at(0, 0))));
    assert_eq!(workspace.read_import(&wanted, lib(), None), None);
    assert_eq!(workspace.read_import(&wanted, lib(), Some(String::from("def (:"))), None);
}

#[test]
fn import_out_of_an_open_document_reads_no_file() {
    let mut workspace = Workspace::new();
    workspace.update_file(lib(), String::from("work = 1\n"));
    let wanted = import(Some("lib"), Some("work"), 1);
    let step = workspace.step_into(&wanted, lib());
    assert_eq!(step, ImportStep::Done(Some(located(lib(), at(0, 0), at(0, 4)))));
    workspace.update_file(lib(), String::from("def (:"));
    assert_eq!(workspace.step_into(&wanted, lib()), ImportStep::Done(None));
}

#[test]
fn path_that_is_no_text_is_kept() {
    let mut workspace = Workspace::new();
    let odd = String::from("file:///p/%FF%C3.py");
    let path = workspace.stored_path(&odd).unwrap();
    assert_eq!(path.names, vec![b"p".to_vec(), b"\xff\xc3.py".to_vec()]);
    assert_eq!(workspace.python_uris(&vec![path]), vec![odd.clone()]);
    workspace.update_file(odd.clone(), String::from("x = 1\n"));
    assert_eq!(workspace.stored_path(&odd), None);
}

#[test]
fn import_below_a_path_that_is_no_text_is_found() {
    let workspace = Workspace::new();
    let wanted = import(Some("lib"), None, 1);
    let candidates = match workspace.begin_import("file:///%FF/a/main.py", &wanted) {
        ImportStep::Probe(candidates) => candidates,
        step => panic!("{:?}", step),
    };
    let target = String::from("file:///%FF/a/lib.py");
    assert_eq!(
        workspace.probed_import(&wanted, candidates, &vec![true, false]),
        ImportStep::Done(Some(located(target, at(0, 0), at(0, 0))))
    );
}

#[test]
fn paths_and_uris_are_inverse() {
    let workspace = Workspace::new();
    for text in ["file:///a%20b/%25/x.py", "file:///%C3%A9t%C3%A9.py", "file:///%F0%9F/%FE.py"] {
        let path = workspace.stored_path(&String::from(text)).unwrap();
        assert_eq!(workspace.python_uris(&vec![path]), vec![String::from(text)]);
    }
    let steps = workspace.stored_path(&String::from("file:///a%2F..%2Fb.py")).unwrap();
    assert_eq!(steps, path("/a/../b.py"));
    assert_eq!(workspace.python_uris(&vec![steps]), vec![String::from("file:///a/../b.py")]);
}
