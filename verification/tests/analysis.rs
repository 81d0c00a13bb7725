use python_ls::binding::{import_binding, import_from_binding, Binding, ImportBinding, SymbolKind};
use python_ls::hover::find_symbol_at_offset;
use python_ls::imports::{find_top_level_symbol_range, resolve_import_location};
use python_ls::location::Location;
use python_ls::parser::{
    assemble_expression, assemble_statement, parse_module, ExpressionForm, StatementForm,
};
use python_ls::references::{
    binding_definition_location, find_references, imports_of, matches_target, ResolvedImport,
    SearchedFile,
};
use python_ls::scope::{resolve_binding_at_offset, ScopeStack};
use python_ls::search::{find_defined_name, symbol_name_range};
use python_ls::source::{into_source, parse_document, Source};
use python_ls::symbols::document_symbols;
use python_ls::syntax::{
    function_signature, render_expr, Expression, ImportedName, Node, Param, Span, Statement,
};
use python_ls::text::{Position, Range};

const URI: &str = "file:///work/main.py";

fn parse(text: &str) -> Source {
    let (document, report) = parse_document(String::from(text), URI);
    assert_eq!(report.diagnostics, vec![]);
    into_source(document).unwrap()
}

fn offset(text: &str, needle: &str, nth: usize) -> u32 {
    text.match_indices(needle).nth(nth).unwrap().0 as u32
}

fn span(start: u32, end: u32) -> Span {
    Span { start, end }
}

fn range(start: (u32, u32), end: (u32, u32)) -> Range {
    Range {
        start: Position { line: start.0, character: start.1 },
        end: Position { line: end.0, character: end.1 },
    }
}

fn located(uri: &str, start: (u32, u32), end: (u32, u32)) -> Location {
    Location { uri: String::from(uri), range: range(start, end) }
}

fn hover(text: &str, at: u32) -> Option<String> {
    let source = parse(text);
    find_symbol_at_offset(text, &source.module, at).hover_text()
}

fn meaning(text: &str, at: u32) -> Option<Binding> {
    let source = parse(text);
    resolve_binding_at_offset(text, &source.module, at)
}

fn meaning_span(text: &str, at: u32) -> Option<Span> {
    meaning(text, at).map(|binding| binding.span)
}

fn text(value: &str) -> Option<String> {
    Some(String::from(value))
}

fn name(id: &str, at: u32) -> Expression {
    Expression::Name { id: String::from(id), span: span(at, at + id.len() as u32) }
}

const SAMPLE: &str = "\
def foo(a, b: int) -> str:
    return a

class Bar:
    pass

x = foo(1, 2)
";

#[test]
fn hover_shows_the_signature_of_a_function() {
    assert_eq!(hover(SAMPLE, offset(SAMPLE, "foo", 0)), text("foo(a, b: int) -> str\nkind: Function"));
    assert_eq!(hover(SAMPLE, offset(SAMPLE, "foo", 1)), text("foo(a, b: int) -> str\nkind: Function"));
    assert_eq!(hover(SAMPLE, offset(SAMPLE, "foo", 1) + 2), text("foo(a, b: int) -> str\nkind: Function"));
}

#[test]
fn hover_shows_a_class() {
    assert_eq!(hover(SAMPLE, offset(SAMPLE, "Bar", 0)), text("class Bar\nkind: Class"));
}

#[test]
fn hover_shows_an_unknown_name() {
    assert_eq!(hover(SAMPLE, offset(SAMPLE, "x =", 0)), text("You are hovering over: x "));
    assert_eq!(hover(SAMPLE, offset(SAMPLE, "str", 0)), text("You are hovering over: str "));
    assert_eq!(hover("f()\ndef f():\n    pass\n", 0), text("You are hovering over: f "));
}

#[test]
fn hover_shows_nothing_beside_names() {
    assert_eq!(hover(SAMPLE, offset(SAMPLE, "return", 0)), None);
    assert_eq!(hover(SAMPLE, offset(SAMPLE, "a, b", 0)), None);
    assert_eq!(hover(SAMPLE, offset(SAMPLE, "foo", 1) + 3), None);
    assert_eq!(hover(SAMPLE, SAMPLE.len() as u32), None);
    assert_eq!(hover("", 0), None);
}

#[test]
fn later_definition_is_shown() {
    let code = "def run(a):\n    pass\ndef run(b):\n    pass\nrun(1)\n";
    assert_eq!(hover(code, offset(code, "run", 0)), text("run(a)\nkind: Function"));
    assert_eq!(hover(code, offset(code, "run", 2)), text("run(b)\nkind: Function"));
}

#[test]
fn signature_renders_annotations() {
    let code = "def big(a, b: pkg.T, c: dict[str, int], d: [int], e: 1, g: f() = 2) -> None:\n    pass\n";
    assert_eq!(
        hover(code, offset(code, "big", 0)),
        text("big(a, b: pkg.T, c: dict[str, int], d: list, e: literal, g: function call) -> None\nkind: Function")
    );
    let bare = "def run():\n    pass\n";
    assert_eq!(hover(bare, offset(bare, "run", 0)), text("run()\nkind: Function"));
}

#[test]
fn signature_of_plain_values() {
    let params = vec![
        Param { name: String::from("a"), span: span(0, 1), annotation: None },
        Param { name: String::from("b"), span: span(3, 4), annotation: Some(name("int", 6)) },
    ];
    assert_eq!(function_signature("f", &params, &None), "f(a, b: int)");
    assert_eq!(function_signature("f", &vec![], &Some(name("str", 0))), "f() -> str");
}

#[test]
fn expressions_are_rendered() {
    let attribute = || Expression::Attribute { value: Box::new(name("a", 0)), attr: String::from("b") };
    assert_eq!(render_expr(&attribute()), "a.b");
    let pair = Expression::Tuple { elts: vec![name("x", 0), attribute()] };
    let subscript = Expression::Subscript { value: Box::new(name("d", 0)), slice: Box::new(pair) };
    assert_eq!(render_expr(&subscript), "d[x, a.b]");
    assert_eq!(render_expr(&Expression::Tuple { elts: vec![] }), "");
    let list = Expression::List { label: String::from("list"), elts: vec![name("x", 0)] };
    assert_eq!(render_expr(&list), "list");
    let call = Expression::Other { label: String::from("function call"), operands: vec![] };
    assert_eq!(render_expr(&call), "function call");
}

#[test]
fn name_is_found_at_its_first_occurrence() {
    let code = "def feed(): pass\n";
    assert_eq!(symbol_name_range(code, span(0, 16), "feed"), Some(span(4, 8)));
    assert_eq!(symbol_name_range(code, span(0, 16), "e"), Some(span(1, 2)));
    assert_eq!(symbol_name_range(code, span(2, 16), "e"), Some(span(5, 6)));
    assert_eq!(symbol_name_range(code, span(0, 7), "feed"), None);
    assert_eq!(symbol_name_range(code, span(3, 3), ""), Some(span(3, 3)));
    assert_eq!(symbol_name_range("\u{e9}t\u{e9}", span(2, 5), "\u{e9}"), Some(span(3, 5)));
}

#[test]
fn stale_span_finds_no_name() {
    assert_eq!(find_defined_name("def f", span(0, 6), "f"), None);
    assert_eq!(find_defined_name("def f", span(3, 2), "f"), None);
    assert_eq!(find_defined_name("\u{e9}f", span(1, 3), "f"), None);
    assert_eq!(find_defined_name("def g", span(0, 5), "g"), Some(span(4, 5)));
}

#[test]
fn short_name_is_found_inside_the_keyword() {
    let code = "def e():\n    pass\ne()\n";
    assert_eq!(meaning_span(code, offset(code, "e()", 1)), Some(span(1, 2)));
}

#[test]
fn use_resolves_to_the_definition() {
    assert_eq!(meaning_span(SAMPLE, offset(SAMPLE, "foo", 1)), Some(span(4, 7)));
    let binding = meaning(SAMPLE, offset(SAMPLE, "foo", 0)).unwrap();
    assert_eq!(binding.name, "foo");
    assert_eq!(binding.kind, SymbolKind::Function);
    assert_eq!(binding.span, span(4, 7));
    assert_eq!(binding.import, None);
}

#[test]
fn parameter_resolves_to_itself() {
    let at = offset(SAMPLE, "a, b", 0);
    assert_eq!(meaning_span(SAMPLE, at), Some(span(at, at + 1)));
    assert_eq!(meaning_span(SAMPLE, offset(SAMPLE, "a\n\n", 0)), Some(span(at, at + 1)));
    let b = offset(SAMPLE, "b: int", 0);
    assert_eq!(meaning_span(SAMPLE, b), Some(span(b, b + 6)));
}

#[test]
fn inner_names_stay_inside() {
    let code = "x = 1\ndef fun():\n    x = 2\n    return x\ny = x\n";
    let inner = offset(code, "x = 2", 0);
    assert_eq!(meaning_span(code, offset(code, "x\ny", 0)), Some(span(inner, inner + 1)));
    assert_eq!(meaning_span(code, offset(code, "x\n", 1)), Some(span(0, 1)));
}

#[test]
fn inner_scope_sees_outer_names() {
    let code = "x = 1\nclass Kls:\n    def fun(self):\n        return x\n";
    assert_eq!(meaning_span(code, offset(code, "x\n", 0)), Some(span(0, 1)));
}

#[test]
fn newest_binding_wins() {
    let code = "x = 1\nx = 2\nx\n";
    assert_eq!(meaning_span(code, 12), Some(span(6, 7)));
    assert_eq!(meaning_span(code, 0), Some(span(0, 1)));
}

#[test]
fn unknown_name_has_no_meaning() {
    assert_eq!(meaning("x\n", 0), None);
    assert_eq!(meaning("x\nx = 1\n", 0), None);
    assert_eq!(meaning("for i in y:\n    i\n", 16), None);
}

#[test]
fn targets_in_tuples_and_lists_are_bound() {
    let code = "a, [b, (c, d)] = t\nd\nb\n";
    assert_eq!(meaning_span(code, offset(code, "d\n", 0)), Some(span(11, 12)));
    assert_eq!(meaning_span(code, offset(code, "b\n", 0)), Some(span(4, 5)));
    let other = "o.a = 1\no[b] = 2\na\n";
    assert_eq!(meaning(other, offset(other, "a\n", 0)), None);
}

#[test]
fn scope_stack_resolves_from_the_inside() {
    let mut stack = ScopeStack::new();
    assert_eq!(stack.resolve_name("x"), None);
    let binding = |start| Binding {
        name: String::from("x"),
        kind: SymbolKind::Variable,
        span: span(start, start + 1),
        import: None,
    };
    stack.bind_current(binding(0));
    stack.bind_current(binding(5));
    assert_eq!(stack.resolve_name("x"), Some(binding(5)));
    assert_eq!(stack.resolve_name("y"), None);
}

const IMPORTS: &str = "\
import os.path as p
import pkg.mod
from . import thing as t, other
from ..m import *
from a.b import c
p
pkg
t
";

fn import(module: Option<&str>, name: Option<&str>, level: usize) -> ImportBinding {
    ImportBinding { module: module.map(String::from), name: name.map(String::from), level }
}

#[test]
fn imports_are_listed() {
    let source = parse(IMPORTS);
    assert_eq!(
        imports_of(IMPORTS, &source.module),
        vec![
            import(Some("os.path"), None, 0),
            import(Some("pkg.mod"), None, 0),
            import(None, Some("thing"), 1),
            import(None, Some("other"), 1),
            import(Some("a.b"), Some("c"), 0),
        ]
    );
}

#[test]
fn imported_names_are_bound() {
    let p = meaning(IMPORTS, offset(IMPORTS, "p\npkg", 0)).unwrap();
    assert_eq!(p.kind, SymbolKind::Module);
    assert_eq!(p.import, Some(import(Some("os.path"), None, 0)));
    assert_eq!(p.span, span(7, 19));
    let pkg = meaning(IMPORTS, offset(IMPORTS, "pkg\nt", 0)).unwrap();
    assert_eq!(pkg.name, "pkg");
    assert_eq!(pkg.import, Some(import(Some("pkg.mod"), None, 0)));
    let t = meaning(IMPORTS, offset(IMPORTS, "thing", 0)).unwrap();
    assert_eq!(t.name, "t");
    assert_eq!(t.kind, SymbolKind::Variable);
    assert_eq!(t.import, Some(import(None, Some("thing"), 1)));
    assert_eq!(meaning(IMPORTS, offset(IMPORTS, "*", 0)), None);
}

#[test]
fn import_bindings_of_plain_values() {
    let imported = |text: &str, asname: Option<&str>| ImportedName {
        name: String::from(text),
        asname: asname.map(String::from),
        span: span(3, 9),
    };
    assert_eq!(import_binding(&imported("a.b.c", None), 2).name, "a");
    assert_eq!(import_binding(&imported("a.b.c", Some("z")), 2).name, "z");
    assert_eq!(import_binding(&imported("a.b.c", None), 2).import, Some(import(Some("a.b.c"), None, 2)));
    let member = import_from_binding(&text("m"), 1, &imported("x", None)).unwrap();
    assert_eq!(member.name, "x");
    assert_eq!(member.span, span(3, 9));
    assert_eq!(member.import, Some(import(Some("m"), Some("x"), 1)));
    assert_eq!(import_from_binding(&text("m"), 1, &imported("*", None)), None);
}

#[test]
fn outline_lists_definitions_in_order() {
    let code = "class Box:\n    def get(self):\n        def inner(): pass\n\ndef run(): pass\nx = 1\n";
    let source = parse(code);
    let symbols = document_symbols(code, &source.module);
    let names: Vec<(&str, SymbolKind)> = symbols.iter().map(|s| (s.name.as_str(), s.kind)).collect();
    assert_eq!(
        names,
        vec![
            ("Box", SymbolKind::Class),
            ("get", SymbolKind::Function),
            ("inner", SymbolKind::Function),
            ("run", SymbolKind::Function),
        ]
    );
    assert_eq!(symbols[0].selection_range, range((0, 6), (0, 9)));
    assert_eq!(symbols[1].selection_range, range((1, 8), (1, 11)));
    assert_eq!(symbols[3].range, range((4, 0), (4, 15)));
    assert_eq!(symbols[3].selection_range, range((4, 4), (4, 7)));
}

#[test]
fn outline_of_async_functions_is_left_out() {
    let code = "async def fun():\n    def inner():\n        pass\n";
    let source = parse(code);
    let symbols = document_symbols(code, &source.module);
    assert_eq!(symbols.len(), 1);
    assert_eq!(symbols[0].name, "inner");
}

fn searched(uri: &str, code: &str, imports: Vec<ResolvedImport>) -> SearchedFile {
    SearchedFile { uri: String::from(uri), source: parse(code), imports }
}

#[test]
fn references_in_one_file() {
    let code = "def run():\n    pass\nrun()\ng = run\nrun = 3\nrun\n";
    let files = vec![searched(URI, code, vec![])];
    let target = located(URI, (0, 4), (0, 7));
    assert_eq!(
        find_references(&files, &target),
        vec![
            located(URI, (0, 4), (0, 7)),
            located(URI, (2, 0), (2, 3)),
            located(URI, (3, 4), (3, 7)),
        ]
    );
}

#[test]
fn references_follow_imports() {
    let target = || located("file:///work/lib.py", (0, 4), (0, 8));
    let row = |name: &str, location| ResolvedImport { import: import(Some("lib"), Some(name), 0), location };
    let user = "from lib import work as w, rest\nw()\nrest()\n";
    let files = vec![
        searched("file:///work/lib.py", "def work():\n    pass\nwork()\n", vec![]),
        searched(URI, user, vec![row("work", Some(target())), row("rest", None)]),
        searched("file:///work/else.py", "def work():\n    pass\n", vec![]),
    ];
    assert_eq!(
        find_references(&files, &target()),
        vec![
            located("file:///work/lib.py", (0, 4), (0, 8)),
            located("file:///work/lib.py", (2, 0), (2, 4)),
            located(URI, (0, 16), (0, 25)),
            located(URI, (1, 0), (1, 1)),
        ]
    );
}

#[test]
fn only_listed_imports_matter() {
    let code = "from lib import work\nwork()\n";
    let target = located("file:///work/lib.py", (0, 0), (0, 0));
    let row = || ResolvedImport {
        import: import(Some("lib"), Some("work"), 0),
        location: Some(located("file:///work/lib.py", (0, 0), (0, 0))),
    };
    let stray = || ResolvedImport {
        import: import(Some("lib"), Some("other"), 0),
        location: Some(located("file:///work/lib.py", (0, 0), (0, 0))),
    };
    let one = find_references(&vec![searched(URI, code, vec![row()])], &target);
    let two = find_references(&vec![searched(URI, code, vec![stray(), row()])], &target);
    assert_eq!(one.len(), 2);
    assert_eq!(one, two);
}

#[test]
fn definition_of_an_unresolved_import_is_unknown() {
    let binding = meaning(IMPORTS, offset(IMPORTS, "thing", 0)).unwrap();
    assert_eq!(binding_definition_location(URI, IMPORTS, &vec![], &binding), None);
    let target = located("file:///work/__init__.py", (0, 0), (0, 0));
    let rows = vec![ResolvedImport {
        import: import(None, Some("thing"), 1),
        location: Some(located("file:///work/__init__.py", (0, 0), (0, 0))),
    }];
    assert_eq!(
        binding_definition_location(URI, IMPORTS, &rows, &binding),
        Some(located("file:///work/__init__.py", (0, 0), (0, 0)))
    );
    assert!(matches_target(URI, IMPORTS, &rows, &target, &binding));
    assert!(!matches_target(URI, IMPORTS, &vec![], &target, &binding));
}

#[test]
fn top_level_symbols_are_found() {
    let code = "if 1:\n    late = 0\nfirst = late = 1\ndef work():\n    deep = 2\nclass Kls: pass\nwork = 3\na, b = 1, 2\n";
    let source = parse(code);
    let find = |name: &str| find_top_level_symbol_range(code, &source.module, &String::from(name));
    let at = |needle: &str, nth: usize, len: u32| {
        let start = offset(code, needle, nth);
        Some(span(start, start + len))
    };
    assert_eq!(find("first"), at("first", 0, 5));
    assert_eq!(find("late"), at("late", 1, 4));
    assert_eq!(find("work"), at("work", 0, 4));
    assert_eq!(find("Kls"), at("Kls", 0, 3));
    assert_eq!(find("deep"), None);
    assert_eq!(find("a"), None);
    assert_eq!(find("none"), None);
}

#[test]
fn imports_lead_to_symbols_or_to_the_start() {
    let uri = || String::from("file:///work/lib.py");
    let source = Some(parse("\ndef work():\n    pass\n"));
    assert_eq!(resolve_import_location(uri(), &None, &None), Some(located(&uri(), (0, 0), (0, 0))));
    assert_eq!(resolve_import_location(uri(), &text("work"), &None), None);
    assert_eq!(resolve_import_location(uri(), &text("work"), &source), Some(located(&uri(), (1, 4), (1, 8))));
    assert_eq!(resolve_import_location(uri(), &text("gone"), &source), Some(located(&uri(), (0, 0), (0, 0))));
}

#[test]
fn nodes_are_assembled() {
    let attr = || ExpressionForm::Attribute { attr: String::from("b") };
    assert_eq!(
        assemble_expression(attr(), String::from("attribute"), vec![name("a", 0)]),
        Expression::Attribute { value: Box::new(name("a", 0)), attr: String::from("b") }
    );
    assert_eq!(
        assemble_expression(attr(), String::from("attribute"), vec![]),
        Expression::Other { label: String::from("attribute"), operands: vec![] }
    );
    assert_eq!(
        assemble_expression(ExpressionForm::Subscript, String::from("subscript"), vec![name("a", 0), name("b", 2)]),
        Expression::Subscript { value: Box::new(name("a", 0)), slice: Box::new(name("b", 2)) }
    );
    let nodes = vec![
        Node::Expression(name("a", 0)),
        Node::Expression(name("b", 4)),
        Node::Expression(name("c", 8)),
    ];
    assert_eq!(
        assemble_statement(StatementForm::Assign, nodes),
        Statement::Assign { targets: vec![name("a", 0), name("b", 4)], value: name("c", 8) }
    );
    assert_eq!(
        assemble_statement(StatementForm::Assign, vec![]),
        Statement::Other { nodes: vec![] }
    );
}

#[test]
fn module_is_read_as_a_tree() {
    let source = parse("a = b.c\nif x:\n    y[0]\n");
    let literal = Expression::Other { label: String::from("literal"), operands: vec![] };
    let attribute = Expression::Attribute { value: Box::new(name("b", 4)), attr: String::from("c") };
    let subscript = Expression::Subscript { value: Box::new(name("y", 18)), slice: Box::new(literal) };
    let inner = Statement::Other { nodes: vec![Node::Expression(subscript)] };
    assert_eq!(
        *source.module,
        vec![
            Node::Statement(Statement::Assign { targets: vec![name("a", 0)], value: attribute }),
            Node::Statement(Statement::Other {
                nodes: vec![Node::Expression(name("x", 11)), Node::Statement(inner)],
            }),
        ]
    );
}

#[test]
fn definitions_read_as_their_names() {
    let code = "def \u{e9}t\u{e9}():\n    pass\nclass Kls:\n    pass\n\u{e9}t\u{e9}()\nKls()\n";
    for (needle, name) in [("\u{e9}t\u{e9}()\nK", "\u{e9}t\u{e9}"), ("Kls()", "Kls")] {
        let binding = meaning(code, offset(code, needle, 0)).unwrap();
        assert_eq!(binding.name, name);
        assert_eq!(&code[binding.span.start as usize..binding.span.end as usize], name);
    }
}

#[test]
fn outlined_name_lies_in_its_definition() {
    let code = "class Box:\n    def get(self):\n        pass\n";
    let source = parse(code);
    for symbol in document_symbols(code, &source.module) {
        let start = |range: &Range| (range.start.line, range.start.character);
        let end = |range: &Range| (range.end.line, range.end.character);
        assert!(start(&symbol.range) <= start(&symbol.selection_range));
        assert!(end(&symbol.selection_range) <= end(&symbol.range));
    }
}

#[test]
fn statements_are_kept_in_order() {
    let module = parse_module("import a\nb = 1\nclass Kls: pass\nfrom . import c\n", URI).unwrap();
    assert_eq!(module.len(), 4);
    assert!(matches!(module[0], Node::Statement(Statement::Import { .. })));
    assert!(matches!(module[1], Node::Statement(Statement::Assign { .. })));
    assert!(matches!(module[2], Node::Statement(Statement::ClassDef { .. })));
    assert!(matches!(module[3], Node::Statement(Statement::ImportFrom { level: 1, .. })));
}

#[test]
fn error_of_the_parser_is_told() {
    let error = parse_module("x = 1\n\ndef (:\n", URI).unwrap_err();
    assert_eq!(error.offset, 11);
    assert_eq!(error.message, format!("{} at byte offset 11", error.error));
}

#[test]
fn one_text_is_read_in_one_way() {
    assert_eq!(parse_module(SAMPLE, URI), parse_module(SAMPLE, URI));
    assert_eq!(parse_module("def (:\n", URI), parse_module("def (:\n", URI));
}
