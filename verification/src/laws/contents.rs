use crate::batch::{BatchReport, ParseErrorDetail};
use crate::binding::{
    optional_binding, optional_import, optional_text, Binding, ImportBinding,
};
use crate::hover::SymbolInfo;
use crate::location::{locations_view, optional_location, Location};
use crate::modules::{name_bytes, optional_path, paths_view, texts, FilePath};
use crate::parser::{found_view, ExpressionForm, FormView, SyntaxError, SyntaxProblem};
use crate::references::imports_view;
use crate::source::{
    diagnostics_view, optional_source, Diagnostic, Document, ParseReport, Source,
};
use crate::symbols::{symbols_view, DocumentSymbol};
use crate::syntax::{
    expression_view, expression_views, imported_views, lemma_expression_views, lemma_node_views,
    node_view, node_views, optional_expression, param_views, statement_view, Expression,
    ExpressionView, ImportedName, Node, NodeView, Param, Span, Statement, StatementView,
};
use crate::trace::{event_views, Event, EventView};
use crate::workspace::optional_symbols;
use vstd::prelude::*;

verus! {

/// A view of an expression keeps its sort, its texts and its operands.
pub proof fn law_expression_says_what_it_holds(
    id: String,
    span: Span,
    value: Box<Expression>,
    slice: Box<Expression>,
    row: Vec<Expression>,
)
    ensures
        (Expression::Name { id, span })@ == (ExpressionView::Name { id: id@, span }),
        ({
            let attribute = (Expression::Attribute { value, attr: id })@;
            let subscript = (Expression::Subscript { value, slice })@;
            &&& attribute is Attribute
            &&& *attribute->Attribute_value == value@
            &&& attribute->attr == id@
            &&& subscript is Subscript
            &&& *subscript->Subscript_value == value@
            &&& *subscript->slice == slice@
        }),
        (Expression::Tuple { elts: row })@ == (ExpressionView::Tuple {
            elts: expression_views(row@),
        }),
        (Expression::List { label: id, elts: row })@ == (ExpressionView::List {
            label: id@,
            elts: expression_views(row@),
        }),
        (Expression::Other { label: id, operands: row })@ == (ExpressionView::Other {
            label: id@,
            operands: expression_views(row@),
        }),
        expression_view(*value) == value@,
{
}

/// A view of a statement keeps its sort, its texts and the nodes inside it.
pub proof fn law_statement_says_what_it_holds(
    name: String,
    span: Span,
    params: Vec<Param>,
    return_type: Option<Expression>,
    nodes: Vec<Node>,
    targets: Vec<Expression>,
    value: Expression,
    module: Option<String>,
    level: usize,
    names: Vec<ImportedName>,
)
    ensures
        (Statement::FunctionDef { name, span, params, return_type, nodes })@
            == (StatementView::FunctionDef {
            name: name@,
            span,
            params: param_views(params@),
            return_type: optional_expression(return_type),
            nodes: node_views(nodes@),
        }),
        (Statement::ClassDef { name, span, nodes })@ == (StatementView::ClassDef {
            name: name@,
            span,
            nodes: node_views(nodes@),
        }),
        (Statement::Assign { targets, value })@ == (StatementView::Assign {
            targets: expression_views(targets@),
            value: value@,
        }),
        (Statement::Import { names })@ == (StatementView::Import {
            names: imported_views(names@),
        }),
        (Statement::ImportFrom { module, level, names })@ == (StatementView::ImportFrom {
            module: optional_text(module),
            level,
            names: imported_views(names@),
        }),
        (Statement::Other { nodes })@ == (StatementView::Other { nodes: node_views(nodes@) }),
        Node::Expression(value)@ == NodeView::Expression(value@),
{
}

/// A view of a node that is a statement keeps the statement.
pub proof fn law_node_says_what_it_holds(statement: Statement, node: Node)
    ensures
        Node::Statement(statement)@ == NodeView::Statement(statement@),
        statement_view(statement) == statement@,
        node_view(node) == node@,
{
}

/// A view of a row keeps each item in its place.
pub proof fn law_rows_keep_their_items(
    exprs: Seq<Expression>,
    nodes: Seq<Node>,
    params: Seq<Param>,
    names: Seq<ImportedName>,
    i: int,
)
    ensures
        expression_views(exprs).len() == exprs.len(),
        0 <= i < exprs.len() ==> expression_views(exprs)[i] == exprs[i]@,
        node_views(nodes).len() == nodes.len(),
        0 <= i < nodes.len() ==> node_views(nodes)[i] == nodes[i]@,
        param_views(params).len() == params.len(),
        0 <= i < params.len() ==> param_views(params)[i] == params[i]@,
        imported_views(names).len() == names.len(),
        0 <= i < names.len() ==> imported_views(names)[i] == names[i]@,
{
    lemma_expression_views(exprs);
    lemma_node_views(nodes);
}

/// A view of a row of answers keeps each of them in its place.
pub proof fn law_rows_of_answers_keep_their_items(
    locations: Seq<Location>,
    symbols: Seq<DocumentSymbol>,
    diagnostics: Seq<Diagnostic>,
    imports: Seq<ImportBinding>,
    events: Seq<Event<'_>>,
    i: int,
)
    ensures
        locations_view(locations).len() == locations.len(),
        0 <= i < locations.len() ==> locations_view(locations)[i] == locations[i]@,
        symbols_view(symbols).len() == symbols.len(),
        0 <= i < symbols.len() ==> symbols_view(symbols)[i] == symbols[i]@,
        diagnostics_view(diagnostics).len() == diagnostics.len(),
        0 <= i < diagnostics.len() ==> diagnostics_view(diagnostics)[i] == diagnostics[i]@,
        imports_view(imports).len() == imports.len(),
        0 <= i < imports.len() ==> imports_view(imports)[i] == imports[i]@,
        event_views(events).len() == events.len(),
        0 <= i < events.len() ==> event_views(events)[i] == events[i]@,
{
}

/// A view of a row of paths or names keeps each of them in its place.
pub proof fn law_rows_of_paths_keep_their_items(
    paths: Seq<FilePath>,
    names: Seq<Vec<u8>>,
    row: Seq<String>,
    i: int,
)
    ensures
        paths_view(paths).len() == paths.len(),
        0 <= i < paths.len() ==> paths_view(paths)[i] == paths[i]@,
        name_bytes(names).len() == names.len(),
        0 <= i < names.len() ==> name_bytes(names)[i] == names[i]@,
        texts(row).len() == row.len(),
        0 <= i < row.len() ==> texts(row)[i] == row[i]@,
{
}

/// What is optional says nothing if it is missing, and otherwise what it holds.
pub proof fn law_optional_values_say_what_they_hold(
    text: String,
    expr: Expression,
    import: ImportBinding,
    binding: Binding,
    location: Location,
    source: Source,
    path: FilePath,
    symbols: Vec<DocumentSymbol>,
)
    ensures
        optional_text(None) is None && optional_text(Some(text)) == Some(text@),
        optional_expression(None) is None && optional_expression(Some(expr)) == Some(expr@),
        optional_import(None) is None && optional_import(Some(import)) == Some(import@),
        optional_binding(None) is None && optional_binding(Some(binding)) == Some(binding@),
        optional_location(None) is None && optional_location(Some(location)) == Some(location@),
        optional_source(None) is None && optional_source(Some(source)) == Some(source@),
        optional_path(None) is None && optional_path(Some(path)) == Some(path@),
        optional_symbols(None) is None && optional_symbols(Some(symbols)) == Some(
            symbols_view(symbols@),
        ),
{
}

/// A view of a parameter, an imported name, an import, a binding or a symbol keeps all its fields.
pub proof fn law_names_say_what_they_hold(
    param: Param,
    name: ImportedName,
    import: ImportBinding,
    binding: Binding,
    symbol: SymbolInfo,
)
    ensures
        param@.name == param.name@ && param@.span == param.span,
        param@.annotation == optional_expression(param.annotation),
        name@.name == name.name@ && name@.span == name.span,
        name@.asname == optional_text(name.asname),
        import@.module == optional_text(import.module) && import@.name == optional_text(
            import.name,
        ),
        import@.level == import.level,
        binding@.name == binding.name@ && binding@.kind == binding.kind,
        binding@.span == binding.span && binding@.import == optional_import(binding.import),
        symbol@.name == symbol.name@ && symbol@.kind == symbol.kind,
        symbol@.detail == optional_text(symbol.detail),
{
}

/// A view of an answer keeps all its fields.
pub proof fn law_answers_say_what_they_hold(
    location: Location,
    symbol: DocumentSymbol,
    diagnostic: Diagnostic,
    source: Source,
    path: FilePath,
)
    ensures
        location@.uri == location.uri@ && location@.range == location.range,
        symbol@.name == symbol.name@ && symbol@.kind == symbol.kind,
        symbol@.range == symbol.range && symbol@.selection_range == symbol.selection_range,
        diagnostic@.range == diagnostic.range && diagnostic@.severity == diagnostic.severity,
        diagnostic@.source == diagnostic.source@ && diagnostic@.message == diagnostic.message@,
        source@.text == source.text@ && source@.module == node_views(source.module@),
        path@.root == path.root@ && path@.names == name_bytes(path.names@),
{
}

/// A view of a document or a report keeps all its fields.
pub proof fn law_documents_say_what_they_hold(
    document: Document,
    report: ParseReport,
    error: SyntaxError,
    module: Vec<Node>,
)
    ensures
        document@.text == document.text@,
        document@.module is Some <==> document.module is Some,
        document.module is Some ==> document@.module->0 == node_views(document.module->0@),
        report@.diagnostics == diagnostics_view(report.diagnostics@),
        match report.outcome {
            Ok(statements) => report@.outcome == Ok::<nat, Seq<char>>(statements as nat),
            Err(message) => report@.outcome == Err::<nat, Seq<char>>(message@),
        },
        error@.offset == error.offset,
        error@.error == error.error@ && error@.message == error.message@,
        found_view(Ok(module)) == Ok::<Seq<NodeView>, SyntaxProblem>(node_views(module@)),
        found_view(Err(error)) == Err::<Seq<NodeView>, SyntaxProblem>(error@),
{
}

/// A view of the report on a batch keeps all its counts and its errors.
pub proof fn law_batch_reports_say_what_they_hold(
    report: BatchReport,
    detail: ParseErrorDetail,
    i: int,
)
    ensures
        report@.passed == report.passed && report@.failed == report.failed,
        report@.diagnostic_err == report.diagnostic_err,
        report@.total_lines_parsed == report.total_lines_parsed,
        report@.err_in_files.len() == report.err_in_files@.len(),
        0 <= i < report.err_in_files@.len() ==> report@.err_in_files[i] == report.err_in_files@[i]@,
        detail@.path == detail.path@ && detail@.text == detail.text@,
        detail@.line == detail.line && detail@.column == detail.column,
{
}

/// A view of an event keeps its sort and all that it holds.
pub proof fn law_event_says_what_it_holds(event: Event<'_>)
    ensures
        match event {
            Event::Function { name, span, params, return_type } => event@ == (EventView::Function {
                name: name@,
                span,
                params: param_views(params@),
                return_type: optional_expression(*return_type),
            }),
            Event::Class { name, span } => event@ == (EventView::Class { name: name@, span }),
            Event::Parameter { param } => event@ == (EventView::Parameter { param: param@ }),
            Event::Target { id, span } => event@ == (EventView::Target { id: id@, span }),
            Event::Import { imported } => event@ == (EventView::Import { imported: imported@ }),
            Event::ImportFrom { module, level, imported } => event@ == (EventView::ImportFrom {
                module: optional_text(*module),
                level,
                imported: imported@,
            }),
            Event::Use { id, span } => event@ == (EventView::Use { id: id@, span }),
            Event::Enter => event@ is Enter,
            Event::Leave => event@ is Leave,
        },
{
}

/// A view of the form of an expression keeps its sort and all that it holds.
pub proof fn law_form_says_what_it_holds(form: ExpressionForm)
    ensures
        match form {
            ExpressionForm::Name { id, span } => form@ == (FormView::Name { id: id@, span }),
            ExpressionForm::Attribute { attr } => form@ == (FormView::Attribute { attr: attr@ }),
            ExpressionForm::Subscript => form@ is Subscript,
            ExpressionForm::Tuple => form@ is Tuple,
            ExpressionForm::List => form@ is List,
            ExpressionForm::Other => form@ is Other,
        },
{
}

} // verus!
