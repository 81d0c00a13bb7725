use crate::binding::optional_text;
use crate::syntax::{
    expression_views, imported_views, lemma_expression_views, lemma_expression_views_push,
    lemma_node_views, lemma_node_views_step, node_views, optional_expression, param_views,
    Expression, ExpressionView, ImportedName, ImportedNameView, Node, NodeView, Param, ParamView,
    Span, Statement, StatementView,
};
use crate::text::byte_len;
use rustpython_ast::Visitor;
use rustpython_parser::Parse;
use vstd::prelude::*;

verus! {

/// A statement of `rustpython_ast`.
#[verifier::external_type_specification]
#[verifier::external_body]
#[verifier::reject_recursive_types(R)]
pub struct ExStmt<R>(rustpython_ast::Stmt<R>);

/// An expression of `rustpython_ast`.
#[verifier::external_type_specification]
#[verifier::external_body]
#[verifier::reject_recursive_types(R)]
pub struct ExExpr<R>(rustpython_ast::Expr<R>);

/// A function definition of `rustpython_ast`.
#[verifier::external_type_specification]
#[verifier::external_body]
#[verifier::reject_recursive_types(R)]
pub struct ExStmtFunctionDef<R>(rustpython_ast::StmtFunctionDef<R>);

/// A class definition of `rustpython_ast`.
#[verifier::external_type_specification]
#[verifier::external_body]
#[verifier::reject_recursive_types(R)]
pub struct ExStmtClassDef<R>(rustpython_ast::StmtClassDef<R>);

/// A `from` import of `rustpython_ast`.
#[verifier::external_type_specification]
#[verifier::external_body]
#[verifier::reject_recursive_types(R)]
pub struct ExStmtImportFrom<R>(rustpython_ast::StmtImportFrom<R>);

/// An imported name of `rustpython_ast`.
#[verifier::external_type_specification]
#[verifier::external_body]
#[verifier::reject_recursive_types(R)]
pub struct ExAlias<R>(rustpython_ast::Alias<R>);

/// A parameter of `rustpython_ast`, with its default.
#[verifier::external_type_specification]
#[verifier::external_body]
#[verifier::reject_recursive_types(R)]
pub struct ExArgWithDefault<R>(rustpython_ast::ArgWithDefault<R>);

/// A range of `rustpython_ast`.
#[verifier::external_type_specification]
#[verifier::external_body]
pub struct ExTextRange(rustpython_ast::text_size::TextRange);

/// What is wrong with a text that is no Python module.
#[derive(Debug, PartialEq, Eq)]
pub struct SyntaxError {
    /// The byte at which the error was found.
    pub offset: usize,
    /// The error without its place.
    pub error: String,
    /// The error with its place.
    pub message: String,
}

/// What a [`SyntaxError`] says.
pub ghost struct SyntaxProblem {
    pub offset: nat,
    pub error: Seq<char>,
    pub message: Seq<char>,
}

impl View for SyntaxError {
    type V = SyntaxProblem;

    open spec fn view(&self) -> SyntaxProblem {
        SyntaxProblem {
            offset: self.offset as nat,
            error: self.error@,
            message: self.message@,
        }
    }
}

/// The kind of an expression, with what it holds besides sub-expressions.
#[derive(Debug, PartialEq, Eq)]
pub enum ExpressionForm {
    Name { id: String, span: Span },
    Attribute { attr: String },
    Subscript,
    Tuple,
    List,
    Other,
}

/// The kind of a statement, with what it holds besides the nodes that are visited inside it.
#[derive(Debug, PartialEq, Eq)]
pub enum StatementForm {
    FunctionDef { name: String, span: Span, params: Vec<Param>, return_type: Option<Expression> },
    ClassDef { name: String, span: Span },
    Assign,
    Import { names: Vec<ImportedName> },
    ImportFrom { module: Option<String>, level: usize, names: Vec<ImportedName> },
    Other,
}

/// What an [`ExpressionForm`] says.
pub ghost enum FormView {
    Name { id: Seq<char>, span: Span },
    Attribute { attr: Seq<char> },
    Subscript,
    Tuple,
    List,
    Other,
}

impl View for ExpressionForm {
    type V = FormView;

    open spec fn view(&self) -> FormView {
        match *self {
            ExpressionForm::Name { id, span } => FormView::Name { id: id@, span },
            ExpressionForm::Attribute { attr } => FormView::Attribute { attr: attr@ },
            ExpressionForm::Subscript => FormView::Subscript,
            ExpressionForm::Tuple => FormView::Tuple,
            ExpressionForm::List => FormView::List,
            ExpressionForm::Other => FormView::Other,
        }
    }
}

/// The expressions among a row of nodes.
pub open spec fn expressions(nodes: Seq<NodeView>) -> Seq<ExpressionView>
    decreases nodes.len(),
{
    if nodes.len() == 0 {
        Seq::empty()
    } else {
        match nodes.last() {
            NodeView::Expression(expr) => expressions(nodes.drop_last()).push(expr),
            NodeView::Statement(_) => expressions(nodes.drop_last()),
        }
    }
}

/// The expression of a form over its operands. An attribute has one operand, its value, and a
/// subscript has two, its value and its slice; with another number of operands they count as
/// expressions of any other kind.
pub open spec fn assembled_expression(
    form: FormView,
    label: Seq<char>,
    operands: Seq<ExpressionView>,
) -> ExpressionView {
    match form {
        FormView::Name { id, span } => ExpressionView::Name { id, span },
        FormView::Attribute { attr } => if operands.len() == 1 {
            ExpressionView::Attribute { value: Box::new(operands[0]), attr }
        } else {
            ExpressionView::Other { label, operands }
        },
        FormView::Subscript => if operands.len() == 2 {
            ExpressionView::Subscript {
                value: Box::new(operands[0]),
                slice: Box::new(operands[1]),
            }
        } else {
            ExpressionView::Other { label, operands }
        },
        FormView::Tuple => ExpressionView::Tuple { elts: operands },
        FormView::List => ExpressionView::List { label, elts: operands },
        FormView::Other => ExpressionView::Other { label, operands },
    }
}

/// The statement of a form over the nodes inside it. The last expression of an assignment is its
/// value and those before are its targets; without an expression it counts as a statement of any
/// other kind.
pub open spec fn assembled_statement(form: StatementForm, nodes: Seq<NodeView>) -> StatementView {
    match form {
        StatementForm::FunctionDef { name, span, params, return_type } => {
            StatementView::FunctionDef {
                name: name@,
                span,
                params: param_views(params@),
                return_type: optional_expression(return_type),
                nodes,
            }
        },
        StatementForm::ClassDef { name, span } => StatementView::ClassDef {
            name: name@,
            span,
            nodes,
        },
        StatementForm::Assign => if expressions(nodes).len() == 0 {
            StatementView::Other { nodes: Seq::empty() }
        } else {
            StatementView::Assign {
                targets: expressions(nodes).drop_last(),
                value: expressions(nodes).last(),
            }
        },
        StatementForm::Import { names } => StatementView::Import { names: imported_views(names@) },
        StatementForm::ImportFrom { module, level, names } => StatementView::ImportFrom {
            module: optional_text(module),
            level,
            names: imported_views(names@),
        },
        StatementForm::Other => StatementView::Other { nodes },
    }
}

/// Picks the expressions out of a row of nodes.
fn pick_expressions(nodes: Vec<Node>) -> (exprs: Vec<Expression>)
    ensures
        expression_views(exprs@) == expressions(node_views(nodes@)),
{
    let mut exprs: Vec<Expression> = Vec::new();
    assert(node_views(nodes@.take(0)) =~= Seq::empty());
    for node in it: nodes.into_iter()
        invariant
            it.seq() == nodes@,
            expression_views(exprs@) == expressions(node_views(nodes@.take(it.index()))),
    {
        let ghost seen = node_views(nodes@.take(it.index()));
        proof {
            lemma_node_views_step(nodes@, it.index());
            assert(seen.push(node@).drop_last() =~= seen);
        }
        match node {
            Node::Expression(expr) => {
                proof {
                    lemma_expression_views_push(exprs@, expr);
                }
                exprs.push(expr);
            },
            Node::Statement(_) => {},
        }
    }
    assert(nodes@.take(nodes@.len() as int) =~= nodes@);
    exprs
}

/// Builds an expression from its form and its operands.
pub fn assemble_expression(
    form: ExpressionForm,
    label: String,
    operands: Vec<Expression>,
) -> (expr: Expression)
    ensures
        expr@ == assembled_expression(form@, label@, expression_views(operands@)),
{
    let ghost all = operands@;
    proof {
        lemma_expression_views(all);
    }
    let mut operands = operands;
    match form {
        ExpressionForm::Name { id, span } => Expression::Name { id, span },
        ExpressionForm::Attribute { attr } => {
            if operands.len() == 1 {
                match operands.pop() {
                    Some(value) => {
                        assert(value == all[0]);
                        Expression::Attribute { value: Box::new(value), attr }
                    },
                    None => Expression::Other { label, operands },
                }
            } else {
                Expression::Other { label, operands }
            }
        },
        ExpressionForm::Subscript => {
            if operands.len() == 2 {
                match (operands.pop(), operands.pop()) {
                    (Some(slice), Some(value)) => {
                        proof {
                            assert(value == all[0] && slice == all[1]);
                            assert(expression_views(all)[0] == value@);
                            assert(expression_views(all)[1] == slice@);
                        }
                        Expression::Subscript { value: Box::new(value), slice: Box::new(slice) }
                    },
                    _ => Expression::Other { label, operands },
                }
            } else {
                Expression::Other { label, operands }
            }
        },
        ExpressionForm::Tuple => Expression::Tuple { elts: operands },
        ExpressionForm::List => Expression::List { label, elts: operands },
        ExpressionForm::Other => Expression::Other { label, operands },
    }
}

/// Builds a statement from its form and the nodes inside it.
pub fn assemble_statement(form: StatementForm, nodes: Vec<Node>) -> (stmt: Statement)
    ensures
        stmt@ == assembled_statement(form, node_views(nodes@)),
{
    match form {
        StatementForm::FunctionDef { name, span, params, return_type } => Statement::FunctionDef {
            name,
            span,
            params,
            return_type,
            nodes,
        },
        StatementForm::ClassDef { name, span } => Statement::ClassDef { name, span, nodes },
        StatementForm::Assign => {
            let mut exprs = pick_expressions(nodes);
            let ghost all = exprs@;
            proof {
                lemma_expression_views(all);
            }
            match exprs.pop() {
                Some(value) => {
                    proof {
                        assert(exprs@ =~= all.drop_last());
                        assert(expression_views(all).drop_last() =~= expression_views(exprs@));
                    }
                    Statement::Assign { targets: exprs, value }
                },
                None => {
                    let none: Vec<Node> = Vec::new();
                    assert(node_views(none@) =~= Seq::empty());
                    Statement::Other { nodes: none }
                },
            }
        },
        StatementForm::Import { names } => Statement::Import { names },
        StatementForm::ImportFrom { module, level, names } => {
            Statement::ImportFrom { module, level, names }
        },
        StatementForm::Other => Statement::Other { nodes },
    }
}

/// A statement of the outside tree with its variant told apart.
pub enum Opened<'a> {
    FunctionDef(&'a rustpython_ast::StmtFunctionDef),
    ClassDef(&'a rustpython_ast::StmtClassDef),
    Assign,
    Import(&'a Vec<rustpython_ast::Alias>),
    ImportFrom(&'a rustpython_ast::StmtImportFrom),
    Other,
}

/// The variant of a statement of the outside tree, with what it holds.
pub ghost enum Variant {
    FunctionDef(rustpython_ast::StmtFunctionDef),
    ClassDef(rustpython_ast::StmtClassDef),
    Assign,
    Import(Seq<rustpython_ast::Alias>),
    ImportFrom(rustpython_ast::StmtImportFrom),
    Other,
}

impl View for Opened<'_> {
    type V = Variant;

    open spec fn view(&self) -> Variant {
        match *self {
            Opened::FunctionDef(node) => Variant::FunctionDef(*node),
            Opened::ClassDef(node) => Variant::ClassDef(*node),
            Opened::Assign => Variant::Assign,
            Opened::Import(aliases) => Variant::Import(aliases@),
            Opened::ImportFrom(node) => Variant::ImportFrom(*node),
            Opened::Other => Variant::Other,
        }
    }
}

/// A parameter of the outside tree, its annotation not yet read.
struct RawParam {
    name: String,
    span: Span,
    annotation: Option<Box<rustpython_ast::Expr>>,
}

/// A node of the outside tree.
pub ghost enum Part {
    Statement(rustpython_ast::Stmt),
    Expression(rustpython_ast::Expr),
}

/// The variant of a statement of the outside tree.
pub uninterp spec fn variant_of(statement: rustpython_ast::Stmt) -> Variant;

/// The fields `name` and `range` of a function definition.
pub uninterp spec fn function_head(node: rustpython_ast::StmtFunctionDef) -> (Seq<char>, Span);

/// The field `args.args` of a function definition.
pub uninterp spec fn function_args(node: rustpython_ast::StmtFunctionDef) -> Seq<
    rustpython_ast::ArgWithDefault,
>;

/// The fields `arg`, `range` and `annotation` of a parameter.
pub uninterp spec fn param_fields(param: rustpython_ast::ArgWithDefault) -> (
    Seq<char>,
    Span,
    Option<Box<rustpython_ast::Expr>>,
);

/// The field `returns` of a function definition.
pub uninterp spec fn function_returns(node: rustpython_ast::StmtFunctionDef) -> Option<
    Box<rustpython_ast::Expr>,
>;

/// The fields `name` and `range` of a class definition.
pub uninterp spec fn class_head(node: rustpython_ast::StmtClassDef) -> (Seq<char>, Span);

/// The fields `name`, `asname` and `range` of an imported name.
pub uninterp spec fn alias_fields(alias: rustpython_ast::Alias) -> (
    Seq<char>,
    Option<Seq<char>>,
    Span,
);

/// The fields `module`, `level` and `names` of a `from` import.
pub uninterp spec fn import_fields(node: rustpython_ast::StmtImportFrom) -> (
    Option<Seq<char>>,
    Option<usize>,
    Seq<rustpython_ast::Alias>,
);

/// The variant of an expression of the outside tree, with its fields.
pub uninterp spec fn form_of(expression: rustpython_ast::Expr) -> FormView;

/// The short name for the kind of an expression of the outside tree.
pub uninterp spec fn label_of(expression: rustpython_ast::Expr) -> Seq<char>;

/// The nodes that `generic_visit_stmt` hands to `visit_stmt` and `visit_expr`, in this order, on
/// a visitor that has no other method of its own.
pub uninterp spec fn parts_of_statement(statement: rustpython_ast::Stmt) -> Seq<Part>;

/// The nodes that `generic_visit_expr` hands to `visit_stmt` and `visit_expr`, in this order, on
/// a visitor that has no other method of its own.
pub uninterp spec fn parts_of_expression(expression: rustpython_ast::Expr) -> Seq<Part>;

/// The expressions among a row of nodes of the outside tree.
pub open spec fn expression_parts(parts: Seq<Part>) -> Seq<rustpython_ast::Expr>
    decreases parts.len(),
{
    if parts.len() == 0 {
        Seq::empty()
    } else {
        match parts.last() {
            Part::Expression(expression) => expression_parts(parts.drop_last()).push(expression),
            Part::Statement(_) => expression_parts(parts.drop_last()),
        }
    }
}

/// Whether `read` is an expression of the outside tree, read in full.
pub open spec fn reads_expression(outside: rustpython_ast::Expr, read: ExpressionView) -> bool
    decreases read,
{
    let parts = expression_parts(parts_of_expression(outside));
    match read {
        ExpressionView::Name { id, span } => form_of(outside) == (FormView::Name { id, span }),
        ExpressionView::Attribute { value, attr } => {
            &&& form_of(outside) == (FormView::Attribute { attr })
            &&& parts.len() == 1
            &&& reads_expression(parts[0], *value)
        },
        ExpressionView::Subscript { value, slice } => {
            &&& form_of(outside) is Subscript
            &&& parts.len() == 2
            &&& reads_expression(parts[0], *value)
            &&& reads_expression(parts[1], *slice)
        },
        ExpressionView::Tuple { elts } => {
            &&& form_of(outside) is Tuple
            &&& reads_expressions(parts, elts)
        },
        ExpressionView::List { label, elts } => {
            &&& form_of(outside) is List
            &&& label == label_of(outside)
            &&& reads_expressions(parts, elts)
        },
        ExpressionView::Other { label, operands } => {
            &&& match form_of(outside) {
                FormView::Attribute { .. } => parts.len() != 1,
                FormView::Subscript => parts.len() != 2,
                form => form is Other,
            }
            &&& label == label_of(outside)
            &&& reads_expressions(parts, operands)
        },
    }
}

/// Whether `read` are expressions of the outside tree, each read in full.
pub open spec fn reads_expressions(
    outside: Seq<rustpython_ast::Expr>,
    read: Seq<ExpressionView>,
) -> bool
    decreases read,
{
    if read.len() == 0 {
        outside.len() == 0
    } else {
        &&& outside.len() > 0
        &&& reads_expressions(outside.drop_last(), read.drop_last())
        &&& reads_expression(outside.last(), read.last())
    }
}

/// Whether `read` is an optional expression of the outside tree, read in full.
pub open spec fn reads_optional(
    outside: Option<Box<rustpython_ast::Expr>>,
    read: Option<ExpressionView>,
) -> bool {
    match (outside, read) {
        (Some(outside), Some(read)) => reads_expression(*outside, read),
        (None, None) => true,
        _ => false,
    }
}

/// Whether `read` is a parameter of the outside tree, read in full.
pub open spec fn reads_param(outside: rustpython_ast::ArgWithDefault, read: ParamView) -> bool {
    let (name, span, annotation) = param_fields(outside);
    &&& read.name == name
    &&& read.span == span
    &&& reads_optional(annotation, read.annotation)
}

/// Whether `read` are parameters of the outside tree, each read in full.
pub open spec fn reads_params(
    outside: Seq<rustpython_ast::ArgWithDefault>,
    read: Seq<ParamView>,
) -> bool {
    &&& outside.len() == read.len()
    &&& forall|i: int| 0 <= i < read.len() ==> reads_param(outside[i], #[trigger] read[i])
}

/// Whether `read` are imported names of the outside tree.
pub open spec fn reads_names(
    outside: Seq<rustpython_ast::Alias>,
    read: Seq<ImportedNameView>,
) -> bool {
    &&& outside.len() == read.len()
    &&& forall|i: int|
        0 <= i < read.len() ==> alias_fields(outside[i]) == (
            (#[trigger] read[i]).name,
            read[i].asname,
            read[i].span,
        )
}

/// Whether `read` is a statement of the outside tree, read in full. The level of a `from` import
/// that has none is zero.
pub open spec fn reads_statement(outside: rustpython_ast::Stmt, read: StatementView) -> bool
    decreases read,
{
    let parts = parts_of_statement(outside);
    match (variant_of(outside), read) {
        (
            Variant::FunctionDef(node),
            StatementView::FunctionDef { name, span, params, return_type, nodes },
        ) => {
            &&& function_head(node) == (name, span)
            &&& reads_params(function_args(node), params)
            &&& reads_optional(function_returns(node), return_type)
            &&& reads_nodes(parts, nodes)
        },
        (Variant::ClassDef(node), StatementView::ClassDef { name, span, nodes }) => {
            &&& class_head(node) == (name, span)
            &&& reads_nodes(parts, nodes)
        },
        (Variant::Assign, StatementView::Assign { targets, value }) => {
            &&& expression_parts(parts).len() > 0
            &&& reads_expressions(expression_parts(parts).drop_last(), targets)
            &&& reads_expression(expression_parts(parts).last(), value)
        },
        (Variant::Assign, StatementView::Other { nodes }) => {
            expression_parts(parts).len() == 0 && nodes.len() == 0
        },
        (Variant::Import(aliases), StatementView::Import { names }) => reads_names(aliases, names),
        (Variant::ImportFrom(node), StatementView::ImportFrom { module, level, names }) => {
            let (from, dots, aliases) = import_fields(node);
            &&& module == from
            &&& level == (match dots {
                Some(dots) => dots,
                None => 0,
            })
            &&& reads_names(aliases, names)
        },
        (Variant::Other, StatementView::Other { nodes }) => reads_nodes(parts, nodes),
        _ => false,
    }
}

/// Whether `read` is a node of the outside tree, read in full.
pub open spec fn reads_node(outside: Part, read: NodeView) -> bool
    decreases read,
{
    match (outside, read) {
        (Part::Statement(outside), NodeView::Statement(read)) => reads_statement(outside, read),
        (Part::Expression(outside), NodeView::Expression(read)) => reads_expression(outside, read),
        _ => false,
    }
}

/// Whether `read` are nodes of the outside tree, each read in full.
pub open spec fn reads_nodes(outside: Seq<Part>, read: Seq<NodeView>) -> bool
    decreases read,
{
    if read.len() == 0 {
        outside.len() == 0
    } else {
        &&& outside.len() > 0
        &&& reads_nodes(outside.drop_last(), read.drop_last())
        &&& reads_node(outside.last(), read.last())
    }
}

/// Whether `read` is a module of the outside tree: each of its statements read in full, in their
/// order.
pub open spec fn reads_suite(outside: Seq<rustpython_ast::Stmt>, read: Seq<NodeView>) -> bool {
    &&& outside.len() == read.len()
    &&& forall|i: int|
        0 <= i < read.len() ==> reads_node(Part::Statement(outside[i]), #[trigger] read[i])
}

/// The expressions among nodes that are read are the expressions among the nodes of the outside
/// tree.
proof fn lemma_expressions_are_read(outside: Seq<Part>, read: Seq<NodeView>)
    requires
        reads_nodes(outside, read),
    ensures
        reads_expressions(expression_parts(outside), expressions(read)),
    decreases read.len(),
{
    if read.len() > 0 {
        lemma_expressions_are_read(outside.drop_last(), read.drop_last());
        assert(reads_node(outside.last(), read.last()));
        match (outside.last(), read.last()) {
            (Part::Expression(part), NodeView::Expression(node)) => {
                let parts = expression_parts(outside.drop_last());
                let nodes = expressions(read.drop_last());
                assert(parts.push(part).drop_last() =~= parts);
                assert(nodes.push(node).drop_last() =~= nodes);
                assert(reads_expressions(parts.push(part), nodes.push(node)));
            },
            _ => {},
        }
    }
}

/// As many expressions are read as there are in the outside tree.
proof fn lemma_read_expressions_len(outside: Seq<rustpython_ast::Expr>, read: Seq<ExpressionView>)
    requires
        reads_expressions(outside, read),
    ensures
        outside.len() == read.len(),
    decreases read.len(),
{
    if read.len() > 0 {
        lemma_read_expressions_len(outside.drop_last(), read.drop_last());
    }
}

/// An expression that is assembled from the form of an expression of the outside tree and from
/// what was read inside it is that expression, read in full.
proof fn lemma_assembled_expression_is_read(
    outside: rustpython_ast::Expr,
    operands: Seq<ExpressionView>,
)
    requires
        reads_expressions(expression_parts(parts_of_expression(outside)), operands),
    ensures
        reads_expression(
            outside,
            assembled_expression(form_of(outside), label_of(outside), operands),
        ),
{
    let parts = expression_parts(parts_of_expression(outside));
    lemma_read_expressions_len(parts, operands);
    reveal_with_fuel(reads_expressions, 3);
    if operands.len() == 1 {
        assert(parts.last() == parts[0]);
    }
    if operands.len() == 2 {
        assert(parts.drop_last().last() == parts[0]);
        assert(operands.drop_last().last() == operands[0]);
    }
}

proof fn lemma_one_reading_of_expression(
    outside: rustpython_ast::Expr,
    a: ExpressionView,
    b: ExpressionView,
)
    requires
        reads_expression(outside, a),
        reads_expression(outside, b),
    ensures
        a == b,
    decreases a, 1nat,
{
    let parts = expression_parts(parts_of_expression(outside));
    match (a, b) {
        (
            ExpressionView::Attribute { value, .. },
            ExpressionView::Attribute { value: value2, .. },
        ) => lemma_one_reading_of_expression(parts[0], *value, *value2),
        (
            ExpressionView::Subscript { value, slice },
            ExpressionView::Subscript { value: value2, slice: slice2 },
        ) => {
            lemma_one_reading_of_expression(parts[0], *value, *value2);
            lemma_one_reading_of_expression(parts[1], *slice, *slice2);
        },
        (ExpressionView::Tuple { elts }, ExpressionView::Tuple { elts: elts2 }) => {
            lemma_one_reading_of_expressions(parts, elts, elts2);
        },
        (ExpressionView::List { elts, .. }, ExpressionView::List { elts: elts2, .. }) => {
            lemma_one_reading_of_expressions(parts, elts, elts2);
        },
        (
            ExpressionView::Other { operands, .. },
            ExpressionView::Other { operands: operands2, .. },
        ) => lemma_one_reading_of_expressions(parts, operands, operands2),
        _ => {},
    }
}

proof fn lemma_one_reading_of_expressions(
    outside: Seq<rustpython_ast::Expr>,
    a: Seq<ExpressionView>,
    b: Seq<ExpressionView>,
)
    requires
        reads_expressions(outside, a),
        reads_expressions(outside, b),
    ensures
        a == b,
    decreases a, 0nat,
{
    lemma_read_expressions_len(outside, a);
    lemma_read_expressions_len(outside, b);
    if a.len() > 0 {
        lemma_one_reading_of_expressions(outside.drop_last(), a.drop_last(), b.drop_last());
        lemma_one_reading_of_expression(outside.last(), a.last(), b.last());
        assert(a =~= a.drop_last().push(a.last()));
        assert(b =~= b.drop_last().push(b.last()));
    } else {
        assert(a =~= b);
    }
}

proof fn lemma_one_reading_of_optional(
    outside: Option<Box<rustpython_ast::Expr>>,
    a: Option<ExpressionView>,
    b: Option<ExpressionView>,
)
    requires
        reads_optional(outside, a),
        reads_optional(outside, b),
    ensures
        a == b,
{
    if let (Some(outside), Some(a), Some(b)) = (outside, a, b) {
        lemma_one_reading_of_expression(*outside, a, b);
    }
}

proof fn lemma_one_reading_of_params(
    outside: Seq<rustpython_ast::ArgWithDefault>,
    a: Seq<ParamView>,
    b: Seq<ParamView>,
)
    requires
        reads_params(outside, a),
        reads_params(outside, b),
    ensures
        a == b,
{
    assert forall|i: int| 0 <= i < a.len() implies a[i] == b[i] by {
        assert(reads_param(outside[i], a[i]) && reads_param(outside[i], b[i]));
        let (_, _, annotation) = param_fields(outside[i]);
        lemma_one_reading_of_optional(annotation, a[i].annotation, b[i].annotation);
    }
    assert(a =~= b);
}

proof fn lemma_one_reading_of_names(
    outside: Seq<rustpython_ast::Alias>,
    a: Seq<ImportedNameView>,
    b: Seq<ImportedNameView>,
)
    requires
        reads_names(outside, a),
        reads_names(outside, b),
    ensures
        a == b,
{
    assert forall|i: int| 0 <= i < a.len() implies a[i] == b[i] by {
        assert(alias_fields(outside[i]) == (a[i].name, a[i].asname, a[i].span));
        assert(alias_fields(outside[i]) == (b[i].name, b[i].asname, b[i].span));
    }
    assert(a =~= b);
}

proof fn lemma_one_reading_of_statement(
    outside: rustpython_ast::Stmt,
    a: StatementView,
    b: StatementView,
)
    requires
        reads_statement(outside, a),
        reads_statement(outside, b),
    ensures
        a == b,
    decreases a, 2nat,
{
    let parts = parts_of_statement(outside);
    match (variant_of(outside), a, b) {
        (
            Variant::FunctionDef(node),
            StatementView::FunctionDef { params, return_type, nodes, .. },
            StatementView::FunctionDef {
                params: params2,
                return_type: return_type2,
                nodes: nodes2,
                ..
            },
        ) => {
            lemma_one_reading_of_params(function_args(node), params, params2);
            lemma_one_reading_of_optional(function_returns(node), return_type, return_type2);
            lemma_one_reading_of_nodes(parts, nodes, nodes2);
        },
        (
            Variant::ClassDef(_),
            StatementView::ClassDef { nodes, .. },
            StatementView::ClassDef { nodes: nodes2, .. },
        ) => lemma_one_reading_of_nodes(parts, nodes, nodes2),
        (
            Variant::Assign,
            StatementView::Assign { targets, value },
            StatementView::Assign { targets: targets2, value: value2 },
        ) => {
            let inside = expression_parts(parts);
            lemma_one_reading_of_expressions(inside.drop_last(), targets, targets2);
            lemma_one_reading_of_expression(inside.last(), value, value2);
        },
        (
            Variant::Assign,
            StatementView::Other { nodes },
            StatementView::Other { nodes: nodes2 },
        ) => {
            assert(nodes =~= nodes2);
        },
        (
            Variant::Import(aliases),
            StatementView::Import { names },
            StatementView::Import { names: names2 },
        ) => lemma_one_reading_of_names(aliases, names, names2),
        (
            Variant::ImportFrom(node),
            StatementView::ImportFrom { names, .. },
            StatementView::ImportFrom { names: names2, .. },
        ) => {
            let (_, _, aliases) = import_fields(node);
            lemma_one_reading_of_names(aliases, names, names2);
        },
        (
            Variant::Other,
            StatementView::Other { nodes },
            StatementView::Other { nodes: nodes2 },
        ) => lemma_one_reading_of_nodes(parts, nodes, nodes2),
        _ => {},
    }
}

proof fn lemma_one_reading_of_node(outside: Part, a: NodeView, b: NodeView)
    requires
        reads_node(outside, a),
        reads_node(outside, b),
    ensures
        a == b,
    decreases a, 1nat,
{
    match (outside, a, b) {
        (Part::Statement(outside), NodeView::Statement(a), NodeView::Statement(b)) => {
            lemma_one_reading_of_statement(outside, a, b);
        },
        (Part::Expression(outside), NodeView::Expression(a), NodeView::Expression(b)) => {
            lemma_one_reading_of_expression(outside, a, b);
        },
        _ => {},
    }
}

proof fn lemma_one_reading_of_nodes(outside: Seq<Part>, a: Seq<NodeView>, b: Seq<NodeView>)
    requires
        reads_nodes(outside, a),
        reads_nodes(outside, b),
    ensures
        a == b,
    decreases a, 0nat,
{
    if a.len() > 0 && b.len() > 0 {
        lemma_one_reading_of_nodes(outside.drop_last(), a.drop_last(), b.drop_last());
        lemma_one_reading_of_node(outside.last(), a.last(), b.last());
        assert(a =~= a.drop_last().push(a.last()));
        assert(b =~= b.drop_last().push(b.last()));
    } else {
        assert(a =~= b);
    }
}

/// A module can be read in one way only.
pub proof fn law_one_reading_of_a_module(
    outside: Seq<rustpython_ast::Stmt>,
    a: Seq<NodeView>,
    b: Seq<NodeView>,
)
    requires
        reads_suite(outside, a),
        reads_suite(outside, b),
    ensures
        a == b,
{
    assert forall|i: int| 0 <= i < a.len() implies a[i] == b[i] by {
        assert(reads_node(Part::Statement(outside[i]), a[i]));
        assert(reads_node(Part::Statement(outside[i]), b[i]));
        lemma_one_reading_of_node(Part::Statement(outside[i]), a[i], b[i]);
    }
    assert(a =~= b);
}

/// Tells the variants of `rustpython_ast::Stmt` apart.
#[verifier::external_body]
fn open_statement(statement: &rustpython_ast::Stmt) -> (opened: Opened<'_>)
    ensures
        opened@ == variant_of(*statement),
{
    match statement {
        rustpython_ast::Stmt::FunctionDef(node) => Opened::FunctionDef(node),
        rustpython_ast::Stmt::ClassDef(node) => Opened::ClassDef(node),
        rustpython_ast::Stmt::Assign(_) => Opened::Assign,
        rustpython_ast::Stmt::Import(node) => Opened::Import(&node.names),
        rustpython_ast::Stmt::ImportFrom(node) => Opened::ImportFrom(node),
        _ => Opened::Other,
    }
}

/// The fields `name` and `range` of `rustpython_ast::StmtFunctionDef`.
#[verifier::external_body]
fn function_name(node: &rustpython_ast::StmtFunctionDef) -> (name: (String, Span))
    ensures
        (name.0@, name.1) == function_head(*node),
{
    let span = Span { start: node.range.start().to_u32(), end: node.range.end().to_u32() };
    (node.name.to_string(), span)
}

/// The field `args.args` of `rustpython_ast::StmtFunctionDef`: the parameters that can be
/// given by position or by keyword.
#[verifier::external_body]
fn function_params(node: &rustpython_ast::StmtFunctionDef) -> (params: &Vec<
    rustpython_ast::ArgWithDefault,
>)
    ensures
        params@ == function_args(*node),
{
    &node.args.args
}

/// The fields `arg`, `range` and `annotation` of the `def` of `rustpython_ast::ArgWithDefault`.
#[verifier::external_body]
fn open_param(param: &rustpython_ast::ArgWithDefault) -> (raw: RawParam)
    ensures
        (raw.name@, raw.span, raw.annotation) == param_fields(*param),
{
    let range = param.def.range;
    RawParam {
        name: param.def.arg.to_string(),
        span: Span { start: range.start().to_u32(), end: range.end().to_u32() },
        annotation: param.def.annotation.clone(),
    }
}

/// The field `returns` of `rustpython_ast::StmtFunctionDef`.
#[verifier::external_body]
fn function_return_type(node: &rustpython_ast::StmtFunctionDef) -> (return_type: Option<
    Box<rustpython_ast::Expr>,
>)
    ensures
        return_type == function_returns(*node),
{
    node.returns.clone()
}

/// The fields `name` and `range` of `rustpython_ast::StmtClassDef`.
#[verifier::external_body]
fn class_name(node: &rustpython_ast::StmtClassDef) -> (name: (String, Span))
    ensures
        (name.0@, name.1) == class_head(*node),
{
    let span = Span { start: node.range.start().to_u32(), end: node.range.end().to_u32() };
    (node.name.to_string(), span)
}

/// The fields `name`, `asname` and `range` of `rustpython_ast::Alias`.
#[verifier::external_body]
fn open_alias(alias: &rustpython_ast::Alias) -> (name: ImportedName)
    ensures
        (name@.name, name@.asname, name@.span) == alias_fields(*alias),
{
    ImportedName {
        name: alias.name.to_string(),
        asname: alias.asname.as_ref().map(|asname| asname.to_string()),
        span: Span { start: alias.range.start().to_u32(), end: alias.range.end().to_u32() },
    }
}

/// The fields `module`, `level` and `names` of `rustpython_ast::StmtImportFrom`.
#[verifier::external_body]
fn import_source(node: &rustpython_ast::StmtImportFrom) -> (source: (
    Option<String>,
    Option<usize>,
    &Vec<rustpython_ast::Alias>,
))
    ensures
        (optional_text(source.0), source.1, source.2@) == import_fields(*node),
{
    let module = node.module.as_ref().map(|module| module.to_string());
    (module, node.level.as_ref().map(|level| level.to_usize()), &node.names)
}

/// Tells the variants of `rustpython_ast::Expr` apart.
#[verifier::external_body]
fn expression_form(expression: &rustpython_ast::Expr) -> (form: ExpressionForm)
    ensures
        form@ == form_of(*expression),
{
    match expression {
        rustpython_ast::Expr::Name(node) => ExpressionForm::Name {
            id: node.id.to_string(),
            span: Span { start: node.range.start().to_u32(), end: node.range.end().to_u32() },
        },
        rustpython_ast::Expr::Attribute(node) => ExpressionForm::Attribute {
            attr: node.attr.to_string(),
        },
        rustpython_ast::Expr::Subscript(_) => ExpressionForm::Subscript,
        rustpython_ast::Expr::Tuple(_) => ExpressionForm::Tuple,
        rustpython_ast::Expr::List(_) => ExpressionForm::List,
        _ => ExpressionForm::Other,
    }
}

/// `rustpython_ast::Expr::python_name`: a short name for the kind of an expression.
#[verifier::external_body]
fn expression_label(expression: &rustpython_ast::Expr) -> (label: String)
    ensures
        label@ == label_of(*expression),
{
    expression.python_name().to_string()
}

/// Collects the nodes that `rustpython_ast::Visitor` hands to it, each with what lies inside.
pub struct NodeCollector {
    nodes: Vec<Node>,
}

impl NodeCollector {
    /// The nodes that were collected so far.
    pub closed spec fn collected(&self) -> Seq<NodeView> {
        node_views(self.nodes@)
    }
}

impl Visitor for NodeCollector {
    fn visit_stmt(&mut self, statement: rustpython_ast::Stmt)
        ensures
            final(self).collected().len() == old(self).collected().len() + 1,
            final(self).collected().drop_last() == old(self).collected(),
            reads_node(Part::Statement(statement), final(self).collected().last()),
    {
        let node = Node::Statement(read_statement(statement));
        assert(reads_node(Part::Statement(statement), node@));
        self.nodes.push(node);
        proof {
            assert(self.nodes@.drop_last() =~= old(self).nodes@);
            assert(self.collected().drop_last() =~= old(self).collected());
        }
    }

    fn visit_expr(&mut self, expression: rustpython_ast::Expr)
        ensures
            final(self).collected().len() == old(self).collected().len() + 1,
            final(self).collected().drop_last() == old(self).collected(),
            reads_node(Part::Expression(expression), final(self).collected().last()),
    {
        let node = Node::Expression(read_expression(expression));
        assert(reads_node(Part::Expression(expression), node@));
        self.nodes.push(node);
        proof {
            assert(self.nodes@.drop_last() =~= old(self).nodes@);
            assert(self.collected().drop_last() =~= old(self).collected());
        }
    }
}

/// `rustpython_ast::Visitor::generic_visit_stmt`: the nodes that are visited inside a
/// statement. The claim is that the collector gets each of them once, in their order.
#[verifier::external_body]
fn nodes_inside_statement(statement: rustpython_ast::Stmt) -> (nodes: Vec<Node>)
    ensures
        reads_nodes(parts_of_statement(statement), node_views(nodes@)),
{
    let mut collector = NodeCollector { nodes: Vec::new() };
    collector.generic_visit_stmt(statement);
    collector.nodes
}

/// `rustpython_ast::Visitor::generic_visit_expr`: the nodes that are visited inside an
/// expression. The claim is that the collector gets each of them once, in their order.
#[verifier::external_body]
fn nodes_inside_expression(expression: rustpython_ast::Expr) -> (nodes: Vec<Node>)
    ensures
        reads_nodes(parts_of_expression(expression), node_views(nodes@)),
{
    let mut collector = NodeCollector { nodes: Vec::new() };
    collector.generic_visit_expr(expression);
    collector.nodes
}

/// Reads an expression of the outside tree.
fn read_expression(expression: rustpython_ast::Expr) -> (read: Expression)
    ensures
        reads_expression(expression, read@),
{
    let form = expression_form(&expression);
    let label = expression_label(&expression);
    let nodes = nodes_inside_expression(expression);
    proof {
        lemma_expressions_are_read(parts_of_expression(expression), node_views(nodes@));
    }
    let operands = pick_expressions(nodes);
    proof {
        lemma_assembled_expression_is_read(expression, expression_views(operands@));
    }
    assemble_expression(form, label, operands)
}

/// Reads an optional expression of the outside tree.
fn read_optional(expression: Option<Box<rustpython_ast::Expr>>) -> (read: Option<Expression>)
    ensures
        reads_optional(expression, optional_expression(read)),
{
    match expression {
        Some(expression) => Some(read_expression(*expression)),
        None => None,
    }
}

/// Reads the parameters of a function of the outside tree.
fn read_params(params: &Vec<rustpython_ast::ArgWithDefault>) -> (read: Vec<Param>)
    ensures
        reads_params(params@, param_views(read@)),
{
    let mut read: Vec<Param> = Vec::new();
    let mut i: usize = 0;
    while i < params.len()
        invariant
            i <= params@.len(),
            read@.len() == i,
            forall|j: int| 0 <= j < i ==> reads_param(params@[j], (#[trigger] read@[j])@),
        decreases params.len() - i,
    {
        let RawParam { name, span, annotation } = open_param(&params[i]);
        read.push(Param { name, span, annotation: read_optional(annotation) });
        i = i + 1;
    }
    assert forall|j: int| 0 <= j < read@.len() implies reads_param(
        params@[j],
        #[trigger] param_views(read@)[j],
    ) by {
        assert(param_views(read@)[j] == read@[j]@);
    }
    read
}

/// Reads the names of an import of the outside tree.
fn read_names(aliases: &Vec<rustpython_ast::Alias>) -> (names: Vec<ImportedName>)
    ensures
        reads_names(aliases@, imported_views(names@)),
{
    let mut names: Vec<ImportedName> = Vec::new();
    let mut i: usize = 0;
    while i < aliases.len()
        invariant
            i <= aliases@.len(),
            names@.len() == i,
            forall|j: int|
                0 <= j < i ==> alias_fields(aliases@[j]) == (
                    (#[trigger] names@[j])@.name,
                    names@[j]@.asname,
                    names@[j]@.span,
                ),
        decreases aliases.len() - i,
    {
        names.push(open_alias(&aliases[i]));
        i = i + 1;
    }
    assert forall|j: int| 0 <= j < names@.len() implies alias_fields(aliases@[j]) == (
        (#[trigger] imported_views(names@)[j]).name,
        imported_views(names@)[j].asname,
        imported_views(names@)[j].span,
    ) by {
        assert(imported_views(names@)[j] == names@[j]@);
    }
    names
}

/// Reads a statement of the outside tree.
fn read_statement(statement: rustpython_ast::Stmt) -> (read: Statement)
    ensures
        reads_statement(statement, read@),
{
    let form = match open_statement(&statement) {
        Opened::FunctionDef(node) => {
            let (name, span) = function_name(node);
            let params = read_params(function_params(node));
            let return_type = read_optional(function_return_type(node));
            StatementForm::FunctionDef { name, span, params, return_type }
        },
        Opened::ClassDef(node) => {
            let (name, span) = class_name(node);
            StatementForm::ClassDef { name, span }
        },
        Opened::Assign => StatementForm::Assign,
        Opened::Import(aliases) => StatementForm::Import { names: read_names(aliases) },
        Opened::ImportFrom(node) => {
            let (module, level, aliases) = import_source(node);
            let level: usize = match level {
                Some(level) => level,
                None => 0,
            };
            StatementForm::ImportFrom { module, level, names: read_names(aliases) }
        },
        Opened::Other => StatementForm::Other,
    };
    let nodes = nodes_inside_statement(statement);
    proof {
        let parts = parts_of_statement(statement);
        lemma_expressions_are_read(parts, node_views(nodes@));
        lemma_read_expressions_len(expression_parts(parts), expressions(node_views(nodes@)));
    }
    assemble_statement(form, nodes)
}

/// Reads a module of the outside tree.
pub fn read_suite(suite: Vec<rustpython_ast::Stmt>) -> (nodes: Vec<Node>)
    ensures
        reads_suite(suite@, node_views(nodes@)),
{
    let mut nodes: Vec<Node> = Vec::new();
    for statement in it: suite.into_iter()
        invariant
            it.seq() == suite@,
            nodes@.len() == it.index(),
            forall|i: int|
                0 <= i < it.index() ==> reads_node(
                    Part::Statement(suite@[i]),
                    (#[trigger] nodes@[i])@,
                ),
    {
        let node = Node::Statement(read_statement(statement));
        assert(reads_node(Part::Statement(statement), node@));
        nodes.push(node);
    }
    proof {
        lemma_node_views(nodes@);
        assert forall|i: int| 0 <= i < nodes@.len() implies reads_node(
            Part::Statement(suite@[i]),
            #[trigger] node_views(nodes@)[i],
        ) by {
            assert(node_views(nodes@)[i] == nodes@[i]@);
        }
    }
    nodes
}

/// The statements of the module that a text holds, or what is wrong with it, as
/// `rustpython_parser` finds them.
pub uninterp spec fn parsed_suite(text: Seq<char>, path: Seq<char>) -> Result<
    Seq<rustpython_ast::Stmt>,
    SyntaxProblem,
>;

/// `rustpython_parser::Parse::parse` for a module. The claim is that the result depends on the
/// arguments alone. The parser counts offsets in 32 bits, so a longer text is left out.
#[verifier::external_body]
fn parse_suite(text: &str, path: &str) -> (suite: Result<Vec<rustpython_ast::Stmt>, SyntaxError>)
    requires
        byte_len(text@) <= u32::MAX,
    ensures
        match suite {
            Ok(suite) => parsed_suite(text@, path@) == Ok::<
                Seq<rustpython_ast::Stmt>,
                SyntaxProblem,
            >(suite@),
            Err(error) => parsed_suite(text@, path@) == Err::<
                Seq<rustpython_ast::Stmt>,
                SyntaxProblem,
            >(error@),
        },
{
    rustpython_ast::Suite::parse(text, path).map_err(|error| SyntaxError {
        offset: error.offset.to_usize(),
        error: error.error.to_string(),
        message: error.to_string(),
    })
}

/// Whether `found` is what the parser finds in a text: all statements of the module, in their
/// order and each read in full, or what is wrong.
pub open spec fn is_found(
    text: Seq<char>,
    path: Seq<char>,
    found: Result<Seq<NodeView>, SyntaxProblem>,
) -> bool {
    match (parsed_suite(text, path), found) {
        (Ok(suite), Ok(nodes)) => reads_suite(suite, nodes),
        (Err(problem), Err(found)) => problem == found,
        _ => false,
    }
}

/// What the parser finds in a text.
pub open spec fn parsed(text: Seq<char>, path: Seq<char>) -> Result<Seq<NodeView>, SyntaxProblem> {
    match parsed_suite(text, path) {
        Ok(suite) => Ok(choose|nodes: Seq<NodeView>| reads_suite(suite, nodes)),
        Err(problem) => Err(problem),
    }
}

/// The parser finds one thing only in a text.
pub proof fn law_one_thing_is_found(
    text: Seq<char>,
    path: Seq<char>,
    found: Result<Seq<NodeView>, SyntaxProblem>,
)
    requires
        is_found(text, path, found),
    ensures
        found == parsed(text, path),
{
    if let (Ok(suite), Ok(nodes)) = (parsed_suite(text, path), found) {
        let chosen = choose|nodes: Seq<NodeView>| reads_suite(suite, nodes);
        law_one_reading_of_a_module(suite, nodes, chosen);
    }
}

/// What a result of the parser says.
pub open spec fn found_view(found: Result<Vec<Node>, SyntaxError>) -> Result<
    Seq<NodeView>,
    SyntaxProblem,
> {
    match found {
        Ok(module) => Ok(node_views(module@)),
        Err(error) => Err(error@),
    }
}

/// Parses the text of a module.
pub fn parse_module(text: &str, path: &str) -> (module: Result<Vec<Node>, SyntaxError>)
    requires
        byte_len(text@) <= u32::MAX,
    ensures
        is_found(text@, path@, found_view(module)),
        found_view(module) == parsed(text@, path@),
{
    let module = match parse_suite(text, path) {
        Ok(suite) => Ok(read_suite(suite)),
        Err(error) => Err(error),
    };
    proof {
        law_one_thing_is_found(text@, path@, found_view(module));
    }
    module
}

} // verus!
