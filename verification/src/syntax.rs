use crate::binding::optional_text;
use crate::strings::joined;
use vstd::prelude::*;

verus! {

/// A stretch of bytes of a source text, from `start` up to but without `end`.
#[derive(Clone, Copy, Debug, PartialEq, Eq, Structural)]
pub struct Span {
    pub start: u32,
    pub end: u32,
}

impl Span {
    /// Whether the span covers the byte at `offset`.
    pub open spec fn covers(self, offset: u32) -> bool {
        self.start <= offset < self.end
    }

    /// Whether the span covers the byte at `offset`.
    pub fn contains(self, offset: u32) -> (inside: bool)
        ensures
            inside == self.covers(offset),
    {
        self.start <= offset && offset < self.end
    }
}

/// An expression. Its sub-expressions stand in the order in which they are visited.
#[derive(Debug, PartialEq, Eq)]
pub enum Expression {
    Name { id: String, span: Span },
    Attribute { value: Box<Expression>, attr: String },
    Subscript { value: Box<Expression>, slice: Box<Expression> },
    Tuple { elts: Vec<Expression> },
    List { label: String, elts: Vec<Expression> },
    /// Any other expression, under a short name for its kind.
    Other { label: String, operands: Vec<Expression> },
}

/// A parameter of a function that can be given by position or by keyword.
#[derive(Debug, PartialEq, Eq)]
pub struct Param {
    pub name: String,
    pub span: Span,
    pub annotation: Option<Expression>,
}

/// One name of an import statement: `name`, or `name as asname`.
#[derive(Debug, PartialEq, Eq)]
pub struct ImportedName {
    pub name: String,
    pub asname: Option<String>,
    pub span: Span,
}

/// A statement. What lies inside stands in the order in which it is visited.
#[derive(Debug, PartialEq, Eq)]
pub enum Statement {
    FunctionDef {
        name: String,
        span: Span,
        params: Vec<Param>,
        return_type: Option<Expression>,
        nodes: Vec<Node>,
    },
    ClassDef { name: String, span: Span, nodes: Vec<Node> },
    Assign { targets: Vec<Expression>, value: Expression },
    Import { names: Vec<ImportedName> },
    ImportFrom { module: Option<String>, level: usize, names: Vec<ImportedName> },
    /// Any other statement.
    Other { nodes: Vec<Node> },
}

/// What a statement holds: statements and expressions.
#[derive(Debug, PartialEq, Eq)]
pub enum Node {
    Statement(Statement),
    Expression(Expression),
}

/// What an [`Expression`] says.
pub ghost enum ExpressionView {
    Name { id: Seq<char>, span: Span },
    Attribute { value: Box<ExpressionView>, attr: Seq<char> },
    Subscript { value: Box<ExpressionView>, slice: Box<ExpressionView> },
    Tuple { elts: Seq<ExpressionView> },
    List { label: Seq<char>, elts: Seq<ExpressionView> },
    Other { label: Seq<char>, operands: Seq<ExpressionView> },
}

/// What a [`Param`] says.
pub ghost struct ParamView {
    pub name: Seq<char>,
    pub span: Span,
    pub annotation: Option<ExpressionView>,
}

/// What an [`ImportedName`] says.
pub ghost struct ImportedNameView {
    pub name: Seq<char>,
    pub asname: Option<Seq<char>>,
    pub span: Span,
}

/// What a [`Statement`] says.
pub ghost enum StatementView {
    FunctionDef {
        name: Seq<char>,
        span: Span,
        params: Seq<ParamView>,
        return_type: Option<ExpressionView>,
        nodes: Seq<NodeView>,
    },
    ClassDef { name: Seq<char>, span: Span, nodes: Seq<NodeView> },
    Assign { targets: Seq<ExpressionView>, value: ExpressionView },
    Import { names: Seq<ImportedNameView> },
    ImportFrom { module: Option<Seq<char>>, level: usize, names: Seq<ImportedNameView> },
    Other { nodes: Seq<NodeView> },
}

/// What a [`Node`] says.
pub ghost enum NodeView {
    Statement(StatementView),
    Expression(ExpressionView),
}

/// What an expression says.
pub open spec fn expression_view(expr: Expression) -> ExpressionView
    decreases expr,
{
    match expr {
        Expression::Name { id, span } => ExpressionView::Name { id: id@, span },
        Expression::Attribute { value, attr } => ExpressionView::Attribute {
            value: Box::new(expression_view(*value)),
            attr: attr@,
        },
        Expression::Subscript { value, slice } => ExpressionView::Subscript {
            value: Box::new(expression_view(*value)),
            slice: Box::new(expression_view(*slice)),
        },
        Expression::Tuple { elts } => ExpressionView::Tuple { elts: expression_views(elts@) },
        Expression::List { label, elts } => ExpressionView::List {
            label: label@,
            elts: expression_views(elts@),
        },
        Expression::Other { label, operands } => ExpressionView::Other {
            label: label@,
            operands: expression_views(operands@),
        },
    }
}

/// What each of a row of expressions says.
pub open spec fn expression_views(exprs: Seq<Expression>) -> Seq<ExpressionView>
    decreases exprs,
{
    if exprs.len() == 0 {
        Seq::empty()
    } else {
        expression_views(exprs.drop_last()).push(expression_view(exprs.last()))
    }
}

impl View for Expression {
    type V = ExpressionView;

    open spec fn view(&self) -> ExpressionView {
        expression_view(*self)
    }
}

/// What an optional expression says.
pub open spec fn optional_expression(expr: Option<Expression>) -> Option<ExpressionView> {
    match expr {
        Some(expr) => Some(expr@),
        None => None,
    }
}

impl View for Param {
    type V = ParamView;

    open spec fn view(&self) -> ParamView {
        ParamView {
            name: self.name@,
            span: self.span,
            annotation: optional_expression(self.annotation),
        }
    }
}

/// What each of a row of parameters says.
pub open spec fn param_views(params: Seq<Param>) -> Seq<ParamView> {
    params.map_values(|param: Param| param@)
}

impl View for ImportedName {
    type V = ImportedNameView;

    open spec fn view(&self) -> ImportedNameView {
        ImportedNameView {
            name: self.name@,
            asname: optional_text(self.asname),
            span: self.span,
        }
    }
}

/// What each of a row of imported names says.
pub open spec fn imported_views(names: Seq<ImportedName>) -> Seq<ImportedNameView> {
    names.map_values(|name: ImportedName| name@)
}

/// What a statement says.
pub open spec fn statement_view(statement: Statement) -> StatementView
    decreases statement,
{
    match statement {
        Statement::FunctionDef { name, span, params, return_type, nodes } => {
            StatementView::FunctionDef {
                name: name@,
                span,
                params: param_views(params@),
                return_type: optional_expression(return_type),
                nodes: node_views(nodes@),
            }
        },
        Statement::ClassDef { name, span, nodes } => StatementView::ClassDef {
            name: name@,
            span,
            nodes: node_views(nodes@),
        },
        Statement::Assign { targets, value } => StatementView::Assign {
            targets: expression_views(targets@),
            value: value@,
        },
        Statement::Import { names } => StatementView::Import { names: imported_views(names@) },
        Statement::ImportFrom { module, level, names } => StatementView::ImportFrom {
            module: optional_text(module),
            level,
            names: imported_views(names@),
        },
        Statement::Other { nodes } => StatementView::Other { nodes: node_views(nodes@) },
    }
}

/// What a node says.
pub open spec fn node_view(node: Node) -> NodeView
    decreases node,
{
    match node {
        Node::Statement(statement) => NodeView::Statement(statement_view(statement)),
        Node::Expression(expr) => NodeView::Expression(expr@),
    }
}

/// What each of a row of nodes says.
pub open spec fn node_views(nodes: Seq<Node>) -> Seq<NodeView>
    decreases nodes,
{
    if nodes.len() == 0 {
        Seq::empty()
    } else {
        node_views(nodes.drop_last()).push(node_view(nodes.last()))
    }
}

impl View for Statement {
    type V = StatementView;

    open spec fn view(&self) -> StatementView {
        statement_view(*self)
    }
}

impl View for Node {
    type V = NodeView;

    open spec fn view(&self) -> NodeView {
        node_view(*self)
    }
}

/// One more expression of a row.
pub proof fn lemma_expression_views_push(exprs: Seq<Expression>, expr: Expression)
    ensures
        expression_views(exprs.push(expr)) == expression_views(exprs).push(expr@),
{
    assert(exprs.push(expr).drop_last() =~= exprs);
}

/// Taking one more expression of a row.
pub proof fn lemma_expression_views_step(exprs: Seq<Expression>, i: int)
    requires
        0 <= i < exprs.len(),
    ensures
        expression_views(exprs.take(i + 1)) == expression_views(exprs.take(i)).push(exprs[i]@),
{
    assert(exprs.take(i + 1) =~= exprs.take(i).push(exprs[i]));
    lemma_expression_views_push(exprs.take(i), exprs[i]);
}

/// A row of expressions says as much as each of them.
pub proof fn lemma_expression_views(exprs: Seq<Expression>)
    ensures
        expression_views(exprs).len() == exprs.len(),
        forall|i: int| 0 <= i < exprs.len() ==> expression_views(exprs)[i] == #[trigger] exprs[i]@,
    decreases exprs.len(),
{
    if exprs.len() > 0 {
        lemma_expression_views(exprs.drop_last());
        assert forall|i: int| 0 <= i < exprs.len() implies expression_views(exprs)[i]
            == #[trigger] exprs[i]@ by {
            if i < exprs.len() - 1 {
                assert(exprs.drop_last()[i] == exprs[i]);
            }
        }
    }
}

/// Taking one more node of a row.
pub proof fn lemma_node_views_step(nodes: Seq<Node>, i: int)
    requires
        0 <= i < nodes.len(),
    ensures
        node_views(nodes.take(i + 1)) == node_views(nodes.take(i)).push(nodes[i]@),
{
    assert(nodes.take(i + 1).drop_last() =~= nodes.take(i));
}

/// A row of nodes says as much as each of them.
pub proof fn lemma_node_views(nodes: Seq<Node>)
    ensures
        node_views(nodes).len() == nodes.len(),
        forall|i: int| 0 <= i < nodes.len() ==> node_views(nodes)[i] == #[trigger] nodes[i]@,
    decreases nodes.len(),
{
    if nodes.len() > 0 {
        lemma_node_views(nodes.drop_last());
        assert forall|i: int| 0 <= i < nodes.len() implies node_views(nodes)[i]
            == #[trigger] nodes[i]@ by {
            if i < nodes.len() - 1 {
                assert(nodes.drop_last()[i] == nodes[i]);
            }
        }
    }
}

/// An expression as it is shown in a signature.
pub open spec fn rendered(expr: ExpressionView) -> Seq<char>
    decreases expr,
{
    match expr {
        ExpressionView::Name { id, .. } => id,
        ExpressionView::Attribute { value, attr } => rendered(*value) + "."@ + attr,
        ExpressionView::Subscript { value, slice } => rendered(*value) + "["@ + rendered(*slice)
            + "]"@,
        ExpressionView::Tuple { elts } => joined(rendered_all(elts), ", "@),
        ExpressionView::List { label, .. } => label,
        ExpressionView::Other { label, .. } => label,
    }
}

/// Each of a row of expressions as it is shown in a signature.
pub open spec fn rendered_all(exprs: Seq<ExpressionView>) -> Seq<Seq<char>>
    decreases exprs,
{
    if exprs.len() == 0 {
        Seq::empty()
    } else {
        rendered_all(exprs.drop_last()).push(rendered(exprs.last()))
    }
}

proof fn lemma_rendered_all_len(exprs: Seq<ExpressionView>)
    ensures
        rendered_all(exprs).len() == exprs.len(),
    decreases exprs.len(),
{
    if exprs.len() > 0 {
        lemma_rendered_all_len(exprs.drop_last());
    }
}

/// Renders an expression for a signature.
pub fn render_expr(expr: &Expression) -> (text: String)
    ensures
        text@ == rendered(expr@),
    decreases *expr,
{
    match expr {
        Expression::Name { id, .. } => id.clone(),
        Expression::Attribute { value, attr } => {
            let mut text = render_expr(value);
            text.append(".");
            text.append(attr.as_str());
            text
        },
        Expression::Subscript { value, slice } => {
            let mut text = render_expr(value);
            text.append("[");
            text.append(render_expr(slice).as_str());
            text.append("]");
            text
        },
        Expression::Tuple { elts } => {
            let mut text = String::new();
            let mut i: usize = 0;
            assert(expression_views(elts@.take(0)) =~= Seq::empty());
            while i < elts.len()
                invariant
                    *expr == (Expression::Tuple { elts: *elts }),
                    i <= elts@.len(),
                    text@ == joined(rendered_all(expression_views(elts@.take(i as int))), ", "@),
                decreases elts.len() - i,
            {
                let ghost shown = expression_views(elts@.take(i as int));
                let ghost before = rendered_all(shown);
                proof {
                    lemma_expression_views(elts@.take(i as int));
                    lemma_rendered_all_len(shown);
                    lemma_expression_views_step(elts@, i as int);
                    assert(shown.push(elts@[i as int]@).drop_last() =~= shown);
                    assert(before.push(rendered(elts@[i as int]@)).drop_last() =~= before);
                    assert(decreases_to!(*expr => expr->Tuple_elts@[i as int]));
                }
                if i > 0 {
                    text.append(", ");
                }
                text.append(render_expr(&elts[i]).as_str());
                i = i + 1;
            }
            assert(elts@.take(elts@.len() as int) =~= elts@);
            text
        },
        Expression::List { label, .. } => label.clone(),
        Expression::Other { label, .. } => label.clone(),
    }
}

/// A parameter as it is shown in a signature: its name, and its annotation if it has one.
pub open spec fn param_text(param: ParamView) -> Seq<char> {
    match param.annotation {
        Some(annotation) => param.name + ": "@ + rendered(annotation),
        None => param.name,
    }
}

/// The signature of a function: `name(a, b: int)`, or `name(a, b: int) -> str`.
pub open spec fn signature(
    name: Seq<char>,
    params: Seq<ParamView>,
    return_type: Option<ExpressionView>,
) -> Seq<char> {
    let head = name + "("@ + joined(params.map_values(|p: ParamView| param_text(p)), ", "@) + ")"@;
    match return_type {
        Some(returned) => head + " -> "@ + rendered(returned),
        None => head,
    }
}

/// Writes the signature of a function.
pub fn function_signature(
    name: &str,
    params: &Vec<Param>,
    return_type: &Option<Expression>,
) -> (text: String)
    ensures
        text@ == signature(name@, param_views(params@), optional_expression(*return_type)),
{
    let ghost texts = param_views(params@).map_values(|p: ParamView| param_text(p));
    let mut list = String::new();
    let mut i: usize = 0;
    assert(texts.take(0) =~= Seq::empty());
    while i < params.len()
        invariant
            i <= params@.len(),
            texts == param_views(params@).map_values(|p: ParamView| param_text(p)),
            list@ == joined(texts.take(i as int), ", "@),
        decreases params.len() - i,
    {
        assert(texts.take(i + 1).drop_last() =~= texts.take(i as int));
        if i > 0 {
            list.append(", ");
        }
        list.append(params[i].name.as_str());
        if let Some(annotation) = &params[i].annotation {
            list.append(": ");
            list.append(render_expr(annotation).as_str());
        }
        proof {
            let before = joined(texts.take(i as int), ", "@);
            assert(list@ =~= (if i > 0 {
                before + ", "@
            } else {
                before
            }) + param_text(params@[i as int]@));
        }
        i = i + 1;
    }
    assert(texts.take(texts.len() as int) =~= texts);
    let mut text = name.to_owned();
    text.append("(");
    text.append(list.as_str());
    text.append(")");
    if let Some(returned) = return_type {
        text.append(" -> ");
        text.append(render_expr(returned).as_str());
    }
    text
}

} // verus!
