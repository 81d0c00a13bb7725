use crate::binding::optional_text;
use crate::syntax::{
    expression_views, imported_views, lemma_expression_views_step, lemma_node_views_step,
    node_views, optional_expression, param_views, Expression, ExpressionView, ImportedName,
    ImportedNameView, Node, NodeView, Param, ParamView, Span, Statement, StatementView,
};
use vstd::prelude::*;

verus! {

/// One step of a walk through a module.
#[derive(Clone, Copy)]
pub enum Event<'a> {
    /// A function is defined.
    Function {
        name: &'a String,
        span: Span,
        params: &'a Vec<Param>,
        return_type: &'a Option<Expression>,
    },
    /// A class is defined.
    Class { name: &'a String, span: Span },
    /// A function receives a parameter.
    Parameter { param: &'a Param },
    /// A name is assigned to.
    Target { id: &'a String, span: Span },
    /// A module is imported.
    Import { imported: &'a ImportedName },
    /// A name is imported out of a module.
    ImportFrom { module: &'a Option<String>, level: usize, imported: &'a ImportedName },
    /// A name stands in an expression.
    Use { id: &'a String, span: Span },
    /// The scope of a function or a class begins.
    Enter,
    /// The innermost scope ends.
    Leave,
}

/// What an [`Event`] says.
pub ghost enum EventView {
    Function {
        name: Seq<char>,
        span: Span,
        params: Seq<ParamView>,
        return_type: Option<ExpressionView>,
    },
    Class { name: Seq<char>, span: Span },
    Parameter { param: ParamView },
    Target { id: Seq<char>, span: Span },
    Import { imported: ImportedNameView },
    ImportFrom { module: Option<Seq<char>>, level: usize, imported: ImportedNameView },
    Use { id: Seq<char>, span: Span },
    Enter,
    Leave,
}

impl View for Event<'_> {
    type V = EventView;

    open spec fn view(&self) -> EventView {
        match *self {
            Event::Function { name, span, params, return_type } => EventView::Function {
                name: name@,
                span,
                params: param_views(params@),
                return_type: optional_expression(*return_type),
            },
            Event::Class { name, span } => EventView::Class { name: name@, span },
            Event::Parameter { param } => EventView::Parameter { param: param@ },
            Event::Target { id, span } => EventView::Target { id: id@, span },
            Event::Import { imported } => EventView::Import { imported: imported@ },
            Event::ImportFrom { module, level, imported } => EventView::ImportFrom {
                module: optional_text(*module),
                level,
                imported: imported@,
            },
            Event::Use { id, span } => EventView::Use { id: id@, span },
            Event::Enter => EventView::Enter,
            Event::Leave => EventView::Leave,
        }
    }
}

/// What each of a row of events says.
pub open spec fn event_views(events: Seq<Event<'_>>) -> Seq<EventView> {
    events.map_values(|event: Event<'_>| event@)
}

/// The names in an expression, in the order in which they are visited.
pub open spec fn uses(expression: ExpressionView) -> Seq<EventView>
    decreases expression,
{
    match expression {
        ExpressionView::Name { id, span } => seq![EventView::Use { id, span }],
        ExpressionView::Attribute { value, .. } => uses(*value),
        ExpressionView::Subscript { value, slice } => uses(*value) + uses(*slice),
        ExpressionView::Tuple { elts } => uses_in_all(elts),
        ExpressionView::List { elts, .. } => uses_in_all(elts),
        ExpressionView::Other { operands, .. } => uses_in_all(operands),
    }
}

/// The names in a row of expressions.
pub open spec fn uses_in_all(expressions: Seq<ExpressionView>) -> Seq<EventView>
    decreases expressions,
{
    if expressions.len() == 0 {
        Seq::empty()
    } else {
        uses_in_all(expressions.drop_last()) + uses(expressions.last())
    }
}

/// The names that an assignment to an expression binds: the name itself, or the names in a
/// tuple or a list. Anything else binds none.
pub open spec fn targets(expression: ExpressionView) -> Seq<EventView>
    decreases expression,
{
    match expression {
        ExpressionView::Name { id, span } => seq![EventView::Target { id, span }],
        ExpressionView::Tuple { elts } => targets_in_all(elts),
        ExpressionView::List { elts, .. } => targets_in_all(elts),
        _ => Seq::empty(),
    }
}

/// The names that an assignment to a row of expressions binds.
pub open spec fn targets_in_all(expressions: Seq<ExpressionView>) -> Seq<EventView>
    decreases expressions,
{
    if expressions.len() == 0 {
        Seq::empty()
    } else {
        targets_in_all(expressions.drop_last()) + targets(expressions.last())
    }
}

/// The walk through a statement. A function or a class is defined in the scope around it, and
/// all that lies inside it is walked in a scope of its own; an assignment binds its targets
/// before anything in it is visited.
pub open spec fn walk(statement: StatementView) -> Seq<EventView>
    decreases statement,
{
    match statement {
        StatementView::FunctionDef { name, span, params, return_type, nodes } => seq![
            EventView::Function { name, span, params, return_type },
            EventView::Enter,
        ] + params.map_values(|param: ParamView| EventView::Parameter { param }) + walk_all(nodes)
            + seq![EventView::Leave],
        StatementView::ClassDef { name, span, nodes } => seq![
            EventView::Class { name, span },
            EventView::Enter,
        ] + walk_all(nodes) + seq![EventView::Leave],
        StatementView::Assign { targets, value } => targets_in_all(targets) + uses_in_all(targets)
            + uses(value),
        StatementView::Import { names } => names.map_values(
            |imported: ImportedNameView| EventView::Import { imported },
        ),
        StatementView::ImportFrom { module, level, names } => names.map_values(
            |imported: ImportedNameView| EventView::ImportFrom { module, level, imported },
        ),
        StatementView::Other { nodes } => walk_all(nodes),
    }
}

/// The walk through a node.
pub open spec fn walk_node(node: NodeView) -> Seq<EventView>
    decreases node,
{
    match node {
        NodeView::Statement(statement) => walk(statement),
        NodeView::Expression(expression) => uses(expression),
    }
}

/// The walk through a row of nodes.
pub open spec fn walk_all(nodes: Seq<NodeView>) -> Seq<EventView>
    decreases nodes,
{
    if nodes.len() == 0 {
        Seq::empty()
    } else {
        walk_all(nodes.drop_last()) + walk_node(nodes.last())
    }
}

/// Appends an event.
fn append_event<'a>(event: Event<'a>, events: &mut Vec<Event<'a>>)
    ensures
        event_views(final(events)@) == event_views(old(events)@).push(event@),
{
    events.push(event);
    assert(event_views(events@) =~= event_views(old(events)@).push(event@));
}

/// Appends the names in an expression.
fn append_uses<'a>(expression: &'a Expression, events: &mut Vec<Event<'a>>)
    ensures
        event_views(final(events)@) == event_views(old(events)@) + uses(expression@),
    decreases *expression, 1nat,
{
    let ghost before = event_views(events@);
    match expression {
        Expression::Name { id, span } => {
            append_event(Event::Use { id, span: *span }, events);
            assert(event_views(events@) =~= before + uses(expression@));
        },
        Expression::Attribute { value, .. } => append_uses(value, events),
        Expression::Subscript { value, slice } => {
            append_uses(value, events);
            append_uses(slice, events);
            assert(event_views(events@) =~= before + uses(expression@));
        },
        Expression::Tuple { elts } => append_uses_in_all(elts, events),
        Expression::List { elts, .. } => append_uses_in_all(elts, events),
        Expression::Other { operands, .. } => append_uses_in_all(operands, events),
    }
}

/// Appends the names in a row of expressions.
fn append_uses_in_all<'a>(expressions: &'a Vec<Expression>, events: &mut Vec<Event<'a>>)
    ensures
        event_views(final(events)@) == event_views(old(events)@) + uses_in_all(
            expression_views(expressions@),
        ),
    decreases *expressions, 0nat,
{
    let ghost before = event_views(events@);
    let mut i: usize = 0;
    assert(event_views(events@) =~= before + uses_in_all(expression_views(expressions@.take(0))));
    while i < expressions.len()
        invariant
            i <= expressions@.len(),
            event_views(events@) == before + uses_in_all(
                expression_views(expressions@.take(i as int)),
            ),
        decreases expressions.len() - i,
    {
        let ghost seen = expression_views(expressions@.take(i as int));
        proof {
            assert(decreases_to!(*expressions => expressions@[i as int]));
            lemma_expression_views_step(expressions@, i as int);
            assert(seen.push(expressions@[i as int]@).drop_last() =~= seen);
        }
        append_uses(&expressions[i], events);
        i = i + 1;
        assert(event_views(events@) =~= before + uses_in_all(
            expression_views(expressions@.take(i as int)),
        ));
    }
    assert(expressions@.take(expressions@.len() as int) =~= expressions@);
}

/// Appends the names that an assignment to an expression binds.
fn bind_assignment_target<'a>(expression: &'a Expression, events: &mut Vec<Event<'a>>)
    ensures
        event_views(final(events)@) == event_views(old(events)@) + targets(expression@),
    decreases *expression, 1nat,
{
    let ghost before = event_views(events@);
    match expression {
        Expression::Name { id, span } => {
            append_event(Event::Target { id, span: *span }, events);
            assert(event_views(events@) =~= before + targets(expression@));
        },
        Expression::Tuple { elts } => bind_assignment_targets(elts, events),
        Expression::List { elts, .. } => bind_assignment_targets(elts, events),
        _ => {
            assert(event_views(events@) =~= before + targets(expression@));
        },
    }
}

/// Appends the names that an assignment to a row of expressions binds.
fn bind_assignment_targets<'a>(expressions: &'a Vec<Expression>, events: &mut Vec<Event<'a>>)
    ensures
        event_views(final(events)@) == event_views(old(events)@) + targets_in_all(
            expression_views(expressions@),
        ),
    decreases *expressions, 0nat,
{
    let ghost before = event_views(events@);
    let mut i: usize = 0;
    assert(event_views(events@) =~= before + targets_in_all(
        expression_views(expressions@.take(0)),
    ));
    while i < expressions.len()
        invariant
            i <= expressions@.len(),
            event_views(events@) == before + targets_in_all(
                expression_views(expressions@.take(i as int)),
            ),
        decreases expressions.len() - i,
    {
        let ghost seen = expression_views(expressions@.take(i as int));
        proof {
            assert(decreases_to!(*expressions => expressions@[i as int]));
            lemma_expression_views_step(expressions@, i as int);
            assert(seen.push(expressions@[i as int]@).drop_last() =~= seen);
        }
        bind_assignment_target(&expressions[i], events);
        i = i + 1;
        assert(event_views(events@) =~= before + targets_in_all(
            expression_views(expressions@.take(i as int)),
        ));
    }
    assert(expressions@.take(expressions@.len() as int) =~= expressions@);
}

/// Appends the parameters that a function receives.
fn append_params<'a>(params: &'a Vec<Param>, events: &mut Vec<Event<'a>>)
    ensures
        event_views(final(events)@) == event_views(old(events)@) + param_views(params@).map_values(
            |param: ParamView| EventView::Parameter { param },
        ),
{
    let ghost before = event_views(events@);
    let ghost received = param_views(params@).map_values(
        |param: ParamView| EventView::Parameter { param },
    );
    let mut i: usize = 0;
    assert(event_views(events@) =~= before + received.take(0));
    while i < params.len()
        invariant
            i <= params@.len(),
            received == param_views(params@).map_values(
                |param: ParamView| EventView::Parameter { param },
            ),
            event_views(events@) == before + received.take(i as int),
        decreases params.len() - i,
    {
        append_event(Event::Parameter { param: &params[i] }, events);
        i = i + 1;
        assert(event_views(events@) =~= before + received.take(i as int));
    }
    assert(received.take(received.len() as int) =~= received);
}

/// Appends the walk through a statement.
fn append_walk<'a>(statement: &'a Statement, events: &mut Vec<Event<'a>>)
    ensures
        event_views(final(events)@) == event_views(old(events)@) + walk(statement@),
    decreases *statement, 2nat,
{
    let ghost before = event_views(events@);
    match statement {
        Statement::FunctionDef { name, span, params, return_type, nodes } => {
            append_event(Event::Function { name, span: *span, params, return_type }, events);
            append_event(Event::Enter, events);
            append_params(params, events);
            append_walk_all(nodes, events);
            append_event(Event::Leave, events);
            assert(event_views(events@) =~= before + walk(statement@));
        },
        Statement::ClassDef { name, span, nodes } => {
            append_event(Event::Class { name, span: *span }, events);
            append_event(Event::Enter, events);
            append_walk_all(nodes, events);
            append_event(Event::Leave, events);
            assert(event_views(events@) =~= before + walk(statement@));
        },
        Statement::Assign { targets, value } => {
            bind_assignment_targets(targets, events);
            append_uses_in_all(targets, events);
            append_uses(value, events);
            assert(event_views(events@) =~= before + walk(statement@));
        },
        Statement::Import { names } => {
            let ghost imports = imported_views(names@).map_values(
                |imported: ImportedNameView| EventView::Import { imported },
            );
            let mut i: usize = 0;
            assert(event_views(events@) =~= before + imports.take(0));
            while i < names.len()
                invariant
                    i <= names@.len(),
                    imports == imported_views(names@).map_values(
                        |imported: ImportedNameView| EventView::Import { imported },
                    ),
                    event_views(events@) == before + imports.take(i as int),
                decreases names.len() - i,
            {
                append_event(Event::Import { imported: &names[i] }, events);
                i = i + 1;
                assert(event_views(events@) =~= before + imports.take(i as int));
            }
            assert(imports.take(imports.len() as int) =~= imports);
        },
        Statement::ImportFrom { module, level, names } => {
            let ghost from = optional_text(*module);
            let ghost imports = imported_views(names@).map_values(
                |imported: ImportedNameView|
                    EventView::ImportFrom { module: from, level: *level, imported },
            );
            let mut i: usize = 0;
            assert(event_views(events@) =~= before + imports.take(0));
            while i < names.len()
                invariant
                    i <= names@.len(),
                    from == optional_text(*module),
                    imports == imported_views(names@).map_values(
                        |imported: ImportedNameView|
                            EventView::ImportFrom { module: from, level: *level, imported },
                    ),
                    event_views(events@) == before + imports.take(i as int),
                decreases names.len() - i,
            {
                append_event(
                    Event::ImportFrom { module, level: *level, imported: &names[i] },
                    events,
                );
                i = i + 1;
                assert(event_views(events@) =~= before + imports.take(i as int));
            }
            assert(imports.take(imports.len() as int) =~= imports);
        },
        Statement::Other { nodes } => append_walk_all(nodes, events),
    }
}

/// Appends the walk through a row of nodes.
fn append_walk_all<'a>(nodes: &'a Vec<Node>, events: &mut Vec<Event<'a>>)
    ensures
        event_views(final(events)@) == event_views(old(events)@) + walk_all(node_views(nodes@)),
    decreases *nodes, 0nat,
{
    let ghost before = event_views(events@);
    let mut i: usize = 0;
    assert(event_views(events@) =~= before + walk_all(node_views(nodes@.take(0))));
    while i < nodes.len()
        invariant
            i <= nodes@.len(),
            event_views(events@) == before + walk_all(node_views(nodes@.take(i as int))),
        decreases nodes.len() - i,
    {
        let ghost seen = node_views(nodes@.take(i as int));
        proof {
            assert(decreases_to!(*nodes => nodes@[i as int]));
            lemma_node_views_step(nodes@, i as int);
            assert(seen.push(nodes@[i as int]@).drop_last() =~= seen);
        }
        append_walk_node(&nodes[i], events);
        i = i + 1;
        assert(event_views(events@) =~= before + walk_all(node_views(nodes@.take(i as int))));
    }
    assert(nodes@.take(nodes@.len() as int) =~= nodes@);
}

/// Appends the walk through a node.
fn append_walk_node<'a>(node: &'a Node, events: &mut Vec<Event<'a>>)
    ensures
        event_views(final(events)@) == event_views(old(events)@) + walk_node(node@),
    decreases *node, 1nat,
{
    match node {
        Node::Statement(statement) => append_walk(statement, events),
        Node::Expression(expression) => append_uses(expression, events),
    }
}

/// Walks through a node.
pub fn visit(node: &Node) -> (events: Vec<Event<'_>>)
    ensures
        event_views(events@) == walk_node(node@),
{
    let mut events: Vec<Event> = Vec::new();
    append_walk_node(node, &mut events);
    assert(event_views(events@) =~= walk_node(node@));
    events
}

/// Walks through a module.
pub fn visit_all(module: &Vec<Node>) -> (events: Vec<Event<'_>>)
    ensures
        event_views(events@) == walk_all(node_views(module@)),
{
    let mut events: Vec<Event> = Vec::new();
    append_walk_all(module, &mut events);
    assert(event_views(events@) =~= walk_all(node_views(module@)));
    events
}

} // verus!
