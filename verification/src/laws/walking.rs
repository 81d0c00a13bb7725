use crate::syntax::{
    ExpressionView, ImportedNameView, NodeView, ParamView, Span, StatementView,
};
use crate::trace::{
    targets, targets_in_all, uses, uses_in_all, walk, walk_all, walk_node, EventView,
};
use vstd::prelude::*;

verus! {

/// Whether a name stands anywhere in an expression: as the expression itself, in the value of an
/// attribute, in the value or the slice of a subscript, or in an element or an operand.
pub open spec fn holds_name(expression: ExpressionView, id: Seq<char>, span: Span) -> bool
    decreases expression,
{
    match expression {
        ExpressionView::Name { id: other, span: place } => other == id && place == span,
        ExpressionView::Attribute { value, .. } => holds_name(*value, id, span),
        ExpressionView::Subscript { value, slice } => holds_name(*value, id, span) || holds_name(
            *slice,
            id,
            span,
        ),
        ExpressionView::Tuple { elts } => one_holds_name(elts, id, span),
        ExpressionView::List { elts, .. } => one_holds_name(elts, id, span),
        ExpressionView::Other { operands, .. } => one_holds_name(operands, id, span),
    }
}

/// Whether a name stands anywhere in a row of expressions.
pub open spec fn one_holds_name(expressions: Seq<ExpressionView>, id: Seq<char>, span: Span) -> bool
    decreases expressions,
{
    expressions.len() > 0 && (one_holds_name(expressions.drop_last(), id, span) || holds_name(
        expressions.last(),
        id,
        span,
    ))
}

proof fn lemma_contains_concat<T>(a: Seq<T>, b: Seq<T>, item: T)
    ensures
        (a + b).contains(item) <==> a.contains(item) || b.contains(item),
{
    if a.contains(item) {
        let k = choose|k: int| 0 <= k < a.len() && a[k] == item;
        assert((a + b)[k] == item);
    }
    if b.contains(item) {
        let k = choose|k: int| 0 <= k < b.len() && b[k] == item;
        assert((a + b)[a.len() + k] == item);
    }
}

/// Every name that stands anywhere in an expression is visited, and nothing else is.
pub proof fn law_every_name_is_visited(expression: ExpressionView, id: Seq<char>, span: Span)
    ensures
        uses(expression).contains(EventView::Use { id, span }) <==> holds_name(
            expression,
            id,
            span,
        ),
        forall|i: int| 0 <= i < uses(expression).len() ==> #[trigger] uses(expression)[i] is Use,
    decreases expression, 1nat,
{
    let wanted = EventView::Use { id, span };
    match expression {
        ExpressionView::Name { id: other, span: place } => {
            assert(uses(expression)[0] == EventView::Use { id: other, span: place });
        },
        ExpressionView::Attribute { value, .. } => law_every_name_is_visited(*value, id, span),
        ExpressionView::Subscript { value, slice } => {
            law_every_name_is_visited(*value, id, span);
            law_every_name_is_visited(*slice, id, span);
            lemma_contains_concat(uses(*value), uses(*slice), wanted);
        },
        ExpressionView::Tuple { elts } => lemma_all_names_are_visited(elts, id, span),
        ExpressionView::List { elts, .. } => lemma_all_names_are_visited(elts, id, span),
        ExpressionView::Other { operands, .. } => lemma_all_names_are_visited(operands, id, span),
    }
}

proof fn lemma_all_names_are_visited(
    expressions: Seq<ExpressionView>,
    id: Seq<char>,
    span: Span,
)
    ensures
        uses_in_all(expressions).contains(EventView::Use { id, span }) <==> one_holds_name(
            expressions,
            id,
            span,
        ),
        forall|i: int|
            0 <= i < uses_in_all(expressions).len() ==> #[trigger] uses_in_all(
                expressions,
            )[i] is Use,
    decreases expressions, 0nat,
{
    if expressions.len() > 0 {
        lemma_all_names_are_visited(expressions.drop_last(), id, span);
        law_every_name_is_visited(expressions.last(), id, span);
        lemma_contains_concat(
            uses_in_all(expressions.drop_last()),
            uses(expressions.last()),
            EventView::Use { id, span },
        );
    }
}

/// The names in an expression are visited once each and in the order in which they stand: those of
/// the value in front of those of the slice, and those of an element in front of those of the
/// next. The name of an attribute is not one of them.
pub proof fn law_names_are_visited_in_order(
    id: Seq<char>,
    span: Span,
    value: ExpressionView,
    slice: ExpressionView,
    text: Seq<char>,
    elts: Seq<ExpressionView>,
)
    ensures
        uses(ExpressionView::Name { id, span }) == seq![EventView::Use { id, span }],
        uses(ExpressionView::Attribute { value: Box::new(value), attr: text }) == uses(value),
        uses(
            ExpressionView::Subscript { value: Box::new(value), slice: Box::new(slice) },
        ) == uses(value) + uses(slice),
        uses(ExpressionView::Tuple { elts }) == uses_in_all(elts),
        uses(ExpressionView::List { label: text, elts }) == uses_in_all(elts),
        uses(ExpressionView::Other { label: text, operands: elts }) == uses_in_all(elts),
        uses_in_all(seq![value]) == uses(value),
        uses_in_all(elts.push(value)) == uses_in_all(elts) + uses(value),
{
    assert(elts.push(value).drop_last() =~= elts);
    reveal_with_fuel(uses_in_all, 2);
    assert(seq![value].drop_last() =~= Seq::empty());
    assert(uses_in_all(seq![value]) =~= uses(value));
}

/// Two rows of expressions are visited one after the other.
pub proof fn law_rows_are_visited_one_after_the_other(
    first: Seq<ExpressionView>,
    second: Seq<ExpressionView>,
)
    ensures
        uses_in_all(first + second) == uses_in_all(first) + uses_in_all(second),
        targets_in_all(first + second) == targets_in_all(first) + targets_in_all(second),
    decreases second.len(),
{
    if second.len() == 0 {
        assert(first + second =~= first);
        assert(uses_in_all(first + second) =~= uses_in_all(first) + uses_in_all(second));
        assert(targets_in_all(first + second) =~= targets_in_all(first) + targets_in_all(second));
    } else {
        assert((first + second).drop_last() =~= first + second.drop_last());
        law_rows_are_visited_one_after_the_other(first, second.drop_last());
        assert(uses_in_all(first + second) =~= uses_in_all(first) + uses_in_all(second));
        assert(targets_in_all(first + second) =~= targets_in_all(first) + targets_in_all(second));
    }
}

/// An assignment binds a name, and every name in a tuple or a list that it is given to, at any
/// depth and in order. An attribute, a subscript or any other expression binds none.
pub proof fn law_assignments_bind_names_and_their_rows(
    id: Seq<char>,
    span: Span,
    value: ExpressionView,
    slice: ExpressionView,
    text: Seq<char>,
    elts: Seq<ExpressionView>,
)
    ensures
        targets(ExpressionView::Name { id, span }) == seq![EventView::Target { id, span }],
        targets(ExpressionView::Attribute { value: Box::new(value), attr: text }).len() == 0,
        targets(
            ExpressionView::Subscript { value: Box::new(value), slice: Box::new(slice) },
        ).len() == 0,
        targets(ExpressionView::Other { label: text, operands: elts }).len() == 0,
        targets(ExpressionView::Tuple { elts }) == targets_in_all(elts),
        targets(ExpressionView::List { label: text, elts }) == targets_in_all(elts),
        targets_in_all(seq![value]) == targets(value),
        targets_in_all(elts.push(value)) == targets_in_all(elts) + targets(value),
{
    assert(elts.push(value).drop_last() =~= elts);
    reveal_with_fuel(targets_in_all, 2);
    assert(seq![value].drop_last() =~= Seq::empty());
    assert(targets_in_all(seq![value]) =~= targets(value));
}

/// The walk through a function begins with the function itself. Then its scope begins, in which
/// it receives all its parameters in order and all that lies inside is walked through, and at
/// last the scope ends.
pub proof fn law_walk_through_a_function(
    name: Seq<char>,
    span: Span,
    params: Seq<ParamView>,
    return_type: Option<ExpressionView>,
    nodes: Seq<NodeView>,
)
    ensures
        ({
            let events = walk(
                StatementView::FunctionDef { name, span, params, return_type, nodes },
            );
            let inside = walk_all(nodes);
            let start: nat = 2 + params.len();
            &&& events.len() == start + inside.len() + 1
            &&& events[0] == EventView::Function { name, span, params, return_type }
            &&& events[1] == EventView::Enter
            &&& forall|i: int|
                0 <= i < params.len() ==> events[2 + i] == EventView::Parameter {
                    param: #[trigger] params[i],
                }
            &&& events.subrange(start as int, (start + inside.len()) as int) == inside
            &&& events.last() == EventView::Leave
        }),
{
    let events = walk(StatementView::FunctionDef { name, span, params, return_type, nodes });
    let inside = walk_all(nodes);
    let start: nat = 2 + params.len();
    let received = params.map_values(|param: ParamView| EventView::Parameter { param });
    assert forall|i: int| 0 <= i < params.len() implies events[2 + i] == EventView::Parameter {
        param: #[trigger] params[i],
    } by {
        assert(received[i] == EventView::Parameter { param: params[i] });
    }
    assert(events.subrange(start as int, (start + inside.len()) as int) =~= inside);
}

/// The walk through a class begins with the class itself, and all that lies inside is walked
/// through in a scope of its own.
pub proof fn law_walk_through_a_class(name: Seq<char>, span: Span, nodes: Seq<NodeView>)
    ensures
        ({
            let events = walk(StatementView::ClassDef { name, span, nodes });
            let inside = walk_all(nodes);
            &&& events.len() == 3 + inside.len()
            &&& events[0] == EventView::Class { name, span }
            &&& events[1] == EventView::Enter
            &&& events.subrange(2, 2 + inside.len() as int) == inside
            &&& events.last() == EventView::Leave
        }),
{
    let events = walk(StatementView::ClassDef { name, span, nodes });
    assert(events.subrange(2, 2 + walk_all(nodes).len() as int) =~= walk_all(nodes));
}

/// The walk through an assignment binds all targets, and then visits all names in the targets and
/// in the value.
pub proof fn law_walk_through_an_assignment(
    targets: Seq<ExpressionView>,
    value: ExpressionView,
)
    ensures
        walk(StatementView::Assign { targets, value }) == targets_in_all(targets) + uses_in_all(
            targets.push(value),
        ),
{
    assert(targets.push(value).drop_last() =~= targets);
    assert(walk(StatementView::Assign { targets, value }) =~= targets_in_all(targets)
        + uses_in_all(targets.push(value)));
}

/// The walk through an import meets each of its names once and in order.
pub proof fn law_walk_through_an_import(
    module: Option<Seq<char>>,
    level: usize,
    names: Seq<ImportedNameView>,
)
    ensures
        ({
            let whole = walk(StatementView::Import { names });
            let from = walk(StatementView::ImportFrom { module, level, names });
            &&& whole.len() == names.len()
            &&& from.len() == names.len()
            &&& forall|i: int|
                0 <= i < names.len() ==> {
                    &&& whole[i] == EventView::Import { imported: #[trigger] names[i] }
                    &&& from[i] == EventView::ImportFrom { module, level, imported: names[i] }
                }
        }),
{
}

/// Nodes are walked through one after the other, each of them and in order. Any other statement
/// is walked through by what lies inside it.
pub proof fn law_walk_through_nodes(
    first: Seq<NodeView>,
    second: Seq<NodeView>,
    node: NodeView,
    statement: StatementView,
    expression: ExpressionView,
)
    ensures
        walk_all(Seq::empty()) == Seq::<EventView>::empty(),
        walk_all(seq![node]) == walk_node(node),
        walk_all(first + second) == walk_all(first) + walk_all(second),
        walk_node(NodeView::Statement(statement)) == walk(statement),
        walk_node(NodeView::Expression(expression)) == uses(expression),
        walk(StatementView::Other { nodes: first }) == walk_all(first),
    decreases second.len(),
{
    reveal_with_fuel(walk_all, 2);
    assert(seq![node].drop_last() =~= Seq::empty());
    assert(walk_all(seq![node]) =~= walk_node(node));
    if second.len() == 0 {
        assert(first + second =~= first);
    } else {
        assert((first + second).drop_last() =~= first + second.drop_last());
        law_walk_through_nodes(first, second.drop_last(), node, statement, expression);
    }
    assert(walk_all(first + second) =~= walk_all(first) + walk_all(second));
}

} // verus!
