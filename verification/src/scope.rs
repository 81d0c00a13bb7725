use crate::binding::{
    binding_of, introduced, optional_binding, Binding, BindingView, SymbolKind,
};
use crate::search::{cut, defined_name, law_defined_name_reads_as_the_name};
use crate::syntax::{
    lemma_node_views, node_views, ExpressionView, Node, NodeView, ParamView, Span, StatementView,
};
use crate::trace::{
    event_views, targets, targets_in_all, uses, uses_in_all, visit, walk, walk_all, walk_node,
    Event, EventView,
};
use vstd::hash_map::StringHashMap;
use vstd::prelude::*;
use vstd::utf8::encode_utf8;

verus! {

/// The names of one scope.
pub struct Scope {
    bindings: StringHashMap<Binding>,
}

/// The scopes around a place in a module, the innermost last.
pub struct ScopeStack {
    scopes: Vec<Scope>,
}

/// What the names of each scope stand for, the innermost scope last.
pub type Scopes = Seq<Map<Seq<char>, BindingView>>;

impl View for Scope {
    type V = Map<Seq<char>, BindingView>;

    closed spec fn view(&self) -> Map<Seq<char>, BindingView> {
        self.bindings@.map_values(|binding: Binding| binding@)
    }
}

impl View for ScopeStack {
    type V = Scopes;

    closed spec fn view(&self) -> Scopes {
        self.scopes@.map_values(|scope: Scope| scope@)
    }
}

/// The scopes around the statements of a module.
pub open spec fn module_scope() -> Scopes {
    seq![Map::empty()]
}

/// The scopes after the innermost one got a binding, which takes the place of an earlier one
/// of the same name.
pub open spec fn bound(scopes: Scopes, binding: BindingView) -> Scopes {
    if scopes.len() == 0 {
        scopes
    } else {
        scopes.update(scopes.len() - 1, scopes.last().insert(binding.name, binding))
    }
}

/// What a name stands for: the binding in the innermost scope that has one.
pub open spec fn resolved(scopes: Scopes, name: Seq<char>) -> Option<BindingView>
    decreases scopes.len(),
{
    if scopes.len() == 0 {
        None
    } else if scopes.last().contains_key(name) {
        Some(scopes.last()[name])
    } else {
        resolved(scopes.drop_last(), name)
    }
}

/// The scopes after one event.
pub open spec fn after_event(text: Seq<char>, scopes: Scopes, event: EventView) -> Scopes {
    match event {
        EventView::Enter => scopes.push(Map::empty()),
        EventView::Leave => if scopes.len() == 0 {
            scopes
        } else {
            scopes.drop_last()
        },
        _ => match introduced(text, event) {
            Some(binding) => bound(scopes, binding),
            None => scopes,
        },
    }
}

/// The scopes after a row of events.
pub open spec fn after(text: Seq<char>, scopes: Scopes, events: Seq<EventView>) -> Scopes
    decreases events.len(),
{
    if events.len() == 0 {
        scopes
    } else {
        after_event(text, after(text, scopes, events.drop_last()), events.last())
    }
}

/// The span at which an event shows a name. An assignment shows none: its targets are shown
/// as the names that they are.
pub open spec fn shown_at(text: Seq<char>, event: EventView) -> Option<Span> {
    match event {
        EventView::Use { span, .. } => Some(span),
        EventView::Target { .. } | EventView::Enter | EventView::Leave => None,
        _ => match introduced(text, event) {
            Some(binding) => Some(binding.span),
            None => None,
        },
    }
}

/// What the name that an event shows stands for: a name in an expression for what it resolves
/// to in the scopes around it, and the name of a definition for the definition.
pub open spec fn shown(text: Seq<char>, scopes: Scopes, event: EventView) -> Option<BindingView> {
    match event {
        EventView::Use { id, .. } => resolved(scopes, id),
        EventView::Target { .. } | EventView::Enter | EventView::Leave => None,
        _ => introduced(text, event),
    }
}

/// Whether an event shows a name over the byte at `offset`.
pub open spec fn shows(text: Seq<char>, event: EventView, offset: u32) -> bool {
    shown_at(text, event) is Some && shown_at(text, event)->0.covers(offset)
}

/// What the name over the byte at `offset` stands for. Of several events that show a name
/// there, the last one counts.
pub open spec fn binding_among(
    text: Seq<char>,
    scopes: Scopes,
    events: Seq<EventView>,
    offset: u32,
) -> Option<BindingView>
    decreases events.len(),
{
    if events.len() == 0 {
        None
    } else if shows(text, events.last(), offset) {
        shown(text, after(text, scopes, events.drop_last()), events.last())
    } else {
        binding_among(text, scopes, events.drop_last(), offset)
    }
}

/// What the name over the byte at `offset` stands for, according to the first of the nodes
/// that knows it.
pub open spec fn binding_at(
    text: Seq<char>,
    scopes: Scopes,
    nodes: Seq<NodeView>,
    offset: u32,
) -> Option<BindingView>
    decreases nodes.len(),
{
    if nodes.len() == 0 {
        None
    } else {
        let events = walk_node(nodes.first());
        match binding_among(text, scopes, events, offset) {
            Some(binding) => Some(binding),
            None => binding_at(text, after(text, scopes, events), nodes.drop_first(), offset),
        }
    }
}

/// Following two rows of events is following one and then the other.
pub proof fn lemma_after_concat(
    text: Seq<char>,
    scopes: Scopes,
    first: Seq<EventView>,
    second: Seq<EventView>,
)
    ensures
        after(text, scopes, first + second) == after(text, after(text, scopes, first), second),
    decreases second.len(),
{
    if second.len() == 0 {
        assert(first + second =~= first);
    } else {
        assert((first + second).drop_last() =~= first + second.drop_last());
        lemma_after_concat(text, scopes, first, second.drop_last());
    }
}

proof fn lemma_after_one(text: Seq<char>, scopes: Scopes, event: EventView)
    ensures
        after(text, scopes, seq![event]) == after_event(text, scopes, event),
{
    reveal_with_fuel(after, 2);
    assert(seq![event].drop_last() =~= Seq::<EventView>::empty());
}

/// Whether two stacks of scopes differ in the innermost scope at most.
pub open spec fn same_around(a: Scopes, b: Scopes) -> bool {
    a.len() == b.len() && a.len() > 0 && a.drop_last() == b.drop_last()
}

/// A binding is what its name stands for from then on, and no other name is touched by it.
pub proof fn law_newest_binding_wins(scopes: Scopes, binding: BindingView, other: Seq<char>)
    requires
        scopes.len() > 0,
        other != binding.name,
    ensures
        resolved(bound(scopes, binding), binding.name) == Some(binding),
        resolved(bound(scopes, binding), other) == resolved(scopes, other),
{
    assert(bound(scopes, binding).drop_last() =~= scopes.drop_last());
}

/// A name that the innermost scope does not bind stands for what it stands for outside.
pub proof fn law_inner_scope_sees_outer_names(scopes: Scopes, name: Seq<char>)
    ensures
        resolved(scopes.push(Map::empty()), name) == resolved(scopes, name),
{
    assert(scopes.push(Map::empty()).drop_last() =~= scopes);
}

/// Events that neither begin nor end a scope leave the scopes around the innermost alone.
proof fn lemma_flat_events(text: Seq<char>, scopes: Scopes, events: Seq<EventView>)
    requires
        scopes.len() > 0,
        forall|i: int|
            0 <= i < events.len() ==> !(#[trigger] events[i] is Enter) && !(events[i] is Leave),
    ensures
        same_around(after(text, scopes, events), scopes),
    decreases events.len(),
{
    if events.len() > 0 {
        lemma_flat_events(text, scopes, events.drop_last());
        let before = after(text, scopes, events.drop_last());
        assert(events.last() == events[events.len() - 1]);
        match introduced(text, events.last()) {
            Some(binding) => {
                assert(bound(before, binding).drop_last() =~= before.drop_last());
            },
            None => {},
        }
    }
}

proof fn lemma_uses_are_flat(expression: ExpressionView)
    ensures
        forall|i: int|
            0 <= i < uses(expression).len() ==> #[trigger] uses(expression)[i] is Use,
    decreases expression, 1nat,
{
    match expression {
        ExpressionView::Name { .. } => {},
        ExpressionView::Attribute { value, .. } => lemma_uses_are_flat(*value),
        ExpressionView::Subscript { value, slice } => {
            lemma_uses_are_flat(*value);
            lemma_uses_are_flat(*slice);
        },
        ExpressionView::Tuple { elts } => lemma_all_uses_are_flat(elts),
        ExpressionView::List { elts, .. } => lemma_all_uses_are_flat(elts),
        ExpressionView::Other { operands, .. } => lemma_all_uses_are_flat(operands),
    }
}

proof fn lemma_all_uses_are_flat(expressions: Seq<ExpressionView>)
    ensures
        forall|i: int|
            0 <= i < uses_in_all(expressions).len() ==> #[trigger] uses_in_all(
                expressions,
            )[i] is Use,
    decreases expressions, 0nat,
{
    if expressions.len() > 0 {
        lemma_all_uses_are_flat(expressions.drop_last());
        lemma_uses_are_flat(expressions.last());
    }
}

proof fn lemma_targets_are_flat(expression: ExpressionView)
    ensures
        forall|i: int|
            0 <= i < targets(expression).len() ==> #[trigger] targets(expression)[i] is Target,
    decreases expression, 1nat,
{
    match expression {
        ExpressionView::Tuple { elts } => lemma_all_targets_are_flat(elts),
        ExpressionView::List { elts, .. } => lemma_all_targets_are_flat(elts),
        _ => {},
    }
}

proof fn lemma_all_targets_are_flat(expressions: Seq<ExpressionView>)
    ensures
        forall|i: int|
            0 <= i < targets_in_all(expressions).len() ==> #[trigger] targets_in_all(
                expressions,
            )[i] is Target,
    decreases expressions, 0nat,
{
    if expressions.len() > 0 {
        lemma_all_targets_are_flat(expressions.drop_last());
        lemma_targets_are_flat(expressions.last());
    }
}

/// What stands in a scope of its own leaves no trace in the scopes around it.
proof fn lemma_closed_scope(
    text: Seq<char>,
    scopes: Scopes,
    inside: Seq<EventView>,
)
    requires
        same_around(
            after(text, scopes.push(Map::empty()), inside),
            scopes.push(Map::empty()),
        ),
    ensures
        after(text, scopes, seq![EventView::Enter] + inside + seq![EventView::Leave]) == scopes,
{
    let enter = seq![EventView::Enter];
    let leave = seq![EventView::Leave];
    lemma_after_concat(text, scopes, enter + inside, leave);
    lemma_after_concat(text, scopes, enter, inside);
    lemma_after_one(text, scopes, EventView::Enter);
    let entered = scopes.push(Map::empty());
    lemma_after_one(text, after(text, entered, inside), EventView::Leave);
    assert(entered.drop_last() =~= scopes);
}

/// Walking through a node changes the innermost scope at most.
pub proof fn law_walk_keeps_outer_scopes(text: Seq<char>, scopes: Scopes, node: NodeView)
    requires
        scopes.len() > 0,
    ensures
        same_around(after(text, scopes, walk_node(node)), scopes),
    decreases node, 1nat,
{
    match node {
        NodeView::Expression(expression) => {
            lemma_uses_are_flat(expression);
            lemma_flat_events(text, scopes, uses(expression));
        },
        NodeView::Statement(statement) => lemma_walk_statement(text, scopes, statement),
    }
}

proof fn lemma_walk_all(text: Seq<char>, scopes: Scopes, nodes: Seq<NodeView>)
    requires
        scopes.len() > 0,
    ensures
        same_around(after(text, scopes, walk_all(nodes)), scopes),
    decreases nodes, 0nat,
{
    if nodes.len() > 0 {
        lemma_walk_all(text, scopes, nodes.drop_last());
        let before = after(text, scopes, walk_all(nodes.drop_last()));
        law_walk_keeps_outer_scopes(text, before, nodes.last());
        lemma_after_concat(text, scopes, walk_all(nodes.drop_last()), walk_node(nodes.last()));
    }
}

proof fn lemma_walk_statement(text: Seq<char>, scopes: Scopes, statement: StatementView)
    requires
        scopes.len() > 0,
    ensures
        same_around(after(text, scopes, walk(statement)), scopes),
        statement is FunctionDef || statement is ClassDef ==> after(text, scopes, walk(statement))
            == after_event(text, scopes, walk(statement)[0]),
    decreases statement, 2nat,
{
    match statement {
        StatementView::FunctionDef { params, nodes, .. } => {
            let head = seq![walk(statement)[0]];
            let received = params.map_values(
                |param: ParamView| EventView::Parameter { param },
            );
            let inside = received + walk_all(nodes);
            lemma_flat_events(text, scopes, head);
            lemma_after_one(text, scopes, walk(statement)[0]);
            let defined = after(text, scopes, head);
            let entered = defined.push(Map::empty());
            lemma_flat_events(text, entered, received);
            lemma_walk_all(text, after(text, entered, received), nodes);
            lemma_after_concat(text, entered, received, walk_all(nodes));
            lemma_closed_scope(text, defined, inside);
            lemma_after_concat(
                text,
                scopes,
                head,
                seq![EventView::Enter] + inside + seq![EventView::Leave],
            );
            assert(walk(statement) =~= head + (seq![EventView::Enter] + inside
                + seq![EventView::Leave]));
        },
        StatementView::ClassDef { nodes, .. } => {
            let head = seq![walk(statement)[0]];
            let inside = walk_all(nodes);
            lemma_flat_events(text, scopes, head);
            lemma_after_one(text, scopes, walk(statement)[0]);
            let defined = after(text, scopes, head);
            let entered = defined.push(Map::empty());
            lemma_walk_all(text, entered, nodes);
            lemma_closed_scope(text, defined, inside);
            lemma_after_concat(
                text,
                scopes,
                head,
                seq![EventView::Enter] + inside + seq![EventView::Leave],
            );
            assert(walk(statement) =~= head + (seq![EventView::Enter] + inside
                + seq![EventView::Leave]));
        },
        StatementView::Assign { targets, value } => {
            lemma_all_targets_are_flat(targets);
            lemma_all_uses_are_flat(targets);
            lemma_uses_are_flat(value);
            lemma_flat_events(text, scopes, walk(statement));
        },
        StatementView::Import { .. } => lemma_flat_events(text, scopes, walk(statement)),
        StatementView::ImportFrom { .. } => lemma_flat_events(text, scopes, walk(statement)),
        StatementView::Other { nodes } => lemma_walk_all(text, scopes, nodes),
    }
}

/// What a function or a class binds inside stays inside: behind its definition the scopes
/// hold its own name in addition to what they held before, and nothing else.
pub proof fn law_inner_names_stay_inside(text: Seq<char>, scopes: Scopes, statement: StatementView)
    requires
        scopes.len() > 0,
        statement is FunctionDef || statement is ClassDef,
    ensures
        after(text, scopes, walk(statement)) == after_event(text, scopes, walk(statement)[0]),
        walk(statement)[0] is Function || walk(statement)[0] is Class,
{
    lemma_walk_statement(text, scopes, statement);
}

/// Whether a binding leads to a place where its name is written. That can be told of functions
/// and classes, whose names are looked for in the text.
pub open spec fn reads_as_its_name(text: Seq<char>, binding: BindingView) -> bool {
    binding.kind == SymbolKind::Function || binding.kind == SymbolKind::Class ==> cut(
        text,
        binding.span,
    ) == encode_utf8(binding.name)
}

/// Whether each name stands for a binding of that name, which leads to a place where it is
/// written.
pub open spec fn names_hold(text: Seq<char>, scopes: Scopes) -> bool {
    forall|i: int, name: Seq<char>|
        0 <= i < scopes.len() && #[trigger] scopes[i].contains_key(name) ==> scopes[i][name].name
            == name && reads_as_its_name(text, scopes[i][name])
}

proof fn lemma_introduced_reads_as_its_name(text: Seq<char>, event: EventView)
    ensures
        introduced(text, event) is Some ==> reads_as_its_name(text, introduced(text, event)->0),
{
    match event {
        EventView::Function { name, span, .. } => {
            if defined_name(text, span, name) is Some {
                law_defined_name_reads_as_the_name(text, span, name);
            }
        },
        EventView::Class { name, span } => {
            if defined_name(text, span, name) is Some {
                law_defined_name_reads_as_the_name(text, span, name);
            }
        },
        _ => {},
    }
}

/// Whatever a walk meets, each name stands for a binding of that name, and the functions and
/// classes among them lead to places where their names are written.
pub proof fn law_names_hold_after_a_walk(text: Seq<char>, scopes: Scopes, events: Seq<EventView>)
    requires
        names_hold(text, scopes),
    ensures
        names_hold(text, after(text, scopes, events)),
    decreases events.len(),
{
    if events.len() > 0 {
        let event = events.last();
        law_names_hold_after_a_walk(text, scopes, events.drop_last());
        lemma_introduced_reads_as_its_name(text, event);
        let before = after(text, scopes, events.drop_last());
        let now = after(text, scopes, events);
        assert forall|i: int, name: Seq<char>|
            0 <= i < now.len() && #[trigger] now[i].contains_key(name) implies now[i][name].name
            == name && reads_as_its_name(text, now[i][name]) by {
            if i < before.len() {
                assert(before[i].contains_key(name) || now[i][name] == introduced(text, event)->0);
            }
        }
    }
}

/// What a name stands for bears that name, and leads to a place where it is written.
pub proof fn law_meaning_bears_the_name(text: Seq<char>, scopes: Scopes, name: Seq<char>)
    requires
        names_hold(text, scopes),
        resolved(scopes, name) is Some,
    ensures
        resolved(scopes, name)->0.name == name,
        reads_as_its_name(text, resolved(scopes, name)->0),
    decreases scopes.len(),
{
    let last = scopes.len() - 1;
    if scopes[last].contains_key(name) {
    } else {
        assert forall|i: int, key: Seq<char>|
            0 <= i < scopes.drop_last().len() && #[trigger] scopes.drop_last()[i].contains_key(
                key,
            ) implies scopes.drop_last()[i][key].name == key && reads_as_its_name(
            text,
            scopes.drop_last()[i][key],
        ) by {
            assert(scopes[i].contains_key(key));
        }
        law_meaning_bears_the_name(text, scopes.drop_last(), name);
    }
}

proof fn lemma_found_reads_as_its_name(
    text: Seq<char>,
    scopes: Scopes,
    events: Seq<EventView>,
    offset: u32,
)
    requires
        names_hold(text, scopes),
        binding_among(text, scopes, events, offset) is Some,
    ensures
        reads_as_its_name(text, binding_among(text, scopes, events, offset)->0),
    decreases events.len(),
{
    let event = events.last();
    if shows(text, event, offset) {
        match event {
            EventView::Use { id, .. } => {
                law_names_hold_after_a_walk(text, scopes, events.drop_last());
                law_meaning_bears_the_name(
                    text,
                    after(text, scopes, events.drop_last()),
                    id,
                );
            },
            _ => lemma_introduced_reads_as_its_name(text, event),
        }
    } else {
        lemma_found_reads_as_its_name(text, scopes, events.drop_last(), offset);
    }
}

/// A name that stands for a function or a class leads to a place where the name of the function
/// or class is written.
pub proof fn law_definition_reads_as_its_name(
    text: Seq<char>,
    scopes: Scopes,
    nodes: Seq<NodeView>,
    offset: u32,
)
    requires
        names_hold(text, scopes),
        binding_at(text, scopes, nodes, offset) is Some,
    ensures
        reads_as_its_name(text, binding_at(text, scopes, nodes, offset)->0),
    decreases nodes.len(),
{
    let events = walk_node(nodes.first());
    if binding_among(text, scopes, events, offset) is Some {
        lemma_found_reads_as_its_name(text, scopes, events, offset);
    } else {
        law_names_hold_after_a_walk(text, scopes, events);
        law_definition_reads_as_its_name(
            text,
            after(text, scopes, events),
            nodes.drop_first(),
            offset,
        );
    }
}

impl Scope {
    /// An empty scope.
    pub fn new() -> (scope: Scope)
        ensures
            scope@ == Map::<Seq<char>, BindingView>::empty(),
    {
        let scope = Scope { bindings: StringHashMap::new() };
        assert(scope@ =~= Map::empty());
        scope
    }

    /// Adds a binding.
    fn bind(&mut self, binding: Binding)
        ensures
            final(self)@ == old(self)@.insert(binding@.name, binding@),
    {
        self.bindings.insert(binding.name.clone(), binding);
        assert(self@ =~= old(self)@.insert(binding@.name, binding@));
    }

    /// Looks up a name.
    fn lookup(&self, name: &str) -> (binding: Option<Binding>)
        ensures
            optional_binding(binding) == (if self@.contains_key(name@) {
                Some(self@[name@])
            } else {
                None
            }),
    {
        match self.bindings.get(name) {
            Some(binding) => Some(binding.clone()),
            None => None,
        }
    }
}

impl ScopeStack {
    /// The scopes around the statements of a module.
    pub fn new() -> (stack: ScopeStack)
        ensures
            stack@ == module_scope(),
    {
        let mut scopes: Vec<Scope> = Vec::new();
        scopes.push(Scope::new());
        let stack = ScopeStack { scopes };
        assert(stack@ =~= module_scope());
        stack
    }

    /// Adds a binding to the innermost scope.
    pub fn bind_current(&mut self, binding: Binding)
        ensures
            final(self)@ == bound(old(self)@, binding@),
    {
        if let Some(mut scope) = self.scopes.pop() {
            scope.bind(binding);
            self.scopes.push(scope);
        }
        assert(self@ =~= bound(old(self)@, binding@));
    }

    /// Finds what a name stands for.
    pub fn resolve_name(&self, name: &str) -> (binding: Option<Binding>)
        ensures
            optional_binding(binding) == resolved(self@, name@),
    {
        let mut i: usize = self.scopes.len();
        assert(self@.take(i as int) =~= self@);
        while i > 0
            invariant
                i <= self.scopes@.len(),
                self.scopes@.len() == self@.len(),
                forall|j: int|
                    0 <= j < self.scopes@.len() ==> self@[j] == #[trigger] self.scopes@[j]@,
                resolved(self@, name@) == resolved(self@.take(i as int), name@),
            decreases i,
        {
            i = i - 1;
            assert(self@.take(i + 1).drop_last() =~= self@.take(i as int));
            let binding = self.scopes[i].lookup(name);
            if binding.is_some() {
                return binding;
            }
        }
        None
    }

    /// Follows one event.
    pub fn follow(&mut self, text: &str, event: &Event<'_>)
        ensures
            final(self)@ == after_event(text@, old(self)@, event@),
    {
        match *event {
            Event::Enter => {
                self.scopes.push(Scope::new());
            },
            Event::Leave => {
                self.scopes.pop();
            },
            _ => {
                if let Some(binding) = binding_of(text, event) {
                    self.bind_current(binding);
                }
            },
        }
        assert(self@ =~= after_event(text@, old(self)@, event@));
    }

    /// Finds the name that an event shows, with what it stands for.
    pub fn read(&self, text: &str, event: &Event<'_>) -> (name: Option<(Span, Option<Binding>)>)
        ensures
            match name {
                Some((span, binding)) => {
                    &&& shown_at(text@, event@) == Some(span)
                    &&& optional_binding(binding) == shown(text@, self@, event@)
                },
                None => {
                    &&& shown_at(text@, event@) is None
                    &&& shown(text@, self@, event@) is None
                },
            },
    {
        match *event {
            Event::Use { id, span } => Some((span, self.resolve_name(id.as_str()))),
            Event::Target { .. } => None,
            Event::Enter => None,
            Event::Leave => None,
            _ => match binding_of(text, event) {
                Some(binding) => Some((binding.span, Some(binding))),
                None => None,
            },
        }
    }
}

/// Finds what the name over the byte at `target_offset` stands for.
pub fn resolve_binding_at_offset(text: &str, module: &Vec<Node>, target_offset: u32) -> (binding:
    Option<Binding>)
    ensures
        optional_binding(binding) == binding_at(
            text@,
            module_scope(),
            node_views(module@),
            target_offset,
        ),
{
    let ghost nodes = node_views(module@);
    let mut stack = ScopeStack::new();
    let mut k: usize = 0;
    proof {
        lemma_node_views(module@);
        assert(nodes.skip(0) =~= nodes);
    }
    while k < module.len()
        invariant
            k <= module@.len(),
            nodes == node_views(module@),
            nodes.len() == module@.len(),
            forall|i: int| 0 <= i < module@.len() ==> nodes[i] == #[trigger] module@[i]@,
            binding_at(text@, module_scope(), nodes, target_offset) == binding_at(
                text@,
                stack@,
                nodes.skip(k as int),
                target_offset,
            ),
        decreases module.len() - k,
    {
        let ghost before = stack@;
        let events = visit(&module[k]);
        let ghost trail = event_views(events@);
        let mut found: Option<Binding> = None;
        let mut i: usize = 0;
        assert(trail.take(0) =~= Seq::empty());
        while i < events.len()
            invariant
                i <= events@.len(),
                trail == event_views(events@),
                stack@ == after(text@, before, trail.take(i as int)),
                optional_binding(found) == binding_among(
                    text@,
                    before,
                    trail.take(i as int),
                    target_offset,
                ),
            decreases events.len() - i,
        {
            assert(trail.take(i + 1).drop_last() =~= trail.take(i as int));
            if let Some((span, binding)) = stack.read(text, &events[i]) {
                if span.contains(target_offset) {
                    found = binding;
                }
            }
            stack.follow(text, &events[i]);
            i = i + 1;
        }
        assert(trail.take(trail.len() as int) =~= trail);
        assert(nodes.skip(k as int).first() == module@[k as int]@);
        assert(nodes.skip(k as int).drop_first() =~= nodes.skip(k + 1));
        if found.is_some() {
            return found;
        }
        k = k + 1;
    }
    None
}

} // verus!
