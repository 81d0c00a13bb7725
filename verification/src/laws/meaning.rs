use crate::binding::{
    before_dot, imported_member, imported_module, introduced, BindingView, ImportView, SymbolKind,
};
use crate::scope::{
    after, after_event, binding_among, binding_at, bound, module_scope, resolved, shown, shown_at,
    shows, Scopes,
};
use crate::search::{can_cut, cut, defined_name, first_at, name_inside, occurs_at};
use crate::syntax::{ExpressionView, ImportedNameView, NodeView, ParamView, Span};
use crate::trace::{walk_node, EventView};
use vstd::prelude::*;
use vstd::utf8::{encode_utf8, is_char_boundary};

verus! {

/// Whether the bytes of a name stand in a text at the byte `at`, inside a definition.
pub open spec fn stands_at(text: Seq<char>, outer: Span, name: Seq<char>, at: int) -> bool {
    let size = encode_utf8(name).len();
    outer.start <= at && at + size <= outer.end && encode_utf8(text).subrange(at, at + size)
        == encode_utf8(name)
}

/// The name of a definition is found where its bytes first stand inside the definition, and is not
/// found if they do not stand there. A definition that does not begin and end between characters
/// of the text holds no name.
pub proof fn law_name_is_found_where_it_first_stands(
    text: Seq<char>,
    outer: Span,
    name: Seq<char>,
    k: int,
)
    ensures
        ({
            let bytes = encode_utf8(text);
            let size = encode_utf8(name).len();
            let fits = outer.start <= outer.end && outer.end <= bytes.len() && is_char_boundary(
                bytes,
                outer.start as int,
            ) && is_char_boundary(bytes, outer.end as int);
            &&& !fits ==> defined_name(text, outer, name) is None
            &&& fits && stands_at(text, outer, name, k) && (forall|at: int|
                at < k ==> !stands_at(text, outer, name, at)) ==> defined_name(text, outer, name)
                == Some(Span { start: k as u32, end: (k + size) as u32 })
            &&& fits && (forall|at: int| !stands_at(text, outer, name, at)) ==> defined_name(
                text,
                outer,
                name,
            ) is None
        }),
{
    let bytes = encode_utf8(text);
    let needle = encode_utf8(name);
    let fits = outer.start <= outer.end && outer.end <= bytes.len() && is_char_boundary(
        bytes,
        outer.start as int,
    ) && is_char_boundary(bytes, outer.end as int);
    if fits {
        let hay = cut(text, outer);
        if stands_at(text, outer, name, k) && (forall|at: int|
            at < k ==> !stands_at(text, outer, name, at)) {
            lemma_stands(text, outer, name, k);
            assert forall|j: int| j < k - outer.start implies !occurs_at(hay, needle, j) by {
                lemma_stands(text, outer, name, j + outer.start);
            }
            assert(first_at(hay, needle, k - outer.start));
            let found = choose|k: int| first_at(hay, needle, k);
            assert(first_at(hay, needle, found));
            assert(found == k - outer.start);
        }
        if forall|at: int| !stands_at(text, outer, name, at) {
            assert forall|j: int| !first_at(hay, needle, j) by {
                lemma_stands(text, outer, name, j + outer.start);
            }
        }
    }
}

/// A definition holds names if it begins and ends between characters of the text and does not end
/// before it begins, and its name is then looked for there.
pub proof fn law_definition_that_can_be_cut_holds_its_name(
    text: Seq<char>,
    outer: Span,
    name: Seq<char>,
)
    ensures
        can_cut(text, outer) <==> outer.start <= outer.end && outer.end <= encode_utf8(text).len()
            && is_char_boundary(encode_utf8(text), outer.start as int) && is_char_boundary(
            encode_utf8(text),
            outer.end as int,
        ),
        can_cut(text, outer) ==> name_inside(text, outer, name) == defined_name(text, outer, name),
        can_cut(text, outer) ==> cut(text, outer) == encode_utf8(text).subrange(
            outer.start as int,
            outer.end as int,
        ),
{
}

proof fn lemma_stands(text: Seq<char>, outer: Span, name: Seq<char>, at: int)
    requires
        outer.start <= outer.end,
        outer.end <= encode_utf8(text).len(),
    ensures
        stands_at(text, outer, name, at) <==> occurs_at(
            cut(text, outer),
            encode_utf8(name),
            at - outer.start,
        ),
{
    let size = encode_utf8(name).len();
    if outer.start <= at && at + size <= outer.end {
        assert(encode_utf8(text).subrange(at, at + size) =~= cut(text, outer).subrange(
            at - outer.start,
            at - outer.start + size,
        ));
    }
}

/// A text without a dot is its own beginning, and what stands behind a dot does not belong to it.
pub proof fn law_beginning_ends_at_the_first_dot(first: Seq<char>, rest: Seq<char>)
    requires
        forall|i: int| 0 <= i < first.len() ==> first[i] != '.',
    ensures
        before_dot(first) == first,
        before_dot(first + seq!['.'] + rest) == first,
    decreases first.len(),
{
    let all = first + seq!['.'] + rest;
    if first.len() == 0 {
        assert(all[0] == '.');
        assert(before_dot(first) =~= first);
        assert(before_dot(all) =~= first);
    } else {
        let shorter = first.drop_first();
        law_beginning_ends_at_the_first_dot(shorter, rest);
        assert(all.drop_first() =~= shorter + seq!['.'] + rest);
        assert(all[0] == first[0]);
        assert(seq![first[0]] + shorter =~= first);
    }
}

/// An imported module is bound to its other name if it has one, and else to the beginning of its
/// dotted name. It stands for the module as a whole.
pub proof fn law_imported_module_is_bound(imported: ImportedNameView, level: usize)
    ensures
        ({
            let binding = imported_module(imported, level);
            &&& imported.asname is Some ==> binding.name == imported.asname->0
            &&& imported.asname is None ==> binding.name == before_dot(imported.name)
            &&& binding.kind == SymbolKind::Module
            &&& binding.span == imported.span
            &&& binding.import == Some(
                ImportView { module: Some(imported.name), name: None, level },
            )
        }),
{
}

/// An imported name is bound to its other name if it has one, and else to itself. It stands for
/// that name of the module, whatever it is bound to. Only a star binds nothing.
pub proof fn law_imported_name_is_bound(
    module: Option<Seq<char>>,
    level: usize,
    imported: ImportedNameView,
)
    ensures
        imported_member(module, level, imported) is None <==> imported.name == "*"@,
        imported.name != "*"@ ==> {
            let binding = imported_member(module, level, imported)->0;
            &&& imported.asname is Some ==> binding.name == imported.asname->0
            &&& imported.asname is None ==> binding.name == imported.name
            &&& binding.kind == SymbolKind::Variable
            &&& binding.span == imported.span
            &&& binding.import == Some(ImportView { module, name: Some(imported.name), level })
        },
{
}

/// Functions and classes are bound at their names, parameters and targets where they stand, and
/// imported names as they are imported. Using a name and changing the scope bind nothing.
pub proof fn law_each_event_binds_its_name(
    text: Seq<char>,
    name: Seq<char>,
    span: Span,
    params: Seq<ParamView>,
    return_type: Option<ExpressionView>,
    param: ParamView,
    module: Option<Seq<char>>,
    level: usize,
    imported: ImportedNameView,
)
    ensures
        ({
            let function = introduced(
                text,
                EventView::Function { name, span, params, return_type },
            );
            let class = introduced(text, EventView::Class { name, span });
            match defined_name(text, span, name) {
                Some(found) => {
                    &&& function == Some(
                        BindingView {
                            name,
                            kind: SymbolKind::Function,
                            span: found,
                            import: None,
                        },
                    )
                    &&& class == Some(
                        BindingView { name, kind: SymbolKind::Class, span: found, import: None },
                    )
                },
                None => function is None && class is None,
            }
        }),
        introduced(text, EventView::Parameter { param }) == Some(
            BindingView {
                name: param.name,
                kind: SymbolKind::Variable,
                span: param.span,
                import: None,
            },
        ),
        introduced(text, EventView::Target { id: name, span }) == Some(
            BindingView { name, kind: SymbolKind::Variable, span, import: None },
        ),
        introduced(text, EventView::Import { imported }) == Some(imported_module(imported, 0)),
        introduced(text, EventView::ImportFrom { module, level, imported }) == imported_member(
            module,
            level,
            imported,
        ),
        introduced(text, EventView::Use { id: name, span }) is None,
        introduced(text, EventView::Enter) is None,
        introduced(text, EventView::Leave) is None,
{
}

/// A binding goes into the innermost scope, and leaves everything else there and all scopes
/// around it as they were.
pub proof fn law_binding_goes_into_the_innermost_scope(
    scopes: Scopes,
    binding: BindingView,
    other: Seq<char>,
)
    requires
        scopes.len() > 0,
    ensures
        ({
            let now = bound(scopes, binding);
            let last = scopes.len() - 1;
            &&& now.len() == scopes.len()
            &&& forall|i: int| 0 <= i < last ==> now[i] == scopes[i]
            &&& now[last].contains_key(binding.name)
            &&& now[last][binding.name] == binding
            &&& other != binding.name ==> (now[last].contains_key(other)
                <==> scopes[last].contains_key(other))
            &&& other != binding.name && scopes[last].contains_key(other) ==> now[last][other]
                == scopes[last][other]
        }),
        bound(Seq::empty(), binding) == Scopes::empty(),
{
}

/// A name stands for its binding in the innermost scope that has one, and for nothing if none has
/// one.
pub proof fn law_name_stands_for_its_innermost_binding(scopes: Scopes, name: Seq<char>, i: int)
    ensures
        0 <= i < scopes.len() && scopes[i].contains_key(name) && (forall|j: int|
            i < j < scopes.len() ==> !scopes[j].contains_key(name)) ==> resolved(scopes, name)
            == Some(scopes[i][name]),
        (forall|j: int| 0 <= j < scopes.len() ==> !scopes[j].contains_key(name)) ==> resolved(
            scopes,
            name,
        ) is None,
    decreases scopes.len(),
{
    if scopes.len() > 0 {
        let shorter = scopes.drop_last();
        law_name_stands_for_its_innermost_binding(shorter, name, i);
        assert(forall|j: int| 0 <= j < shorter.len() ==> shorter[j] == scopes[j]);
        assert(scopes.last() == scopes[scopes.len() - 1]);
    }
}

/// Following events begins with the scopes as they are and takes one event after the other. An
/// event opens an empty scope, closes the innermost one, adds its binding to it, or does nothing.
pub proof fn law_events_are_followed_in_order(
    text: Seq<char>,
    scopes: Scopes,
    events: Seq<EventView>,
    event: EventView,
)
    ensures
        after(text, scopes, Seq::empty()) == scopes,
        after(text, scopes, events.push(event)) == after_event(
            text,
            after(text, scopes, events),
            event,
        ),
        after_event(text, scopes, EventView::Enter) == scopes.push(Map::empty()),
        scopes.len() > 0 ==> after_event(text, scopes, EventView::Leave) == scopes.drop_last(),
        !(event is Enter) && !(event is Leave) ==> after_event(text, scopes, event) == (
        match introduced(text, event) {
            Some(binding) => bound(scopes, binding),
            None => scopes,
        }),
        module_scope().len() == 1,
        forall|name: Seq<char>| !(#[trigger] module_scope()[0].contains_key(name)),
{
    assert(events.push(event).drop_last() =~= events);
}

/// A name in an expression is shown where it stands, and stands for what it resolves to. A
/// definition, a parameter or an import shows what it binds. An assignment shows nothing by
/// itself.
pub proof fn law_each_event_shows_its_name(
    text: Seq<char>,
    scopes: Scopes,
    event: EventView,
    offset: u32,
)
    ensures
        match event {
            EventView::Use { id, span } => shown_at(text, event) == Some(span) && shown(
                text,
                scopes,
                event,
            ) == resolved(scopes, id),
            EventView::Target { .. } => shown_at(text, event) is None && shown(
                text,
                scopes,
                event,
            ) is None,
            _ => match introduced(text, event) {
                Some(binding) => shown_at(text, event) == Some(binding.span) && shown(
                    text,
                    scopes,
                    event,
                ) == Some(binding),
                None => shown_at(text, event) is None && shown(text, scopes, event) is None,
            },
        },
        shows(text, event, offset) <==> (match shown_at(text, event) {
            Some(span) => span.start <= offset && offset < span.end,
            None => false,
        }),
{
}

/// Of the events that show a name over a byte the last one counts, in the scopes that the events
/// before it leave. If none shows one there is nothing.
pub proof fn law_last_name_over_a_byte_counts(
    text: Seq<char>,
    scopes: Scopes,
    events: Seq<EventView>,
    offset: u32,
    i: int,
)
    ensures
        0 <= i < events.len() && shows(text, events[i], offset) && (forall|j: int|
            i < j < events.len() ==> !shows(text, events[j], offset)) ==> binding_among(
            text,
            scopes,
            events,
            offset,
        ) == shown(text, after(text, scopes, events.take(i)), events[i]),
        (forall|j: int| 0 <= j < events.len() ==> !shows(text, events[j], offset))
            ==> binding_among(text, scopes, events, offset) is None,
    decreases events.len(),
{
    if events.len() > 0 {
        let shorter = events.drop_last();
        let last = events.len() - 1;
        assert(events.last() == events[last]);
        assert(events.take(last) =~= shorter);
        if 0 <= i < last {
            assert(shorter.take(i) =~= events.take(i));
        }
        law_last_name_over_a_byte_counts(text, scopes, shorter, offset, i);
        assert(forall|j: int| 0 <= j < shorter.len() ==> shorter[j] == events[j]);
    }
}

/// The first node of a module that knows the name over a byte decides what it stands for, in the
/// scopes that the nodes before it leave.
pub proof fn law_first_node_that_knows_a_name_decides(
    text: Seq<char>,
    scopes: Scopes,
    node: NodeView,
    rest: Seq<NodeView>,
    offset: u32,
)
    ensures
        binding_at(text, scopes, Seq::empty(), offset) is None,
        binding_at(text, scopes, seq![node] + rest, offset) == (match binding_among(
            text,
            scopes,
            walk_node(node),
            offset,
        ) {
            Some(binding) => Some(binding),
            None => binding_at(text, after(text, scopes, walk_node(node)), rest, offset),
        }),
{
    assert((seq![node] + rest).first() == node);
    assert((seq![node] + rest).drop_first() =~= rest);
}

} // verus!
