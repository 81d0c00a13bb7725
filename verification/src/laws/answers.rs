use crate::binding::{introduced, BindingView, ImportView, SymbolKind};
use crate::hover::{
    defined_symbol, hover_text_at, kind_name, name_among, pointed_name, shown_text, symbol_at,
    symbols_after, symbols_in, SymbolView, Symbols,
};
use crate::location::{optional_location, range_of, LocationView};
use crate::references::{
    definition_of, import_target, imports_among, mentions, references_in, references_in_all,
    refers_to, ResolvedImport, SearchedFile,
};
use crate::scope::{after, module_scope, shown, shown_at, Scopes};
use crate::search::defined_name;
use crate::symbols::{outline, outlined, DocumentSymbolView};
use crate::syntax::{signature, ExpressionView, NodeView, ParamView, Span};
use crate::trace::{walk_all, walk_node, EventView};
use vstd::prelude::*;

verus! {

/// A function is known by its signature and a class by its name, at the place of the name. Nothing
/// else is a symbol, and neither is a definition whose name is not found.
pub proof fn law_functions_and_classes_are_symbols(
    text: Seq<char>,
    name: Seq<char>,
    span: Span,
    params: Seq<ParamView>,
    return_type: Option<ExpressionView>,
    event: EventView,
)
    ensures
        ({
            let function = defined_symbol(
                text,
                EventView::Function { name, span, params, return_type },
            );
            let class = defined_symbol(text, EventView::Class { name, span });
            match defined_name(text, span, name) {
                Some(found) => {
                    &&& function == Some(
                        (
                            found,
                            SymbolView {
                                name,
                                kind: SymbolKind::Function,
                                detail: Some(signature(name, params, return_type)),
                            },
                        ),
                    )
                    &&& class == Some(
                        (
                            found,
                            SymbolView {
                                name,
                                kind: SymbolKind::Class,
                                detail: Some("class "@ + name),
                            },
                        ),
                    )
                },
                None => function is None && class is None,
            }
        }),
        !(event is Function) && !(event is Class) ==> defined_symbol(text, event) is None,
{
}

/// A reader can point at a name in an expression where it stands, and at the name of a function or
/// a class.
pub proof fn law_names_can_be_pointed_at(text: Seq<char>, event: EventView)
    ensures
        match event {
            EventView::Use { id, span } => pointed_name(text, event) == Some((span, id)),
            _ => match defined_symbol(text, event) {
                Some((span, symbol)) => pointed_name(text, event) == Some((span, symbol.name)),
                None => pointed_name(text, event) is None,
            },
        },
{
}

/// Whether an event shows a name to a reader who points at a byte.
pub open spec fn points_at(text: Seq<char>, event: EventView, offset: u32) -> bool {
    match pointed_name(text, event) {
        Some((span, _)) => span.start <= offset && offset < span.end,
        None => false,
    }
}

/// Of the names that stand over a byte the last one is pointed at, and none if there is none.
pub proof fn law_last_name_is_pointed_at(
    text: Seq<char>,
    events: Seq<EventView>,
    offset: u32,
    i: int,
)
    ensures
        0 <= i < events.len() && points_at(text, events[i], offset) && (forall|j: int|
            i < j < events.len() ==> !points_at(text, events[j], offset)) ==> {
            &&& pointed_name(text, events[i]) is Some
            &&& match pointed_name(text, events[i]) {
                Some((_, name)) => name_among(text, events, offset) == Some(name),
                None => false,
            }
        },
        (forall|j: int| 0 <= j < events.len() ==> !points_at(text, events[j], offset))
            ==> name_among(text, events, offset) is None,
    decreases events.len(),
{
    if events.len() > 0 {
        let shorter = events.drop_last();
        assert(events.last() == events[events.len() - 1]);
        law_last_name_is_pointed_at(text, shorter, offset, i);
        assert(forall|j: int| 0 <= j < shorter.len() ==> shorter[j] == events[j]);
    }
}

/// A symbol is known from its definition on, in place of an earlier one of its name, and all
/// others stay known.
pub proof fn law_symbols_are_known_from_their_definition_on(
    text: Seq<char>,
    symbols: Symbols,
    events: Seq<EventView>,
    event: EventView,
    other: Seq<char>,
)
    ensures
        symbols_after(text, symbols, Seq::empty()) == symbols,
        ({
            let before = symbols_after(text, symbols, events);
            let now = symbols_after(text, symbols, events.push(event));
            match defined_symbol(text, event) {
                Some((_, symbol)) => {
                    &&& now.contains_key(symbol.name)
                    &&& now[symbol.name] == symbol
                    &&& other != symbol.name ==> (now.contains_key(other) <==> before.contains_key(
                        other,
                    ))
                    &&& other != symbol.name && before.contains_key(other) ==> now[other]
                        == before[other]
                },
                None => now == before,
            }
        }),
{
    assert(events.push(event).drop_last() =~= events);
}

/// The first node that shows a name over a byte decides, with the symbols that are known at its
/// end.
pub proof fn law_first_node_that_shows_a_name_decides(
    text: Seq<char>,
    symbols: Symbols,
    node: NodeView,
    rest: Seq<NodeView>,
    offset: u32,
)
    ensures
        symbol_at(text, symbols, Seq::empty(), offset) is None,
        symbols_in(text, symbols, Seq::empty()) == symbols,
        ({
            let known = symbols_after(text, symbols, walk_node(node));
            &&& symbol_at(text, symbols, seq![node] + rest, offset) == (match name_among(
                text,
                walk_node(node),
                offset,
            ) {
                Some(name) => Some((name, known)),
                None => symbol_at(text, known, rest, offset),
            })
            &&& symbols_in(text, symbols, seq![node] + rest) == symbols_in(text, known, rest)
        }),
{
    assert((seq![node] + rest).first() == node);
    assert((seq![node] + rest).drop_first() =~= rest);
}

/// Hover shows the detail of a known symbol, or its name if it has none, with its kind on the next
/// line. Of an unknown name it shows the name.
pub proof fn law_hover_shows_detail_and_kind(
    name: Seq<char>,
    symbols: Symbols,
    text: Seq<char>,
    nodes: Seq<NodeView>,
    offset: u32,
)
    ensures
        !symbols.contains_key(name) ==> shown_text(name, symbols) == "You are hovering over: "@
            + name + " "@,
        symbols.contains_key(name) && symbols[name].detail is Some ==> shown_text(name, symbols)
            == symbols[name].detail->0 + "\nkind: "@ + kind_name(symbols[name].kind),
        symbols.contains_key(name) && symbols[name].detail is None ==> shown_text(name, symbols)
            == symbols[name].name + "\nkind: "@ + kind_name(symbols[name].kind),
        kind_name(SymbolKind::Module) == "Module"@,
        kind_name(SymbolKind::Class) == "Class"@,
        kind_name(SymbolKind::Function) == "Function"@,
        kind_name(SymbolKind::Variable) == "Variable"@,
        hover_text_at(text, nodes, offset) is Some <==> symbol_at(
            text,
            Map::empty(),
            nodes,
            offset,
        ) is Some,
        match symbol_at(text, Map::empty(), nodes, offset) {
            Some((found, known)) => hover_text_at(text, nodes, offset) == Some(
                shown_text(found, known),
            ),
            None => true,
        },
{
}

/// An outline has an entry for each function and class whose name is found, whose range is the
/// whole definition and whose selection is the name. Nothing else makes an entry.
pub proof fn law_entry_takes_in_the_whole_definition(
    text: Seq<char>,
    name: Seq<char>,
    span: Span,
    params: Seq<ParamView>,
    return_type: Option<ExpressionView>,
    event: EventView,
)
    ensures
        ({
            let function = outlined(
                text,
                EventView::Function { name, span, params, return_type },
            );
            let class = outlined(text, EventView::Class { name, span });
            match defined_name(text, span, name) {
                Some(found) => {
                    &&& function is Some
                    &&& class is Some
                    &&& function->0.name == name
                    &&& class->0.name == name
                    &&& function->0.kind == SymbolKind::Function
                    &&& class->0.kind == SymbolKind::Class
                    &&& function->0.range == range_of(text, span)
                    &&& class->0.range == range_of(text, span)
                    &&& function->0.selection_range == range_of(text, found)
                    &&& class->0.selection_range == range_of(text, found)
                },
                None => function is None && class is None,
            }
        }),
        !(event is Function) && !(event is Class) ==> outlined(text, event) is None,
{
}

/// The outlines of two rows of events follow each other, and each event makes one entry or none.
pub proof fn law_outlines_follow_each_other(
    text: Seq<char>,
    first: Seq<EventView>,
    second: Seq<EventView>,
    event: EventView,
)
    ensures
        outline(text, Seq::empty()) == Seq::<DocumentSymbolView>::empty(),
        outline(text, seq![event]) == (match outlined(text, event) {
            Some(entry) => seq![entry],
            None => Seq::empty(),
        }),
        outline(text, first + second) == outline(text, first) + outline(text, second),
    decreases second.len(),
{
    reveal_with_fuel(outline, 2);
    assert(seq![event].drop_last() =~= Seq::empty());
    assert(outline(text, seq![event]) =~= (match outlined(text, event) {
        Some(entry) => seq![entry],
        None => Seq::empty(),
    }));
    if second.len() == 0 {
        assert(first + second =~= first);
    } else {
        assert((first + second).drop_last() =~= first + second.drop_last());
        law_outlines_follow_each_other(text, first, second.drop_last(), event);
    }
    assert(outline(text, first + second) =~= outline(text, first) + outline(text, second));
}

/// Every definition in a document has its entry in the outline, and every entry has its
/// definition.
pub proof fn law_every_definition_has_an_entry(
    text: Seq<char>,
    events: Seq<EventView>,
    entry: DocumentSymbolView,
)
    ensures
        outline(text, events).contains(entry) <==> exists|i: int|
            0 <= i < events.len() && outlined(text, #[trigger] events[i]) == Some(entry),
    decreases events.len(),
{
    if events.len() > 0 {
        let shorter = events.drop_last();
        let last = events.len() - 1;
        law_every_definition_has_an_entry(text, shorter, entry);
        let all = outline(text, events);
        let earlier = outline(text, shorter);
        if earlier.contains(entry) {
            let k = choose|k: int| 0 <= k < earlier.len() && earlier[k] == entry;
            assert(all[k] == entry);
            let i = choose|i: int|
                0 <= i < shorter.len() && outlined(text, #[trigger] shorter[i]) == Some(entry);
            assert(events[i] == shorter[i]);
        }
        if outlined(text, events[last]) == Some(entry) {
            assert(all[all.len() - 1] == entry);
        }
        if all.contains(entry) && !earlier.contains(entry) {
            let k = choose|k: int| 0 <= k < all.len() && all[k] == entry;
            if k < earlier.len() {
                assert(earlier[k] == entry);
            }
            assert(outlined(text, events[last]) == Some(entry));
        }
        if exists|i: int| 0 <= i < events.len() && outlined(text, #[trigger] events[i]) == Some(
            entry,
        ) {
            let i = choose|i: int|
                0 <= i < events.len() && outlined(text, #[trigger] events[i]) == Some(entry);
            if i < last {
                assert(shorter[i] == events[i]);
            }
        }
    }
}

/// An import leads to where the first row that speaks of it says, and nowhere if none does.
pub proof fn law_first_row_decides_where_an_import_leads(
    row: ResolvedImport,
    rest: Seq<ResolvedImport>,
    import: ImportView,
)
    ensures
        import_target(Seq::empty(), import) is None,
        row.import@ == import ==> import_target(seq![row] + rest, import) == optional_location(
            row.location,
        ),
        row.import@ != import ==> import_target(seq![row] + rest, import) == import_target(
            rest,
            import,
        ),
{
    assert((seq![row] + rest).first() == row);
    assert((seq![row] + rest).drop_first() =~= rest);
}

/// An imported name is defined where its import leads, and any other in its own file at the place
/// of its binding.
pub proof fn law_name_is_defined_where_its_import_leads(
    uri: Seq<char>,
    text: Seq<char>,
    imports: Seq<ResolvedImport>,
    binding: BindingView,
)
    ensures
        match binding.import {
            Some(import) => definition_of(uri, text, imports, binding) == import_target(
                imports,
                import,
            ),
            None => {
                &&& definition_of(uri, text, imports, binding) is Some
                &&& definition_of(uri, text, imports, binding)->0.uri == uri
                &&& definition_of(uri, text, imports, binding)->0.range == range_of(
                    text,
                    binding.span,
                )
            },
        },
{
}

/// A name is a reference to a definition if what it stands for is defined there.
pub proof fn law_name_refers_to_its_definition(
    uri: Seq<char>,
    text: Seq<char>,
    imports: Seq<ResolvedImport>,
    target: LocationView,
    scopes: Scopes,
    event: EventView,
)
    ensures
        refers_to(uri, text, imports, target, scopes, event) <==> shown(text, scopes, event) is Some
            && definition_of(uri, text, imports, shown(text, scopes, event)->0) == Some(target),
{
}

/// The references among two rows of events follow each other, the second in the scopes that the
/// first leaves. Each event that refers to the definition is one reference, at the place where it
/// shows its name.
pub proof fn law_mentions_follow_each_other(
    uri: Seq<char>,
    text: Seq<char>,
    imports: Seq<ResolvedImport>,
    target: LocationView,
    scopes: Scopes,
    events: Seq<EventView>,
    event: EventView,
)
    ensures
        mentions(uri, text, imports, target, scopes, Seq::empty()) == Seq::<Span>::empty(),
        ({
            let earlier = mentions(uri, text, imports, target, scopes, events);
            let around = after(text, scopes, events);
            let all = mentions(uri, text, imports, target, scopes, events.push(event));
            if refers_to(uri, text, imports, target, around, event) {
                all == earlier + seq![shown_at(text, event)->0]
            } else {
                all == earlier
            }
        }),
{
    assert(events.push(event).drop_last() =~= events);
    let earlier = mentions(uri, text, imports, target, scopes, events);
    assert(earlier.push(shown_at(text, event)->0) =~= earlier + seq![shown_at(text, event)->0]);
}

/// Every event of a file that refers to a definition is among the references to it.
pub proof fn law_every_reference_is_mentioned(
    uri: Seq<char>,
    text: Seq<char>,
    imports: Seq<ResolvedImport>,
    target: LocationView,
    scopes: Scopes,
    events: Seq<EventView>,
    i: int,
)
    requires
        0 <= i < events.len(),
        refers_to(uri, text, imports, target, after(text, scopes, events.take(i)), events[i]),
    ensures
        shown_at(text, events[i]) is Some,
        mentions(uri, text, imports, target, scopes, events).contains(
            shown_at(text, events[i])->0,
        ),
    decreases events.len(),
{
    let all = mentions(uri, text, imports, target, scopes, events);
    let shorter = events.drop_last();
    let last = events.len() - 1;
    assert(events.take(last) =~= shorter);
    if i == last {
        assert(all[all.len() - 1] == shown_at(text, events[i])->0);
    } else {
        assert(shorter.take(i) =~= events.take(i));
        assert(shorter[i] == events[i]);
        law_every_reference_is_mentioned(uri, text, imports, target, scopes, shorter, i);
        let earlier = mentions(uri, text, imports, target, scopes, shorter);
        let wanted = shown_at(text, events[i])->0;
        let k = choose|k: int| 0 <= k < earlier.len() && earlier[k] == wanted;
        assert(all[k] == wanted);
    }
}

/// The references in a file are those of its walk from the module scope on, each at its place in
/// the file.
pub proof fn law_references_in_a_file_lie_in_it(file: SearchedFile, target: LocationView, k: int)
    ensures
        ({
            let spans = mentions(
                file.uri@,
                file.source.text@,
                file.imports@,
                target,
                module_scope(),
                walk_all(file.source@.module),
            );
            &&& references_in(file, target).len() == spans.len()
            &&& 0 <= k < spans.len() ==> {
                &&& references_in(file, target)[k].uri == file.uri@
                &&& references_in(file, target)[k].range == range_of(
                    file.source.text@,
                    spans[k],
                )
            }
        }),
{
}

/// The references in a row of files are those in each of them, file after file. No file hides
/// another, whatever it mentions.
pub proof fn law_every_file_is_searched(
    first: Seq<SearchedFile>,
    second: Seq<SearchedFile>,
    file: SearchedFile,
    target: LocationView,
)
    ensures
        references_in_all(Seq::empty(), target) == Seq::<LocationView>::empty(),
        references_in_all(seq![file], target) == references_in(file, target),
        references_in_all(first + second, target) == references_in_all(first, target)
            + references_in_all(second, target),
    decreases second.len(),
{
    reveal_with_fuel(references_in_all, 2);
    assert(seq![file].drop_last() =~= Seq::empty());
    assert(references_in_all(seq![file], target) =~= references_in(file, target));
    if second.len() == 0 {
        assert(first + second =~= first);
    } else {
        assert((first + second).drop_last() =~= first + second.drop_last());
        law_every_file_is_searched(first, second.drop_last(), file, target);
    }
    assert(references_in_all(first + second, target) =~= references_in_all(first, target)
        + references_in_all(second, target));
}

/// The references in each of the searched files are all found, and nothing else is.
pub proof fn law_references_of_every_file_are_found(
    files: Seq<SearchedFile>,
    target: LocationView,
    location: LocationView,
)
    ensures
        references_in_all(files, target).contains(location) <==> exists|i: int|
            0 <= i < files.len() && references_in(#[trigger] files[i], target).contains(location),
    decreases files.len(),
{
    if files.len() > 0 {
        let shorter = files.drop_last();
        let last = files.len() - 1;
        let earlier = references_in_all(shorter, target);
        let here = references_in(files[last], target);
        law_references_of_every_file_are_found(shorter, target, location);
        if earlier.contains(location) {
            let k = choose|k: int| 0 <= k < earlier.len() && earlier[k] == location;
            assert((earlier + here)[k] == location);
            let i = choose|i: int|
                0 <= i < shorter.len() && references_in(#[trigger] shorter[i], target).contains(
                    location,
                );
            assert(files[i] == shorter[i]);
        }
        if here.contains(location) {
            let k = choose|k: int| 0 <= k < here.len() && here[k] == location;
            assert((earlier + here)[earlier.len() + k] == location);
            assert(references_in(files[last], target).contains(location));
        }
        if (earlier + here).contains(location) && !earlier.contains(location) {
            let k = choose|k: int|
                0 <= k < (earlier + here).len() && (earlier + here)[k] == location;
            if k < earlier.len() {
                assert(earlier[k] == location);
            } else {
                assert(here[k - earlier.len()] == location);
            }
        }
        if exists|i: int|
            0 <= i < files.len() && references_in(#[trigger] files[i], target).contains(location) {
            let i = choose|i: int|
                0 <= i < files.len() && references_in(#[trigger] files[i], target).contains(
                    location,
                );
            if i < last {
                assert(shorter[i] == files[i]);
            }
        }
    }
}

/// The imports of two rows of events follow each other, and each event that binds an imported name
/// brings its import.
pub proof fn law_imports_follow_each_other(
    text: Seq<char>,
    first: Seq<EventView>,
    second: Seq<EventView>,
    event: EventView,
)
    ensures
        imports_among(text, Seq::empty()) == Seq::<ImportView>::empty(),
        imports_among(text, seq![event]) == (if introduced(text, event) is Some && introduced(
            text,
            event,
        )->0.import is Some {
            seq![introduced(text, event)->0.import->0]
        } else {
            Seq::empty()
        }),
        imports_among(text, first + second) == imports_among(text, first) + imports_among(
            text,
            second,
        ),
    decreases second.len(),
{
    reveal_with_fuel(imports_among, 2);
    assert(seq![event].drop_last() =~= Seq::empty());
    if introduced(text, event) is Some && introduced(text, event)->0.import is Some {
        assert(imports_among(text, seq![event]) =~= seq![introduced(text, event)->0.import->0]);
    }
    if second.len() == 0 {
        assert(first + second =~= first);
    } else {
        assert((first + second).drop_last() =~= first + second.drop_last());
        law_imports_follow_each_other(text, first, second.drop_last(), event);
    }
    assert(imports_among(text, first + second) =~= imports_among(text, first) + imports_among(
        text,
        second,
    ));
}

} // verus!
