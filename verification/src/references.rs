use crate::binding::{
    binding_of, introduced, optional_text, Binding, BindingView, ImportBinding, ImportView,
};
use crate::location::{
    locations_view, optional_location, range_of, to_lsp_range, Location, LocationView,
};
use crate::scope::{
    after, binding_among, binding_at, bound, lemma_after_concat, module_scope, resolved, shown,
    shown_at, shows, ScopeStack, Scopes,
};
use crate::source::Source;
use crate::syntax::{node_views, Node, NodeView, Span};
use crate::text::byte_len;
use crate::trace::{event_views, visit_all, walk_all, walk_node, EventView};
use vstd::prelude::*;

verus! {

/// Where an import of a file leads.
#[derive(Debug, PartialEq, Eq)]
pub struct ResolvedImport {
    pub import: ImportBinding,
    pub location: Option<Location>,
}

/// A file that is searched, with where its imports lead.
#[derive(Debug, PartialEq, Eq)]
pub struct SearchedFile {
    pub uri: String,
    pub source: Source,
    pub imports: Vec<ResolvedImport>,
}

/// Where an import leads, according to the first row that speaks of it.
pub open spec fn import_target(imports: Seq<ResolvedImport>, import: ImportView) -> Option<
    LocationView,
>
    decreases imports.len(),
{
    if imports.len() == 0 {
        None
    } else if imports.first().import@ == import {
        optional_location(imports.first().location)
    } else {
        import_target(imports.drop_first(), import)
    }
}

/// Where what a name stands for is defined: for an imported name where the import leads, and
/// for any other in the file itself.
pub open spec fn definition_of(
    uri: Seq<char>,
    text: Seq<char>,
    imports: Seq<ResolvedImport>,
    binding: BindingView,
) -> Option<LocationView> {
    match binding.import {
        Some(import) => import_target(imports, import),
        None => Some(LocationView { uri, range: range_of(text, binding.span) }),
    }
}

/// Whether an event shows a name that stands for what is defined at `target`.
pub open spec fn refers_to(
    uri: Seq<char>,
    text: Seq<char>,
    imports: Seq<ResolvedImport>,
    target: LocationView,
    scopes: Scopes,
    event: EventView,
) -> bool {
    match shown(text, scopes, event) {
        Some(binding) => definition_of(uri, text, imports, binding) == Some(target),
        None => false,
    }
}

/// The spans at which a row of events shows names that stand for what is defined at `target`.
pub open spec fn mentions(
    uri: Seq<char>,
    text: Seq<char>,
    imports: Seq<ResolvedImport>,
    target: LocationView,
    scopes: Scopes,
    events: Seq<EventView>,
) -> Seq<Span>
    decreases events.len(),
{
    if events.len() == 0 {
        Seq::empty()
    } else {
        let earlier = mentions(uri, text, imports, target, scopes, events.drop_last());
        let around = after(text, scopes, events.drop_last());
        if refers_to(uri, text, imports, target, around, events.last()) {
            earlier.push(shown_at(text, events.last())->0)
        } else {
            earlier
        }
    }
}

/// The references to `target` in a file.
pub open spec fn references_in(file: SearchedFile, target: LocationView) -> Seq<LocationView> {
    mentions(
        file.uri@,
        file.source.text@,
        file.imports@,
        target,
        module_scope(),
        walk_all(file.source@.module),
    ).map_values(
        |span: Span| LocationView { uri: file.uri@, range: range_of(file.source.text@, span) },
    )
}

/// The references to `target` in a row of files.
pub open spec fn references_in_all(files: Seq<SearchedFile>, target: LocationView) -> Seq<
    LocationView,
>
    decreases files.len(),
{
    if files.len() == 0 {
        Seq::empty()
    } else {
        references_in_all(files.drop_last(), target) + references_in(files.last(), target)
    }
}

/// The imports among a row of events.
pub open spec fn imports_among(text: Seq<char>, events: Seq<EventView>) -> Seq<ImportView>
    decreases events.len(),
{
    if events.len() == 0 {
        Seq::empty()
    } else {
        match introduced(text, events.last()) {
            Some(binding) if binding.import is Some => imports_among(
                text,
                events.drop_last(),
            ).push(binding.import->0),
            _ => imports_among(text, events.drop_last()),
        }
    }
}

/// What each of a row of imports says.
pub open spec fn imports_view(imports: Seq<ImportBinding>) -> Seq<ImportView> {
    imports.map_values(|import: ImportBinding| import@)
}

/// The references among two rows of events are those among the first and then those among
/// the second, with the scopes that the first leaves behind.
proof fn lemma_mentions_concat(
    uri: Seq<char>,
    text: Seq<char>,
    imports: Seq<ResolvedImport>,
    target: LocationView,
    scopes: Scopes,
    first: Seq<EventView>,
    second: Seq<EventView>,
)
    ensures
        mentions(uri, text, imports, target, scopes, first + second) == mentions(
            uri,
            text,
            imports,
            target,
            scopes,
            first,
        ) + mentions(uri, text, imports, target, after(text, scopes, first), second),
    decreases second.len(),
{
    let around = after(text, scopes, first);
    if second.len() == 0 {
        assert(first + second =~= first);
        assert(mentions(uri, text, imports, target, scopes, first + second) =~= mentions(
            uri,
            text,
            imports,
            target,
            scopes,
            first,
        ) + mentions(uri, text, imports, target, around, second));
    } else {
        let shorter = second.drop_last();
        assert((first + second).drop_last() =~= first + shorter);
        lemma_mentions_concat(uri, text, imports, target, scopes, first, shorter);
        lemma_after_concat(text, scopes, first, shorter);
        assert(mentions(uri, text, imports, target, scopes, first + second) =~= mentions(
            uri,
            text,
            imports,
            target,
            scopes,
            first,
        ) + mentions(uri, text, imports, target, around, second));
    }
}

/// A module is walked through from its first node on.
proof fn lemma_walk_all_first(nodes: Seq<NodeView>)
    requires
        nodes.len() > 0,
    ensures
        walk_all(nodes) == walk_node(nodes.first()) + walk_all(nodes.drop_first()),
    decreases nodes.len(),
{
    if nodes.len() == 1 {
        assert(nodes.drop_last() =~= Seq::empty());
        assert(nodes.drop_first() =~= Seq::empty());
        assert(walk_all(nodes) =~= walk_node(nodes.first()) + walk_all(nodes.drop_first()));
    } else {
        lemma_walk_all_first(nodes.drop_last());
        assert(nodes.drop_last().drop_first() =~= nodes.drop_first().drop_last());
        assert(walk_all(nodes) =~= walk_node(nodes.first()) + walk_all(nodes.drop_first()));
    }
}

/// Whether one of the spans covers the byte at `offset`.
pub open spec fn one_covers(spans: Seq<Span>, offset: u32) -> bool {
    exists|k: int| 0 <= k < spans.len() && (#[trigger] spans[k]).covers(offset)
}

proof fn lemma_one_covers_concat(first: Seq<Span>, second: Seq<Span>, offset: u32)
    ensures
        one_covers(first + second, offset) <==> one_covers(first, offset) || one_covers(
            second,
            offset,
        ),
{
    let all = first + second;
    if one_covers(first, offset) {
        let k = choose|k: int| 0 <= k < first.len() && (#[trigger] first[k]).covers(offset);
        assert(all[k].covers(offset));
    }
    if one_covers(second, offset) {
        let k = choose|k: int| 0 <= k < second.len() && (#[trigger] second[k]).covers(offset);
        assert(all[first.len() + k].covers(offset));
    }
    if one_covers(all, offset) {
        let k = choose|k: int| 0 <= k < all.len() && (#[trigger] all[k]).covers(offset);
        if k < first.len() {
            assert(first[k].covers(offset));
        } else {
            assert(second[k - first.len()].covers(offset));
        }
    }
}

proof fn lemma_found_event_is_mentioned(
    uri: Seq<char>,
    text: Seq<char>,
    imports: Seq<ResolvedImport>,
    target: LocationView,
    scopes: Scopes,
    events: Seq<EventView>,
    offset: u32,
)
    requires
        binding_among(text, scopes, events, offset) is Some,
        definition_of(uri, text, imports, binding_among(text, scopes, events, offset)->0) == Some(
            target,
        ),
    ensures
        one_covers(mentions(uri, text, imports, target, scopes, events), offset),
    decreases events.len(),
{
    let all = mentions(uri, text, imports, target, scopes, events);
    if shows(text, events.last(), offset) {
        assert(all.last().covers(offset));
    } else {
        lemma_found_event_is_mentioned(
            uri,
            text,
            imports,
            target,
            scopes,
            events.drop_last(),
            offset,
        );
        let earlier = mentions(uri, text, imports, target, scopes, events.drop_last());
        let k = choose|k: int| 0 <= k < earlier.len() && (#[trigger] earlier[k]).covers(offset);
        assert(all[k] == earlier[k]);
    }
}

/// The references to what a name stands for take in that name itself: where a name resolves
/// to something that is defined at `target`, one of the references to `target` lies over it.
pub proof fn law_references_take_in_the_name_itself(
    uri: Seq<char>,
    text: Seq<char>,
    imports: Seq<ResolvedImport>,
    target: LocationView,
    scopes: Scopes,
    nodes: Seq<NodeView>,
    offset: u32,
)
    requires
        binding_at(text, scopes, nodes, offset) is Some,
        definition_of(uri, text, imports, binding_at(text, scopes, nodes, offset)->0) == Some(
            target,
        ),
    ensures
        one_covers(mentions(uri, text, imports, target, scopes, walk_all(nodes)), offset),
    decreases nodes.len(),
{
    let events = walk_node(nodes.first());
    let rest = nodes.drop_first();
    let around = after(text, scopes, events);
    lemma_walk_all_first(nodes);
    lemma_mentions_concat(uri, text, imports, target, scopes, events, walk_all(rest));
    lemma_one_covers_concat(
        mentions(uri, text, imports, target, scopes, events),
        mentions(uri, text, imports, target, around, walk_all(rest)),
        offset,
    );
    if binding_among(text, scopes, events, offset) is Some {
        lemma_found_event_is_mentioned(uri, text, imports, target, scopes, events, offset);
    } else {
        law_references_take_in_the_name_itself(
            uri,
            text,
            imports,
            target,
            around,
            rest,
            offset,
        );
    }
}

/// Every reference is a name that stands for what is defined at the target.
pub proof fn law_references_are_names_of_the_target(
    uri: Seq<char>,
    text: Seq<char>,
    imports: Seq<ResolvedImport>,
    target: LocationView,
    scopes: Scopes,
    events: Seq<EventView>,
    k: int,
)
    requires
        0 <= k < mentions(uri, text, imports, target, scopes, events).len(),
    ensures
        exists|i: int|
            0 <= i < events.len() && refers_to(
                uri,
                text,
                imports,
                target,
                after(text, scopes, events.take(i)),
                #[trigger] events[i],
            ) && shown_at(text, events[i]) == Some(
                mentions(uri, text, imports, target, scopes, events)[k],
            ),
    decreases events.len(),
{
    let shorter = events.drop_last();
    let earlier = mentions(uri, text, imports, target, scopes, shorter);
    let n = events.len() - 1;
    assert(events.take(n) =~= shorter);
    if k < earlier.len() {
        law_references_are_names_of_the_target(uri, text, imports, target, scopes, shorter, k);
        let i = choose|i: int|
            0 <= i < shorter.len() && refers_to(
                uri,
                text,
                imports,
                target,
                after(text, scopes, shorter.take(i)),
                #[trigger] shorter[i],
            ) && shown_at(text, shorter[i]) == Some(earlier[k]);
        assert(events.take(i) =~= shorter.take(i));
        assert(events[i] == shorter[i]);
    } else {
        assert(events[n] == events.last());
    }
}

/// Whether each imported name in the scopes comes from one of the given imports.
pub open spec fn imported_from(scopes: Scopes, imports: Seq<ImportView>) -> bool {
    forall|i: int, name: Seq<char>|
        0 <= i < scopes.len() && #[trigger] scopes[i].contains_key(name)
            && scopes[i][name].import is Some ==> imports.contains(scopes[i][name].import->0)
}

proof fn lemma_resolved_is_imported_from(
    scopes: Scopes,
    imports: Seq<ImportView>,
    name: Seq<char>,
)
    requires
        imported_from(scopes, imports),
        resolved(scopes, name) is Some,
        resolved(scopes, name)->0.import is Some,
    ensures
        imports.contains(resolved(scopes, name)->0.import->0),
    decreases scopes.len(),
{
    let last = scopes.len() - 1;
    if scopes[last].contains_key(name) {
    } else {
        assert forall|i: int, key: Seq<char>|
            0 <= i < scopes.drop_last().len() && #[trigger] scopes.drop_last()[i].contains_key(key)
                && scopes.drop_last()[i][key].import is Some implies imports.contains(
            scopes.drop_last()[i][key].import->0,
        ) by {
            assert(scopes[i].contains_key(key));
        }
        lemma_resolved_is_imported_from(scopes.drop_last(), imports, name);
    }
}

/// The imports among a prefix are imports among the whole.
proof fn lemma_imports_grow(text: Seq<char>, events: Seq<EventView>, import: ImportView)
    requires
        events.len() > 0,
        imports_among(text, events.drop_last()).contains(import),
    ensures
        imports_among(text, events).contains(import),
{
    let earlier = imports_among(text, events.drop_last());
    let all = imports_among(text, events);
    let k = choose|k: int| 0 <= k < earlier.len() && earlier[k] == import;
    assert(all[k] == import);
}

/// An import that an event introduces is among the imports.
proof fn lemma_introduced_import(text: Seq<char>, events: Seq<EventView>)
    requires
        events.len() > 0,
        introduced(text, events.last()) is Some,
        introduced(text, events.last())->0.import is Some,
    ensures
        imports_among(text, events).contains(introduced(text, events.last())->0.import->0),
{
    let all = imports_among(text, events);
    assert(all[all.len() - 1] == introduced(text, events.last())->0.import->0);
}

/// Every imported name that is known after a row of events comes from one of its imports.
proof fn lemma_scopes_are_imported_from(text: Seq<char>, events: Seq<EventView>)
    ensures
        imported_from(after(text, module_scope(), events), imports_among(text, events)),
    decreases events.len(),
{
    if events.len() > 0 {
        let event = events.last();
        let before = after(text, module_scope(), events.drop_last());
        let now = after(text, module_scope(), events);
        let all = imports_among(text, events);
        lemma_scopes_are_imported_from(text, events.drop_last());
        assert forall|i: int, name: Seq<char>|
            0 <= i < now.len() && #[trigger] now[i].contains_key(name)
                && now[i][name].import is Some implies all.contains(now[i][name].import->0) by {
            let import = now[i][name].import->0;
            if i < before.len() && before[i].contains_key(name) && before[i][name] == now[i][name] {
                lemma_imports_grow(text, events, import);
            } else {
                match event {
                    EventView::Enter => {
                        assert(now[i] == before.push(Map::empty())[i]);
                    },
                    EventView::Leave => {},
                    _ => {
                        assert(introduced(text, event) is Some);
                        assert(now == bound(before, introduced(text, event)->0));
                        lemma_introduced_import(text, events);
                    },
                }
            }
        }
    }
}

proof fn lemma_mentions_by_listed_imports(
    uri: Seq<char>,
    text: Seq<char>,
    imports: Seq<ResolvedImport>,
    others: Seq<ResolvedImport>,
    target: LocationView,
    events: Seq<EventView>,
)
    requires
        forall|import: ImportView| #[trigger]
            imports_among(text, events).contains(import) ==> import_target(imports, import)
                == import_target(others, import),
    ensures
        mentions(uri, text, imports, target, module_scope(), events) == mentions(
            uri,
            text,
            others,
            target,
            module_scope(),
            events,
        ),
    decreases events.len(),
{
    if events.len() > 0 {
        let event = events.last();
        let before = after(text, module_scope(), events.drop_last());
        assert forall|import: ImportView| #[trigger]
            imports_among(text, events.drop_last()).contains(import) implies import_target(
            imports,
            import,
        ) == import_target(others, import) by {
            lemma_imports_grow(text, events, import);
        }
        lemma_mentions_by_listed_imports(uri, text, imports, others, target, events.drop_last());
        match shown(text, before, event) {
            Some(binding) => {
                if binding.import is Some {
                    if event is Use {
                        lemma_scopes_are_imported_from(text, events.drop_last());
                        lemma_resolved_is_imported_from(
                            before,
                            imports_among(text, events.drop_last()),
                            event->Use_id,
                        );
                        lemma_imports_grow(text, events, binding.import->0);
                    } else {
                        lemma_introduced_import(text, events);
                    }
                }
            },
            None => {},
        }
    }
}

/// The references in a file depend on where the imports lead that [`imports_of`] lists, and on
/// no others.
pub proof fn law_only_listed_imports_matter(
    file: SearchedFile,
    other: SearchedFile,
    target: LocationView,
)
    requires
        file.uri@ == other.uri@,
        file.source.text@ == other.source.text@,
        file.source@.module == other.source@.module,
        forall|import: ImportView| #[trigger]
            imports_among(file.source.text@, walk_all(file.source@.module)).contains(import)
                ==> import_target(file.imports@, import) == import_target(other.imports@, import),
    ensures
        references_in(file, target) == references_in(other, target),
{
    lemma_mentions_by_listed_imports(
        file.uri@,
        file.source.text@,
        file.imports@,
        other.imports@,
        target,
        walk_all(file.source@.module),
    );
    assert(references_in(file, target) =~= references_in(other, target));
}

/// Whether two optional texts are the same.
fn same_text(a: &Option<String>, b: &Option<String>) -> (same: bool)
    ensures
        same == (optional_text(*a) == optional_text(*b)),
{
    match (a, b) {
        (Some(a), Some(b)) => *a == *b,
        (None, None) => true,
        _ => false,
    }
}

/// Whether two imports are the same.
fn same_import(a: &ImportBinding, b: &ImportBinding) -> (same: bool)
    ensures
        same == (a@ == b@),
{
    same_text(&a.module, &b.module) && same_text(&a.name, &b.name) && a.level == b.level
}

/// Whether two locations are the same.
fn same_location(a: &Location, b: &Location) -> (same: bool)
    ensures
        same == (a@ == b@),
{
    a.uri == b.uri && a.range == b.range
}

/// Looks up where an import leads.
fn find_import_target(imports: &Vec<ResolvedImport>, import: &ImportBinding) -> (location: Option<
    Location,
>)
    ensures
        optional_location(location) == import_target(imports@, import@),
{
    let mut i: usize = 0;
    assert(imports@.skip(0) =~= imports@);
    while i < imports.len()
        invariant
            i <= imports@.len(),
            import_target(imports@, import@) == import_target(imports@.skip(i as int), import@),
        decreases imports.len() - i,
    {
        assert(imports@.skip(i as int).first() == imports@[i as int]);
        assert(imports@.skip(i as int).drop_first() =~= imports@.skip(i + 1));
        if same_import(&imports[i].import, import) {
            return match &imports[i].location {
                Some(location) => Some(location.clone()),
                None => None,
            };
        }
        i = i + 1;
    }
    None
}

/// Finds where what a name of a file stands for is defined.
pub fn binding_definition_location(
    uri: &str,
    text: &str,
    imports: &Vec<ResolvedImport>,
    binding: &Binding,
) -> (location: Option<Location>)
    requires
        byte_len(text@) <= u32::MAX,
    ensures
        optional_location(location) == definition_of(uri@, text@, imports@, binding@),
{
    match &binding.import {
        Some(import) => find_import_target(imports, import),
        None => Some(Location { uri: uri.to_owned(), range: to_lsp_range(text, binding.span) }),
    }
}

/// Whether a name of a file stands for what is defined at `target`.
pub fn matches_target(
    uri: &str,
    text: &str,
    imports: &Vec<ResolvedImport>,
    target: &Location,
    binding: &Binding,
) -> (matching: bool)
    requires
        byte_len(text@) <= u32::MAX,
    ensures
        matching == (definition_of(uri@, text@, imports@, binding@) == Some(target@)),
{
    match binding_definition_location(uri, text, imports, binding) {
        Some(location) => same_location(&location, target),
        None => false,
    }
}

/// Lists the imports of a module, in the order in which they are met.
pub fn imports_of(text: &str, module: &Vec<Node>) -> (imports: Vec<ImportBinding>)
    ensures
        imports_view(imports@) == imports_among(text@, walk_all(node_views(module@))),
{
    let events = visit_all(module);
    let mut imports: Vec<ImportBinding> = Vec::new();
    let mut i: usize = 0;
    let ghost trail = event_views(events@);
    assert(trail.take(0) =~= Seq::empty());
    assert(imports_view(imports@) =~= Seq::empty());
    while i < events.len()
        invariant
            i <= events@.len(),
            trail == event_views(events@),
            imports_view(imports@) == imports_among(text@, trail.take(i as int)),
        decreases events.len() - i,
    {
        assert(trail.take(i + 1).drop_last() =~= trail.take(i as int));
        let ghost before = imports@;
        if let Some(binding) = binding_of(text, &events[i]) {
            if let Some(import) = binding.import {
                imports.push(import);
                assert(imports_view(imports@) =~= imports_view(before).push(import@));
            }
        }
        i = i + 1;
    }
    assert(trail.take(trail.len() as int) =~= trail);
    imports
}

/// Appends the references to `target` in a file.
fn append_references(file: &SearchedFile, target: &Location, locations: &mut Vec<Location>)
    requires
        byte_len(file.source.text@) <= u32::MAX,
    ensures
        locations_view(final(locations)@) == locations_view(old(locations)@) + references_in(
            *file,
            target@,
        ),
{
    let text = file.source.text.as_str();
    let events = visit_all(&file.source.module);
    let mut stack = ScopeStack::new();
    let ghost to_location = |span: Span|
        LocationView { uri: file.uri@, range: range_of(file.source.text@, span) };
    let mut i: usize = 0;
    let ghost trail = event_views(events@);
    assert(trail.take(0) =~= Seq::empty());
    assert(locations_view(locations@) =~= locations_view(old(locations)@)
        + Seq::<Span>::empty().map_values(to_location));
    while i < events.len()
        invariant
            i <= events@.len(),
            trail == event_views(events@),
            text@ == file.source.text@,
            byte_len(file.source.text@) <= u32::MAX,
            to_location == (|span: Span|
                LocationView { uri: file.uri@, range: range_of(file.source.text@, span) }),
            stack@ == after(text@, module_scope(), trail.take(i as int)),
            locations_view(locations@) == locations_view(old(locations)@) + mentions(
                file.uri@,
                file.source.text@,
                file.imports@,
                target@,
                module_scope(),
                trail.take(i as int),
            ).map_values(to_location),
        decreases events.len() - i,
    {
        assert(trail.take(i + 1).drop_last() =~= trail.take(i as int));
        let ghost before = locations@;
        let ghost found = mentions(
            file.uri@,
            file.source.text@,
            file.imports@,
            target@,
            module_scope(),
            trail.take(i as int),
        );
        if let Some((span, Some(binding))) = stack.read(text, &events[i]) {
            if matches_target(file.uri.as_str(), text, &file.imports, target, &binding) {
                locations.push(
                    Location { uri: file.uri.clone(), range: to_lsp_range(text, span) },
                );
                proof {
                    assert(locations_view(locations@) =~= locations_view(before).push(
                        to_location(span),
                    ));
                    assert(found.push(span).map_values(to_location) =~= found.map_values(
                        to_location,
                    ).push(to_location(span)));
                }
            }
        }
        stack.follow(text, &events[i]);
        i = i + 1;
    }
    assert(trail.take(trail.len() as int) =~= trail);
}

/// Lists the references to what is defined at `target`, file by file.
pub fn find_references(files: &Vec<SearchedFile>, target: &Location) -> (locations: Vec<Location>)
    requires
        forall|i: int|
            0 <= i < files@.len() ==> byte_len(#[trigger] files@[i].source.text@) <= u32::MAX,
    ensures
        locations_view(locations@) == references_in_all(files@, target@),
{
    let mut locations: Vec<Location> = Vec::new();
    let mut i: usize = 0;
    assert(files@.take(0) =~= Seq::empty());
    assert(locations_view(locations@) =~= Seq::empty());
    while i < files.len()
        invariant
            i <= files@.len(),
            forall|i: int|
                0 <= i < files@.len() ==> byte_len(#[trigger] files@[i].source.text@) <= u32::MAX,
            locations_view(locations@) == references_in_all(files@.take(i as int), target@),
        decreases files.len() - i,
    {
        assert(files@.take(i + 1).drop_last() =~= files@.take(i as int));
        append_references(&files[i], target, &mut locations);
        i = i + 1;
    }
    assert(files@.take(files@.len() as int) =~= files@);
    locations
}

} // verus!
