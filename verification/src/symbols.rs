use crate::binding::SymbolKind;
use crate::location::{range_of, to_lsp_range};
use crate::search::{defined_name, find_defined_name};
use crate::syntax::{node_views, Node};
use crate::text::{byte_len, Range};
use crate::trace::{event_views, visit_all, walk_all, Event, EventView};
use vstd::prelude::*;

verus! {

/// An entry of the outline of a document.
#[derive(Debug, PartialEq, Eq)]
pub struct DocumentSymbol {
    pub name: String,
    pub kind: SymbolKind,
    /// The whole definition.
    pub range: Range,
    /// The name in it.
    pub selection_range: Range,
}

/// What a [`DocumentSymbol`] says.
pub ghost struct DocumentSymbolView {
    pub name: Seq<char>,
    pub kind: SymbolKind,
    pub range: Range,
    pub selection_range: Range,
}

impl View for DocumentSymbol {
    type V = DocumentSymbolView;

    open spec fn view(&self) -> DocumentSymbolView {
        DocumentSymbolView {
            name: self.name@,
            kind: self.kind,
            range: self.range,
            selection_range: self.selection_range,
        }
    }
}

/// What each entry of an outline says.
pub open spec fn symbols_view(symbols: Seq<DocumentSymbol>) -> Seq<DocumentSymbolView> {
    symbols.map_values(|symbol: DocumentSymbol| symbol@)
}

/// The entry of the outline that an event makes: one for a function or a class whose name is
/// found in the text.
pub open spec fn outlined(text: Seq<char>, event: EventView) -> Option<DocumentSymbolView> {
    match event {
        EventView::Function { name, span, .. } => match defined_name(text, span, name) {
            Some(found) => Some(
                DocumentSymbolView {
                    name: name,
                    kind: SymbolKind::Function,
                    range: range_of(text, span),
                    selection_range: range_of(text, found),
                },
            ),
            None => None,
        },
        EventView::Class { name, span } => match defined_name(text, span, name) {
            Some(found) => Some(
                DocumentSymbolView {
                    name: name,
                    kind: SymbolKind::Class,
                    range: range_of(text, span),
                    selection_range: range_of(text, found),
                },
            ),
            None => None,
        },
        _ => None,
    }
}

/// The outline that a row of events makes.
pub open spec fn outline(text: Seq<char>, events: Seq<EventView>) -> Seq<DocumentSymbolView>
    decreases events.len(),
{
    if events.len() == 0 {
        Seq::empty()
    } else {
        match outlined(text, events.last()) {
            Some(symbol) => outline(text, events.drop_last()).push(symbol),
            None => outline(text, events.drop_last()),
        }
    }
}

/// The entry of the outline that an event makes.
fn outline_entry(text: &str, event: &Event<'_>) -> (symbol: Option<DocumentSymbol>)
    requires
        byte_len(text@) <= u32::MAX,
    ensures
        match symbol {
            Some(symbol) => outlined(text@, event@) == Some(symbol@),
            None => outlined(text@, event@) is None,
        },
{
    let (name, kind, span) = match *event {
        Event::Function { name, span, .. } => (name, SymbolKind::Function, span),
        Event::Class { name, span } => (name, SymbolKind::Class, span),
        _ => return None,
    };
    match find_defined_name(text, span, name.as_str()) {
        Some(found) => Some(
            DocumentSymbol {
                name: name.clone(),
                kind,
                range: to_lsp_range(text, span),
                selection_range: to_lsp_range(text, found),
            },
        ),
        None => None,
    }
}

/// Lists the functions and classes of a module, each before those inside it.
pub fn document_symbols(text: &str, module: &Vec<Node>) -> (symbols: Vec<DocumentSymbol>)
    requires
        byte_len(text@) <= u32::MAX,
    ensures
        symbols_view(symbols@) == outline(text@, walk_all(node_views(module@))),
{
    let events = visit_all(module);
    let mut symbols: Vec<DocumentSymbol> = Vec::new();
    let mut i: usize = 0;
    let ghost trail = event_views(events@);
    assert(trail.take(0) =~= Seq::empty());
    assert(symbols_view(symbols@) =~= Seq::empty());
    while i < events.len()
        invariant
            i <= events@.len(),
            byte_len(text@) <= u32::MAX,
            trail == event_views(events@),
            symbols_view(symbols@) == outline(text@, trail.take(i as int)),
        decreases events.len() - i,
    {
        assert(trail.take(i + 1).drop_last() =~= trail.take(i as int));
        let ghost before = symbols@;
        if let Some(symbol) = outline_entry(text, &events[i]) {
            symbols.push(symbol);
            assert(symbols_view(symbols@) =~= symbols_view(before).push(symbol@));
        }
        i = i + 1;
    }
    assert(trail.take(trail.len() as int) =~= trail);
    symbols
}

} // verus!
