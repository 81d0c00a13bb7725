use crate::binding::{optional_text, SymbolKind};
use crate::search::{defined_name, find_defined_name};
use crate::syntax::{
    function_signature, lemma_node_views, node_views, signature, Node, NodeView, Span,
};
use crate::trace::{event_views, visit, walk_node, Event, EventView};
use vstd::hash_map::StringHashMap;
use vstd::prelude::*;

verus! {

/// What is known of a defined symbol.
#[derive(Debug, PartialEq, Eq)]
pub struct SymbolInfo {
    pub name: String,
    pub kind: SymbolKind,
    pub detail: Option<String>,
}

/// What a [`SymbolInfo`] says.
pub ghost struct SymbolView {
    pub name: Seq<char>,
    pub kind: SymbolKind,
    pub detail: Option<Seq<char>>,
}

/// The symbols that a table knows by their names.
pub type Symbols = Map<Seq<char>, SymbolView>;

impl View for SymbolInfo {
    type V = SymbolView;

    open spec fn view(&self) -> SymbolView {
        SymbolView { name: self.name@, kind: self.kind, detail: optional_text(self.detail) }
    }
}

/// Looks for the name over a byte, and remembers the functions and classes met on the way.
pub struct HoverVisitor {
    symbol_table: StringHashMap<SymbolInfo>,
    target_offset: u32,
    found_name: Option<String>,
}

/// The function or class that an event defines, with the span of its name.
pub open spec fn defined_symbol(text: Seq<char>, event: EventView) -> Option<(Span, SymbolView)> {
    match event {
        EventView::Function { name, span, params, return_type } => match defined_name(
            text,
            span,
            name,
        ) {
            Some(found) => Some(
                (
                    found,
                    SymbolView {
                        name: name,
                        kind: SymbolKind::Function,
                        detail: Some(signature(name, params, return_type)),
                    },
                ),
            ),
            None => None,
        },
        EventView::Class { name, span } => match defined_name(text, span, name) {
            Some(found) => Some(
                (
                    found,
                    SymbolView {
                        name: name,
                        kind: SymbolKind::Class,
                        detail: Some("class "@ + name),
                    },
                ),
            ),
            None => None,
        },
        _ => None,
    }
}

/// The name that an event shows to a reader who points at it, with its span: a name in an
/// expression, or the name of a function or class that is defined.
pub open spec fn pointed_name(text: Seq<char>, event: EventView) -> Option<(Span, Seq<char>)> {
    match event {
        EventView::Use { id, span } => Some((span, id)),
        _ => match defined_symbol(text, event) {
            Some((span, symbol)) => Some((span, symbol.name)),
            None => None,
        },
    }
}

/// The name over the byte at `offset`. Of several events that show a name there, the last one
/// counts.
pub open spec fn name_among(text: Seq<char>, events: Seq<EventView>, offset: u32) -> Option<
    Seq<char>,
>
    decreases events.len(),
{
    if events.len() == 0 {
        None
    } else {
        match pointed_name(text, events.last()) {
            Some((span, name)) if span.covers(offset) => Some(name),
            _ => name_among(text, events.drop_last(), offset),
        }
    }
}

/// The symbols that are known after a row of events. A later definition takes the place of an
/// earlier one of the same name.
pub open spec fn symbols_after(text: Seq<char>, symbols: Symbols, events: Seq<EventView>) -> Symbols
    decreases events.len(),
{
    if events.len() == 0 {
        symbols
    } else {
        let before = symbols_after(text, symbols, events.drop_last());
        match defined_symbol(text, events.last()) {
            Some((_, symbol)) => before.insert(symbol.name, symbol),
            None => before,
        }
    }
}

/// The symbols that are known at the end of a row of nodes.
pub open spec fn symbols_in(text: Seq<char>, symbols: Symbols, nodes: Seq<NodeView>) -> Symbols
    decreases nodes.len(),
{
    if nodes.len() == 0 {
        symbols
    } else {
        symbols_in(text, symbols_after(text, symbols, walk_node(nodes.first())), nodes.drop_first())
    }
}

/// The name over the byte at `offset`, with the symbols that are known at the end of the first
/// node that shows a name there.
pub open spec fn symbol_at(
    text: Seq<char>,
    symbols: Symbols,
    nodes: Seq<NodeView>,
    offset: u32,
) -> Option<(Seq<char>, Symbols)>
    decreases nodes.len(),
{
    if nodes.len() == 0 {
        None
    } else {
        let events = walk_node(nodes.first());
        let known = symbols_after(text, symbols, events);
        match name_among(text, events, offset) {
            Some(name) => Some((name, known)),
            None => symbol_at(text, known, nodes.drop_first(), offset),
        }
    }
}

/// Whether each symbol is known by its own name.
pub open spec fn known_by_name(symbols: Symbols) -> bool {
    forall|name: Seq<char>| #[trigger] symbols.contains_key(name) ==> symbols[name].name == name
}

/// What is shown of a name is about a symbol of that name: whatever a walk meets, each symbol is
/// known by its own name.
pub proof fn law_symbols_are_known_by_their_names(
    text: Seq<char>,
    symbols: Symbols,
    nodes: Seq<NodeView>,
    offset: u32,
)
    requires
        known_by_name(symbols),
    ensures
        match symbol_at(text, symbols, nodes, offset) {
            Some((_, known)) => known_by_name(known),
            None => true,
        },
    decreases nodes.len(),
{
    if nodes.len() > 0 {
        let events = walk_node(nodes.first());
        lemma_known_by_name(text, symbols, events);
        law_symbols_are_known_by_their_names(
            text,
            symbols_after(text, symbols, events),
            nodes.drop_first(),
            offset,
        );
    }
}

proof fn lemma_known_by_name(text: Seq<char>, symbols: Symbols, events: Seq<EventView>)
    requires
        known_by_name(symbols),
    ensures
        known_by_name(symbols_after(text, symbols, events)),
    decreases events.len(),
{
    if events.len() > 0 {
        lemma_known_by_name(text, symbols, events.drop_last());
    }
}

/// The kind of a symbol in words.
pub open spec fn kind_name(kind: SymbolKind) -> Seq<char> {
    match kind {
        SymbolKind::Module => "Module"@,
        SymbolKind::Class => "Class"@,
        SymbolKind::Function => "Function"@,
        SymbolKind::Variable => "Variable"@,
    }
}

/// What is shown of a name: the detail and the kind of the symbol if it is known, and the name
/// alone if not.
pub open spec fn shown_text(name: Seq<char>, symbols: Symbols) -> Seq<char> {
    if symbols.contains_key(name) {
        let symbol = symbols[name];
        let title = match symbol.detail {
            Some(detail) => detail,
            None => symbol.name,
        };
        title + "\nkind: "@ + kind_name(symbol.kind)
    } else {
        "You are hovering over: "@ + name + " "@
    }
}

/// What is shown at the byte at `offset` of a module.
pub open spec fn hover_text_at(text: Seq<char>, nodes: Seq<NodeView>, offset: u32) -> Option<
    Seq<char>,
> {
    match symbol_at(text, Map::empty(), nodes, offset) {
        Some((name, symbols)) => Some(shown_text(name, symbols)),
        None => None,
    }
}

/// Writes the kind of a symbol in words.
fn kind_text(kind: SymbolKind) -> (text: &'static str)
    ensures
        text@ == kind_name(kind),
{
    match kind {
        SymbolKind::Module => "Module",
        SymbolKind::Class => "Class",
        SymbolKind::Function => "Function",
        SymbolKind::Variable => "Variable",
    }
}

impl HoverVisitor {
    /// The symbols met so far.
    pub closed spec fn symbols(&self) -> Symbols {
        self.symbol_table@.map_values(|info: SymbolInfo| info@)
    }

    /// The byte at which a name is looked for.
    pub closed spec fn offset(&self) -> u32 {
        self.target_offset
    }

    /// The name found so far.
    pub closed spec fn found(&self) -> Option<Seq<char>> {
        optional_text(self.found_name)
    }

    /// A visitor that has met nothing.
    pub fn new(target_offset: u32) -> (visitor: HoverVisitor)
        ensures
            visitor.symbols() == Symbols::empty(),
            visitor.offset() == target_offset,
            visitor.found() is None,
    {
        let visitor = HoverVisitor {
            symbol_table: StringHashMap::new(),
            target_offset,
            found_name: None,
        };
        assert(visitor.symbols() =~= Map::empty());
        visitor
    }

    /// Remembers a symbol, and its name if it stands over the byte that is looked at.
    fn record_symbol(&mut self, span: Span, info: SymbolInfo)
        ensures
            final(self).symbols() == old(self).symbols().insert(info@.name, info@),
            final(self).offset() == old(self).offset(),
            final(self).found() == (if span.covers(old(self).offset()) {
                Some(info@.name)
            } else {
                old(self).found()
            }),
    {
        if span.contains(self.target_offset) {
            self.found_name = Some(info.name.clone());
        }
        self.symbol_table.insert(info.name.clone(), info);
        assert(self.symbols() =~= old(self).symbols().insert(info@.name, info@));
    }

    /// Follows one event.
    pub fn follow(&mut self, text: &str, event: &Event<'_>)
        ensures
            final(self).offset() == old(self).offset(),
            final(self).symbols() == (match defined_symbol(text@, event@) {
                Some((_, symbol)) => old(self).symbols().insert(symbol.name, symbol),
                None => old(self).symbols(),
            }),
            final(self).found() == (match pointed_name(text@, event@) {
                Some((span, name)) if span.covers(old(self).offset()) => Some(name),
                _ => old(self).found(),
            }),
    {
        match *event {
            Event::Use { id, span } => {
                if span.contains(self.target_offset) {
                    self.found_name = Some(id.clone());
                }
            },
            Event::Function { name, span, params, return_type } => {
                if let Some(found) = find_defined_name(text, span, name.as_str()) {
                    let detail = function_signature(name.as_str(), params, return_type);
                    let info = SymbolInfo {
                        name: name.clone(),
                        kind: SymbolKind::Function,
                        detail: Some(detail),
                    };
                    self.record_symbol(found, info);
                }
            },
            Event::Class { name, span } => {
                if let Some(found) = find_defined_name(text, span, name.as_str()) {
                    let mut detail = "class ".to_owned();
                    detail.append(name.as_str());
                    let info = SymbolInfo {
                        name: name.clone(),
                        kind: SymbolKind::Class,
                        detail: Some(detail),
                    };
                    self.record_symbol(found, info);
                }
            },
            _ => {},
        }
    }

    /// What is shown of the name that was found.
    pub fn hover_text(&self) -> (text: Option<String>)
        ensures
            optional_text(text) == (match self.found() {
                Some(name) => Some(shown_text(name, self.symbols())),
                None => None,
            }),
    {
        match &self.found_name {
            Some(name) => {
                match self.symbol_table.get(name.as_str()) {
                    Some(info) => {
                        let mut text = match &info.detail {
                            Some(detail) => detail.clone(),
                            None => info.name.clone(),
                        };
                        text.append("\nkind: ");
                        text.append(kind_text(info.kind));
                        Some(text)
                    },
                    None => {
                        let mut text = "You are hovering over: ".to_owned();
                        text.append(name.as_str());
                        text.append(" ");
                        Some(text)
                    },
                }
            },
            None => None,
        }
    }
}

/// Finds the name over the byte at `target_offset`, with the functions and classes known there.
/// Without such a name all functions and classes of the module are known.
pub fn find_symbol_at_offset(text: &str, module: &Vec<Node>, target_offset: u32) -> (visitor:
    HoverVisitor)
    ensures
        visitor.offset() == target_offset,
        match symbol_at(text@, Map::empty(), node_views(module@), target_offset) {
            Some((name, symbols)) => visitor.found() == Some(name) && visitor.symbols() == symbols,
            None => visitor.found() is None && visitor.symbols() == symbols_in(
                text@,
                Map::empty(),
                node_views(module@),
            ),
        },
{
    let ghost nodes = node_views(module@);
    let mut visitor = HoverVisitor::new(target_offset);
    let mut k: usize = 0;
    proof {
        lemma_node_views(module@);
        assert(nodes.skip(0) =~= nodes);
    }
    while k < module.len()
        invariant
            k <= module@.len(),
            nodes == node_views(module@),
            nodes.len() == module@.len(),
            forall|i: int| 0 <= i < module@.len() ==> nodes[i] == #[trigger] module@[i]@,
            visitor.offset() == target_offset,
            visitor.found() is None,
            symbol_at(text@, Map::empty(), nodes, target_offset) == symbol_at(
                text@,
                visitor.symbols(),
                nodes.skip(k as int),
                target_offset,
            ),
            symbols_in(text@, Map::empty(), nodes) == symbols_in(
                text@,
                visitor.symbols(),
                nodes.skip(k as int),
            ),
        decreases module.len() - k,
    {
        let ghost before = visitor.symbols();
        let events = visit(&module[k]);
        let ghost trail = event_views(events@);
        let mut i: usize = 0;
        assert(trail.take(0) =~= Seq::empty());
        while i < events.len()
            invariant
                i <= events@.len(),
                trail == event_views(events@),
                visitor.offset() == target_offset,
                visitor.symbols() == symbols_after(text@, before, trail.take(i as int)),
                visitor.found() == name_among(text@, trail.take(i as int), target_offset),
            decreases events.len() - i,
        {
            assert(trail.take(i + 1).drop_last() =~= trail.take(i as int));
            visitor.follow(text, &events[i]);
            i = i + 1;
        }
        assert(trail.take(trail.len() as int) =~= trail);
        assert(nodes.skip(k as int).first() == module@[k as int]@);
        assert(nodes.skip(k as int).drop_first() =~= nodes.skip(k + 1));
        if visitor.found_name.is_some() {
            return visitor;
        }
        k = k + 1;
    }
    visitor
}

} // verus!
