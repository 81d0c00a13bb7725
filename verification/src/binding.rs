use crate::search::{defined_name, find_defined_name};
use crate::syntax::{ImportedName, ImportedNameView, Span};
use crate::trace::{Event, EventView};
use vstd::prelude::*;

verus! {

/// What a name stands for.
#[derive(Clone, Copy, Debug, PartialEq, Eq, Structural)]
pub enum SymbolKind {
    Module,
    Class,
    Function,
    Variable,
}

/// Where an imported name comes from: a module, and a name in it unless the module itself is
/// imported. The level counts the leading dots.
#[derive(Debug, PartialEq, Eq)]
pub struct ImportBinding {
    pub module: Option<String>,
    pub name: Option<String>,
    pub level: usize,
}

/// The meaning of a name: what it stands for, and where it got its meaning.
#[derive(Debug, PartialEq, Eq)]
pub struct Binding {
    pub name: String,
    pub kind: SymbolKind,
    pub span: Span,
    pub import: Option<ImportBinding>,
}

/// What an [`ImportBinding`] says.
pub ghost struct ImportView {
    pub module: Option<Seq<char>>,
    pub name: Option<Seq<char>>,
    pub level: usize,
}

/// What a [`Binding`] says.
pub ghost struct BindingView {
    pub name: Seq<char>,
    pub kind: SymbolKind,
    pub span: Span,
    pub import: Option<ImportView>,
}

/// What an optional text says.
pub open spec fn optional_text(text: Option<String>) -> Option<Seq<char>> {
    match text {
        Some(text) => Some(text@),
        None => None,
    }
}

impl View for ImportBinding {
    type V = ImportView;

    open spec fn view(&self) -> ImportView {
        ImportView {
            module: optional_text(self.module),
            name: optional_text(self.name),
            level: self.level,
        }
    }
}

/// What an optional import says.
pub open spec fn optional_import(import: Option<ImportBinding>) -> Option<ImportView> {
    match import {
        Some(import) => Some(import@),
        None => None,
    }
}

impl View for Binding {
    type V = BindingView;

    open spec fn view(&self) -> BindingView {
        BindingView {
            name: self.name@,
            kind: self.kind,
            span: self.span,
            import: optional_import(self.import),
        }
    }
}

/// What an optional binding says.
pub open spec fn optional_binding(binding: Option<Binding>) -> Option<BindingView> {
    match binding {
        Some(binding) => Some(binding@),
        None => None,
    }
}

/// Copies an optional text.
pub fn copy_text(text: &Option<String>) -> (copy: Option<String>)
    ensures
        copy == *text,
{
    match text {
        Some(text) => Some(text.clone()),
        None => None,
    }
}

impl Clone for ImportBinding {
    fn clone(&self) -> (copy: ImportBinding)
        ensures
            copy@ == self@,
    {
        ImportBinding {
            module: copy_text(&self.module),
            name: copy_text(&self.name),
            level: self.level,
        }
    }
}

impl Clone for Binding {
    fn clone(&self) -> (copy: Binding)
        ensures
            copy@ == self@,
    {
        Binding {
            name: self.name.clone(),
            kind: self.kind,
            span: self.span,
            import: match &self.import {
                Some(import) => Some(import.clone()),
                None => None,
            },
        }
    }
}

/// A text up to its first dot.
pub open spec fn before_dot(text: Seq<char>) -> Seq<char>
    decreases text.len(),
{
    if text.len() == 0 || text[0] == '.' {
        Seq::empty()
    } else {
        seq![text[0]] + before_dot(text.drop_first())
    }
}

/// What `import pkg.mod` and `import pkg.mod as m` bind: `pkg` or `m`, to the module `pkg.mod`.
pub open spec fn imported_module(imported: ImportedNameView, level: usize) -> BindingView {
    BindingView {
        name: match imported.asname {
            Some(asname) => asname,
            None => before_dot(imported.name),
        },
        kind: SymbolKind::Module,
        span: imported.span,
        import: Some(ImportView { module: Some(imported.name), name: None, level }),
    }
}

/// What `from pkg import thing` and `from pkg import thing as t` bind: `thing` or `t`, to the
/// `thing` of `pkg`. A `*` binds nothing.
pub open spec fn imported_member(
    module: Option<Seq<char>>,
    level: usize,
    imported: ImportedNameView,
) -> Option<BindingView> {
    if imported.name == "*"@ {
        None
    } else {
        Some(
            BindingView {
                name: match imported.asname {
                    Some(asname) => asname,
                    None => imported.name,
                },
                kind: SymbolKind::Variable,
                span: imported.span,
                import: Some(ImportView { module, name: Some(imported.name), level }),
            },
        )
    }
}

/// The binding that an event introduces. A definition is bound at its name, and not at all if
/// its name cannot be found in the text.
pub open spec fn introduced(text: Seq<char>, event: EventView) -> Option<BindingView> {
    match event {
        EventView::Function { name, span, .. } => match defined_name(text, span, name) {
            Some(found) => Some(
                BindingView {
                    name: name,
                    kind: SymbolKind::Function,
                    span: found,
                    import: None,
                },
            ),
            None => None,
        },
        EventView::Class { name, span } => match defined_name(text, span, name) {
            Some(found) => Some(
                BindingView { name: name, kind: SymbolKind::Class, span: found, import: None },
            ),
            None => None,
        },
        EventView::Parameter { param } => Some(
            BindingView {
                name: param.name,
                kind: SymbolKind::Variable,
                span: param.span,
                import: None,
            },
        ),
        EventView::Target { id, span } => Some(
            BindingView { name: id, kind: SymbolKind::Variable, span, import: None },
        ),
        EventView::Import { imported } => Some(imported_module(imported, 0)),
        EventView::ImportFrom { module, level, imported } => {
            imported_member(module, level, imported)
        },
        EventView::Use { .. } | EventView::Enter | EventView::Leave => None,
    }
}

proof fn lemma_before_dot(text: Seq<char>, i: int)
    requires
        0 <= i <= text.len(),
        forall|j: int| 0 <= j < i ==> text[j] != '.',
        i < text.len() ==> text[i] == '.',
    ensures
        before_dot(text) == text.take(i),
    decreases i,
{
    if i == 0 {
        assert(text.take(0) =~= Seq::empty());
    } else {
        lemma_before_dot(text.drop_first(), i - 1);
        assert(text.take(i) =~= seq![text[0]] + text.drop_first().take(i - 1));
    }
}

/// Copies a text up to its first dot.
fn cut_before_dot(text: &str) -> (part: String)
    ensures
        part@ == before_dot(text@),
{
    let mut index: usize = 0;
    let len: usize = text.unicode_len();
    for ch in it: text.chars()
        invariant
            it.seq() == text@,
            index == it.index(),
            len == text@.len(),
            forall|j: int| 0 <= j < index ==> text@[j] != '.',
    {
        if ch == '.' {
            proof {
                lemma_before_dot(text@, index as int);
                assert(text@.subrange(0, index as int) =~= text@.take(index as int));
            }
            return text.substring_char(0, index).to_owned();
        }
        index = index + 1;
    }
    proof {
        lemma_before_dot(text@, index as int);
        assert(text@.take(index as int) =~= text@);
    }
    text.to_owned()
}

/// The binding of one name of an `import` statement.
pub fn import_binding(imported: &ImportedName, level: usize) -> (binding: Binding)
    ensures
        binding@ == imported_module(imported@, level),
{
    let local_name = match &imported.asname {
        Some(asname) => asname.clone(),
        None => cut_before_dot(imported.name.as_str()),
    };
    Binding {
        name: local_name,
        kind: SymbolKind::Module,
        span: imported.span,
        import: Some(ImportBinding { module: Some(imported.name.clone()), name: None, level }),
    }
}

/// The binding of one name of a `from` import.
pub fn import_from_binding(
    module: &Option<String>,
    level: usize,
    imported: &ImportedName,
) -> (binding: Option<Binding>)
    ensures
        optional_binding(binding) == imported_member(optional_text(*module), level, imported@),
{
    if imported.name == "*".to_owned() {
        return None;
    }
    let local_name = match &imported.asname {
        Some(asname) => asname.clone(),
        None => imported.name.clone(),
    };
    Some(
        Binding {
            name: local_name,
            kind: SymbolKind::Variable,
            span: imported.span,
            import: Some(
                ImportBinding {
                    module: copy_text(module),
                    name: Some(imported.name.clone()),
                    level,
                },
            ),
        },
    )
}

/// The binding that an event introduces.
pub fn binding_of(text: &str, event: &Event<'_>) -> (binding: Option<Binding>)
    ensures
        optional_binding(binding) == introduced(text@, event@),
{
    match *event {
        Event::Function { name, span, .. } => {
            match find_defined_name(text, span, name.as_str()) {
                Some(found) => Some(
                    Binding {
                        name: name.clone(),
                        kind: SymbolKind::Function,
                        span: found,
                        import: None,
                    },
                ),
                None => None,
            }
        },
        Event::Class { name, span } => {
            match find_defined_name(text, span, name.as_str()) {
                Some(found) => Some(
                    Binding {
                        name: name.clone(),
                        kind: SymbolKind::Class,
                        span: found,
                        import: None,
                    },
                ),
                None => None,
            }
        },
        Event::Parameter { param } => Some(
            Binding {
                name: param.name.clone(),
                kind: SymbolKind::Variable,
                span: param.span,
                import: None,
            },
        ),
        Event::Target { id, span } => Some(
            Binding { name: id.clone(), kind: SymbolKind::Variable, span, import: None },
        ),
        Event::Import { imported } => Some(import_binding(imported, 0)),
        Event::ImportFrom { module, level, imported } => import_from_binding(
            module,
            level,
            imported,
        ),
        Event::Use { .. } => None,
        Event::Enter => None,
        Event::Leave => None,
    }
}

} // verus!
