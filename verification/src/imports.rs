use crate::binding::{optional_text, ImportBinding, ImportView};
use crate::location::{
    document_start, optional_location, range_of, to_lsp_range, Location, LocationView,
};
use crate::modules::{
    first_file, gives_path, gives_uri, import_candidates, is_file_uri, module_candidates,
    optional_path, path_of_uri, paths_view, resolve_module_path, uri_of_path, FilePath,
    FilePathView,
};
use crate::parser::{is_found, parsed};
use crate::search::{defined_name, find_defined_name};
use crate::source::{optional_source, Source, SourceView};
use crate::syntax::{
    expression_views, lemma_expression_views, lemma_node_views, node_views, Expression,
    ExpressionView, Node, NodeView, Span, Statement, StatementView,
};
use crate::text::{byte_len, Position, Range};
use crate::workspace::{source_in, Documents, Workspace};
use vstd::prelude::*;

verus! {

/// The span of the first expression that is the given name.
pub open spec fn name_among_targets(targets: Seq<ExpressionView>, name: Seq<char>) -> Option<Span>
    decreases targets.len(),
{
    if targets.len() == 0 {
        None
    } else {
        match targets.first() {
            ExpressionView::Name { id, span } if id == name => Some(span),
            _ => name_among_targets(targets.drop_first(), name),
        }
    }
}

/// The span at which a module defines a name at its top level: that of the name of the first
/// function or class, or of the first assignment target, that is called so. There is none if
/// that is a function or a class whose name cannot be found in the text.
pub open spec fn top_level_name(
    text: Seq<char>,
    nodes: Seq<NodeView>,
    name: Seq<char>,
) -> Option<Span>
    decreases nodes.len(),
{
    if nodes.len() == 0 {
        None
    } else {
        let rest = top_level_name(text, nodes.drop_first(), name);
        match nodes.first() {
            NodeView::Statement(StatementView::FunctionDef { name: defined, span, .. }) => {
                if defined == name {
                    defined_name(text, span, name)
                } else {
                    rest
                }
            },
            NodeView::Statement(StatementView::ClassDef { name: defined, span, .. }) => {
                if defined == name {
                    defined_name(text, span, name)
                } else {
                    rest
                }
            },
            NodeView::Statement(StatementView::Assign { targets, .. }) => match name_among_targets(
                targets,
                name,
            ) {
                Some(span) => Some(span),
                None => rest,
            },
            _ => rest,
        }
    }
}

/// Where an import of a name out of the document at `uri` leads. The import of a whole module
/// leads to its start, and so does that of a name that the module does not define; the import
/// of a name out of a document that holds no module leads nowhere.
pub open spec fn import_location_of(
    uri: Seq<char>,
    name: Option<Seq<char>>,
    source: Option<SourceView>,
) -> Option<LocationView> {
    match (name, source) {
        (None, _) => Some(LocationView { uri, range: document_start() }),
        (Some(_), None) => None,
        (Some(name), Some(source)) => Some(
            LocationView {
                uri,
                range: match top_level_name(source.text, source.module, name) {
                    Some(span) => range_of(source.text, span),
                    None => document_start(),
                },
            },
        ),
    }
}

/// Whether `step` begins to find where an import of the file at `path` leads.
pub open spec fn is_first_step(
    path: Option<FilePathView>,
    import: ImportView,
    step: ImportStep,
) -> bool {
    match (path, step) {
        (Some(path), ImportStep::Probe(candidates)) => paths_view(candidates@)
            == import_candidates(path, import.module, import.level),
        (None, step) => leads_nowhere(step),
        _ => false,
    }
}

/// Whether `step` is the step into the document at `uri` to find where an import of a name out
/// of it leads. The file is read only if a name is imported out of it, it is not open and it
/// has a path; else it is told where the import leads.
pub open spec fn is_step_into(
    files: Documents,
    uri: Seq<char>,
    name: Option<Seq<char>>,
    step: ImportStep,
) -> bool {
    match step {
        ImportStep::Probe(_) => false,
        ImportStep::Read { uri: read, path } => {
            &&& read@ == uri
            &&& name is Some
            &&& !files.contains_key(uri)
            &&& gives_path(uri, Some(path@))
        },
        ImportStep::Done(location) => {
            &&& optional_location(location) == import_location_of(
                uri,
                name,
                source_in(files, uri, None),
            )
            &&& name is None || files.contains_key(uri) || gives_path(uri, None)
        },
    }
}

/// Whether `step` goes on with a file that may have a URI.
pub open spec fn is_step_to(
    files: Documents,
    uri: Option<Seq<char>>,
    name: Option<Seq<char>>,
    step: ImportStep,
) -> bool {
    match uri {
        Some(uri) => is_file_uri(uri) && is_step_into(files, uri, name, step),
        None => leads_nowhere(step),
    }
}

/// Whether `step` says that an import leads nowhere.
pub open spec fn leads_nowhere(step: ImportStep) -> bool {
    match step {
        ImportStep::Done(location) => location is None,
        _ => false,
    }
}

/// Whether `step` is the one after the file at `path` was found, if one was.
pub open spec fn is_step_from(
    files: Documents,
    path: Option<FilePathView>,
    name: Option<Seq<char>>,
    step: ImportStep,
) -> bool {
    match path {
        Some(path) => exists|uri: Option<Seq<char>>| #[trigger]
            gives_uri(path, uri) && is_step_to(files, uri, name, step),
        None => leads_nowhere(step),
    }
}

/// Finds a name among assignment targets.
fn find_among_targets(targets: &Vec<Expression>, name: &String) -> (span: Option<Span>)
    ensures
        span == name_among_targets(expression_views(targets@), name@),
{
    let ghost all = expression_views(targets@);
    let mut i: usize = 0;
    proof {
        lemma_expression_views(targets@);
        assert(all.skip(0) =~= all);
    }
    while i < targets.len()
        invariant
            i <= targets@.len(),
            all == expression_views(targets@),
            all.len() == targets@.len(),
            forall|j: int| 0 <= j < targets@.len() ==> all[j] == #[trigger] targets@[j]@,
            name_among_targets(all, name@) == name_among_targets(all.skip(i as int), name@),
        decreases targets.len() - i,
    {
        assert(all.skip(i as int).first() == targets@[i as int]@);
        assert(all.skip(i as int).drop_first() =~= all.skip(i + 1));
        if let Expression::Name { id, span } = &targets[i] {
            if *id == *name {
                return Some(*span);
            }
        }
        i = i + 1;
    }
    None
}

/// Finds where a module defines a name at its top level.
pub fn find_top_level_symbol_range(text: &str, module: &Vec<Node>, name: &String) -> (span: Option<
    Span,
>)
    ensures
        span == top_level_name(text@, node_views(module@), name@),
{
    let ghost nodes = node_views(module@);
    let mut i: usize = 0;
    proof {
        lemma_node_views(module@);
        assert(nodes.skip(0) =~= nodes);
    }
    while i < module.len()
        invariant
            i <= module@.len(),
            nodes == node_views(module@),
            nodes.len() == module@.len(),
            forall|j: int| 0 <= j < module@.len() ==> nodes[j] == #[trigger] module@[j]@,
            top_level_name(text@, nodes, name@) == top_level_name(
                text@,
                nodes.skip(i as int),
                name@,
            ),
        decreases module.len() - i,
    {
        assert(nodes.skip(i as int).first() == module@[i as int]@);
        assert(nodes.skip(i as int).drop_first() =~= nodes.skip(i + 1));
        match &module[i] {
            Node::Statement(Statement::FunctionDef { name: defined, span, .. }) => {
                if *defined == *name {
                    return find_defined_name(text, *span, defined.as_str());
                }
            },
            Node::Statement(Statement::ClassDef { name: defined, span, .. }) => {
                if *defined == *name {
                    return find_defined_name(text, *span, defined.as_str());
                }
            },
            Node::Statement(Statement::Assign { targets, .. }) => {
                let span = find_among_targets(targets, name);
                if span.is_some() {
                    return span;
                }
            },
            _ => {},
        }
        i = i + 1;
    }
    None
}

/// Finds where an import of a name out of the document at `uri` leads.
pub fn resolve_import_location(uri: String, name: &Option<String>, source: &Option<Source>) -> (
    location: Option<Location>)
    requires
        *source is Some ==> byte_len(source->0.text@) <= u32::MAX,
    ensures
        optional_location(location) == import_location_of(
            uri@,
            optional_text(*name),
            optional_source(*source),
        ),
{
    let start = Range {
        start: Position { line: 0, character: 0 },
        end: Position { line: 0, character: 0 },
    };
    match (name, source) {
        (None, _) => Some(Location { uri, range: start }),
        (Some(_), None) => None,
        (Some(name), Some(source)) => {
            let text = source.text.as_str();
            match find_top_level_symbol_range(text, &source.module, name) {
                Some(span) => Some(Location { uri, range: to_lsp_range(text, span) }),
                None => Some(Location { uri, range: start }),
            }
        },
    }
}

/// What is to be done next to find where an import leads.
#[derive(Debug, PartialEq, Eq)]
pub enum ImportStep {
    /// Find out which of these are files, and go on with [`Workspace::probed_import`].
    Probe(Vec<FilePath>),
    /// Read the file, and go on with [`Workspace::read_import`].
    Read { uri: String, path: FilePath },
    /// Nothing: this is where the import leads.
    Done(Option<Location>),
}

impl Workspace {
    /// Begins to find where an import of the document at `uri` leads. If the document lies in
    /// the file system, it leads to one of the files that [`import_candidates`] lists, and else
    /// it leads nowhere.
    pub fn begin_import(&self, uri: &str, import: &ImportBinding) -> (step: ImportStep)
        ensures
            exists|path: Option<FilePathView>| #[trigger]
                gives_path(uri@, path) && is_first_step(path, import@, step),
    {
        let path = path_of_uri(uri);
        assert(gives_path(uri@, optional_path(path)));
        match path {
            Some(path) => ImportStep::Probe(
                module_candidates(&path, &import.module, import.level),
            ),
            None => ImportStep::Done(None),
        }
    }

    /// Goes on once it is known which of the candidates are files. An import leads nowhere if
    /// none of them is, or if the path of the first one that is has no URI. Else it leads into
    /// the document with that URI.
    pub fn probed_import(
        &self,
        import: &ImportBinding,
        candidates: Vec<FilePath>,
        is_file: &Vec<bool>,
    ) -> (step: ImportStep)
        requires
            self.wf(),
            candidates@.len() == is_file@.len(),
        ensures
            is_step_from(
                self@,
                first_file(paths_view(candidates@), is_file@),
                import@.name,
                step,
            ),
    {
        let ghost found = first_file(paths_view(candidates@), is_file@);
        match resolve_module_path(candidates, is_file) {
            Some(path) => {
                let uri = uri_of_path(&path);
                let ghost given = optional_text(uri);
                let step = match uri {
                    Some(uri) => self.step_into(import, uri),
                    None => ImportStep::Done(None),
                };
                assert(gives_uri(found->0, given) && is_step_to(self@, given, import@.name, step));
                step
            },
            None => ImportStep::Done(None),
        }
    }

    /// Goes on once the URI is known into which an import leads. The file has to be read only
    /// if a name is imported out of it and it is not open.
    pub fn step_into(&self, import: &ImportBinding, uri: String) -> (step: ImportStep)
        requires
            self.wf(),
        ensures
            is_step_into(self@, uri@, import@.name, step),
    {
        if import.name.is_some() && !self.is_open(&uri) {
            match path_of_uri(uri.as_str()) {
                Some(path) => ImportStep::Read { uri, path },
                None => ImportStep::Done(None),
            }
        } else {
            let source = self.load_parsed_file(&uri, None);
            ImportStep::Done(resolve_import_location(uri, &import.name, &source))
        }
    }

    /// Ends once the file is read into which an import leads, or cannot be read.
    pub fn read_import(&self, import: &ImportBinding, uri: String, stored: Option<String>) -> (
        location: Option<Location>)
        requires
            self.wf(),
            stored is Some ==> byte_len(stored->0@) <= u32::MAX,
        ensures
            optional_location(location) == import_location_of(
                uri@,
                import@.name,
                source_in(self@, uri@, optional_text(stored)),
            ),
            stored is Some && !self@.contains_key(uri@) ==> is_found(
                stored->0@,
                uri@,
                parsed(stored->0@, uri@),
            ),
    {
        let source = self.load_parsed_file(&uri, stored);
        resolve_import_location(uri, &import.name, &source)
    }
}

} // verus!
