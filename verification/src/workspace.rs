use crate::binding::{optional_binding, optional_text, Binding, BindingView};
use crate::hover::{find_symbol_at_offset, hover_text_at};
use crate::location::{optional_location, range_of, to_lsp_range, Location, LocationView};
use crate::modules::{
    distinct, give_uris, gives_path, optional_path, path_of_uri, paths_view, present, texts,
    uris_of_files, workspace_python_uris, FilePath,
};
use crate::parser::{is_found, parsed};
use crate::references::{binding_definition_location, definition_of, ResolvedImport};
use crate::scope::{binding_at, module_scope, resolve_binding_at_offset};
use crate::source::{
    document_of, into_source, optional_source, parse_document, report_of, Document, DocumentView,
    ParseReport, Source, SourceView,
};
use crate::symbols::{document_symbols, outline, symbols_view, DocumentSymbol, DocumentSymbolView};
use crate::text::{
    apply_incremental_change, byte_len, edited, law_offsets_count_utf8_bytes,
    lsp_position_to_offset, offset_of, ChangeError, Position, Range,
};
use crate::trace::walk_all;
use dashmap::DashMap;
use vstd::prelude::*;

verus! {

/// A concurrent map of `dashmap`.
#[verifier::external_type_specification]
#[verifier::external_body]
#[verifier::reject_recursive_types(K)]
#[verifier::reject_recursive_types(V)]
#[verifier::reject_recursive_types(S)]
pub struct ExDashMap<K, V, S>(dashmap::DashMap<K, V, S>);

/// Documents by their URIs.
pub type Documents = Map<Seq<char>, DocumentView>;

/// The documents that a map holds.
pub uninterp spec fn documents(files: DashMap<String, Document>) -> Documents;

/// `DashMap::new`: a map that holds nothing.
#[verifier::external_body]
fn no_files() -> (files: DashMap<String, Document>)
    ensures
        documents(files) == Documents::empty(),
{
    DashMap::new()
}

/// `DashMap::insert`: the document is held under its URI, in place of an earlier one.
#[verifier::external_body]
fn put_file(files: &mut DashMap<String, Document>, uri: String, document: Document)
    ensures
        documents(*final(files)) == documents(*old(files)).insert(uri@, document@),
{
    files.insert(uri, document);
}

/// `DashMap::remove`: nothing is held under the URI any more.
#[verifier::external_body]
fn drop_file(files: &mut DashMap<String, Document>, uri: &String)
    ensures
        documents(*final(files)) == documents(*old(files)).remove(uri@),
{
    files.remove(uri);
}

/// `DashMap::get`: the document that is held under a URI, as a copy.
#[verifier::external_body]
fn get_file(files: &DashMap<String, Document>, uri: &String) -> (document: Option<Document>)
    ensures
        match document {
            Some(document) => documents(*files).contains_key(uri@) && documents(*files)[uri@]
                == document@,
            None => !documents(*files).contains_key(uri@),
        },
{
    let entry = files.get(uri)?;
    Some(Document { text: entry.text.clone(), module: entry.module.clone() })
}

/// `DashMap::iter`: the URIs under which something is held, each once, in no order that could
/// be told.
#[verifier::external_body]
fn file_uris(files: &DashMap<String, Document>) -> (uris: Vec<String>)
    ensures
        texts(uris@).no_duplicates(),
        texts(uris@).to_set() == documents(*files).dom(),
{
    files.iter().map(|entry| entry.key().clone()).collect()
}

/// One change of a document: a stretch of it gets another text, or the whole document does.
#[derive(Debug, PartialEq, Eq)]
pub struct TextChange {
    pub range: Option<Range>,
    pub text: String,
}

/// A text after one change.
pub open spec fn changed(text: Seq<char>, change: TextChange) -> Result<Seq<char>, ChangeError> {
    match change.range {
        Some(range) => edited(text, range, change.text@),
        None => Ok(change.text@),
    }
}

/// A text after a row of changes. They end at the first that cannot be applied: the changes
/// before it stand, and its error is told.
pub open spec fn changed_by_all(text: Seq<char>, changes: Seq<TextChange>) -> (
    Seq<char>,
    Option<ChangeError>,
)
    decreases changes.len(),
{
    if changes.len() == 0 {
        (text, None)
    } else {
        let (now, error) = changed_by_all(text, changes.drop_last());
        if error is Some {
            (now, error)
        } else {
            match changed(now, changes.last()) {
                Ok(next) => (next, None),
                Err(error) => (now, Some(error)),
            }
        }
    }
}

/// Whether the offsets of a text fit into 32 bits, and still do so after each of a row of
/// changes.
pub open spec fn stays_small(text: Seq<char>, changes: Seq<TextChange>) -> bool {
    forall|i: int|
        0 <= i <= changes.len() ==> byte_len(changed_by_all(text, #[trigger] changes.take(i)).0)
            <= u32::MAX
}

/// The documents after one was opened, or got a new text.
pub open spec fn with_text(files: Documents, uri: Seq<char>, text: Seq<char>) -> Documents {
    files.insert(uri, document_of(text, parsed(text, uri)))
}

/// The documents after a row of changes of one of them. If a change cannot be applied the
/// document keeps the module of its earlier text, and a document that is not open stays closed.
pub open spec fn with_changes(
    files: Documents,
    uri: Seq<char>,
    changes: Seq<TextChange>,
) -> Documents {
    if !files.contains_key(uri) {
        files
    } else {
        match changed_by_all(files[uri].text, changes) {
            (text, None) => with_text(files, uri, text),
            (text, Some(_)) => files.insert(
                uri,
                DocumentView { text, module: files[uri].module },
            ),
        }
    }
}

/// What the name at a position of a document stands for, if the document is open.
pub open spec fn binding_in(files: Documents, uri: Seq<char>, position: Position) -> Option<
    BindingView,
> {
    if files.contains_key(uri) {
        binding_in_document(files[uri], position)
    } else {
        None
    }
}

/// What the name at a position of a document stands for. There is none if the document holds
/// no module, or if it has no such position.
pub open spec fn binding_in_document(document: DocumentView, position: Position) -> Option<
    BindingView,
> {
    match (offset_of(document.text, position), document.module) {
        (Some(offset), Some(module)) => binding_at(
            document.text,
            module_scope(),
            module,
            offset as u32,
        ),
        _ => None,
    }
}

/// What is shown of the name at a position of a document.
pub open spec fn hover_in(files: Documents, uri: Seq<char>, position: Position) -> Option<
    Seq<char>,
> {
    if files.contains_key(uri) {
        match (offset_of(files[uri].text, position), files[uri].module) {
            (Some(offset), Some(module)) => hover_text_at(files[uri].text, module, offset as u32),
            _ => None,
        }
    } else {
        None
    }
}

/// The outline of a document, which is empty if the document holds no module.
pub open spec fn outline_in(files: Documents, uri: Seq<char>) -> Option<Seq<DocumentSymbolView>> {
    if files.contains_key(uri) {
        Some(
            match files[uri].module {
                Some(module) => outline(files[uri].text, walk_all(module)),
                None => Seq::empty(),
            },
        )
    } else {
        None
    }
}

/// Where the name at a position of a document is defined: where its import leads, or else the
/// place in the document at which it got its meaning.
pub open spec fn definition_in(
    files: Documents,
    uri: Seq<char>,
    position: Position,
    imports: Seq<ResolvedImport>,
) -> Option<LocationView> {
    match binding_in(files, uri, position) {
        Some(binding) => match definition_of(uri, files[uri].text, imports, binding) {
            Some(location) => Some(location),
            None => Some(LocationView { uri, range: range_of(files[uri].text, binding.span) }),
        },
        None => None,
    }
}

/// The definition whose references are meant at a position of a document. There is none for a
/// name whose import leads nowhere.
pub open spec fn target_in(
    files: Documents,
    uri: Seq<char>,
    position: Position,
    imports: Seq<ResolvedImport>,
) -> Option<LocationView> {
    match binding_in(files, uri, position) {
        Some(binding) => definition_of(uri, files[uri].text, imports, binding),
        None => None,
    }
}

/// The text and the module of a file: those of the open document, whether or not it holds a
/// module, and those of the file on disk if no document is open.
pub open spec fn source_in(files: Documents, uri: Seq<char>, stored: Option<Seq<char>>) -> Option<
    SourceView,
> {
    let document = if files.contains_key(uri) {
        Some(files[uri])
    } else {
        match stored {
            Some(text) => Some(document_of(text, parsed(text, uri))),
            None => None,
        }
    };
    match document {
        Some(DocumentView { text, module: Some(module) }) => Some(SourceView { text, module }),
        _ => None,
    }
}

/// What an optional outline says.
pub open spec fn optional_symbols(symbols: Option<Vec<DocumentSymbol>>) -> Option<
    Seq<DocumentSymbolView>,
> {
    match symbols {
        Some(symbols) => Some(symbols_view(symbols@)),
        None => None,
    }
}

proof fn lemma_error_stays(text: Seq<char>, changes: Seq<TextChange>, i: int)
    requires
        0 <= i <= changes.len(),
        changed_by_all(text, changes.take(i)).1 is Some,
    ensures
        changed_by_all(text, changes) == changed_by_all(text, changes.take(i)),
    decreases changes.len() - i,
{
    if i < changes.len() {
        assert(changes.take(i + 1).drop_last() =~= changes.take(i));
        lemma_error_stays(text, changes, i + 1);
    } else {
        assert(changes.take(i) =~= changes);
    }
}

/// The number of bytes of a text.
pub fn text_size(text: &str) -> (size: usize)
    ensures
        size == byte_len(text@),
{
    proof {
        law_offsets_count_utf8_bytes(text@);
    }
    text.as_bytes().len()
}

/// Applies a row of changes to a text, up to the first that cannot be applied.
pub fn apply_changes(text: &mut String, changes: &Vec<TextChange>) -> (error: Option<ChangeError>)
    requires
        stays_small(old(text)@, changes@),
    ensures
        (final(text)@, error) == changed_by_all(old(text)@, changes@),
{
    let mut i: usize = 0;
    assert(changes@.take(0) =~= Seq::empty());
    while i < changes.len()
        invariant
            i <= changes@.len(),
            stays_small(old(text)@, changes@),
            changed_by_all(old(text)@, changes@.take(i as int)) == (text@, None::<ChangeError>),
        decreases changes.len() - i,
    {
        proof {
            assert(changes@.take(i + 1).drop_last() =~= changes@.take(i as int));
        }
        let change = &changes[i];
        match change.range {
            Some(range) => {
                if let Err(error) = apply_incremental_change(text, range, change.text.as_str()) {
                    proof {
                        lemma_error_stays(old(text)@, changes@, i + 1);
                    }
                    return Some(error);
                }
            },
            None => {
                *text = change.text.clone();
            },
        }
        i = i + 1;
    }
    assert(changes@.take(changes@.len() as int) =~= changes@);
    None
}

/// Whether the offsets of a text fit into 32 bits.
fn is_small(text: &str) -> (small: bool)
    ensures
        small == (byte_len(text@) <= u32::MAX),
{
    let limit: usize = u32::MAX as usize;
    text_size(text) <= limit
}

/// Whether the offsets of a text fit into 32 bits, and still do so after each of a row of
/// changes.
fn changes_stay_small(text: String, changes: &Vec<TextChange>) -> (small: bool)
    ensures
        small == stays_small(text@, changes@),
{
    let ghost start = text@;
    let mut current = text;
    let mut i: usize = 0;
    assert(changes@.take(0) =~= Seq::empty());
    if !is_small(current.as_str()) {
        return false;
    }
    while i < changes.len()
        invariant
            i <= changes@.len(),
            start == text@,
            changed_by_all(start, changes@.take(i as int)) == (current@, None::<ChangeError>),
            forall|j: int|
                0 <= j <= i ==> byte_len(changed_by_all(start, #[trigger] changes@.take(j)).0)
                    <= u32::MAX,
        decreases changes.len() - i,
    {
        assert(changes@.take(i + 1).drop_last() =~= changes@.take(i as int));
        let change = &changes[i];
        match change.range {
            Some(range) => {
                if apply_incremental_change(&mut current, range, change.text.as_str()).is_err() {
                    assert forall|j: int| 0 <= j <= changes@.len() implies byte_len(
                        changed_by_all(start, #[trigger] changes@.take(j)).0,
                    ) <= u32::MAX by {
                        if j > i {
                            assert(changes@.take(j).take(i + 1) =~= changes@.take(i + 1));
                            lemma_error_stays(start, changes@.take(j), i + 1);
                        }
                    }
                    return true;
                }
            },
            None => {
                current = change.text.clone();
            },
        }
        i = i + 1;
        if !is_small(current.as_str()) {
            assert(byte_len(changed_by_all(start, changes@.take(i as int)).0) > u32::MAX);
            return false;
        }
    }
    true
}

/// Finds what the name at a position of a document stands for.
fn binding_at_position(document: &Document, position: Position) -> (binding: Option<Binding>)
    requires
        byte_len(document@.text) <= u32::MAX,
    ensures
        optional_binding(binding) == binding_in_document(document@, position),
{
    match &document.module {
        Some(module) => {
            let text = document.text.as_str();
            let offset: u32 = lsp_position_to_offset(text, position)?;
            resolve_binding_at_offset(text, module, offset)
        },
        None => None,
    }
}

/// What became of a row of changes.
#[derive(Debug, PartialEq, Eq)]
pub enum ChangeOutcome {
    /// The document is not open.
    NotOpen,
    /// A change could not be applied.
    Failed(ChangeError),
    /// All changes were applied, and the document was parsed again.
    Updated(ParseReport),
}

/// The open documents.
pub struct Workspace {
    files: DashMap<String, Document>,
}

impl View for Workspace {
    type V = Documents;

    closed spec fn view(&self) -> Documents {
        documents(self.files)
    }
}

impl Workspace {
    /// Whether the offsets of every document fit into 32 bits.
    pub open spec fn wf(&self) -> bool {
        forall|uri: Seq<char>| #[trigger]
            self@.contains_key(uri) ==> byte_len(self@[uri].text) <= u32::MAX
    }

    /// A workspace without documents.
    pub fn new() -> (workspace: Workspace)
        ensures
            workspace@ == Documents::empty(),
            workspace.wf(),
    {
        Workspace { files: no_files() }
    }

    /// Gives a document a text, and parses it.
    pub fn update_file(&mut self, uri: String, text: String) -> (report: ParseReport)
        requires
            old(self).wf(),
            byte_len(text@) <= u32::MAX,
        ensures
            final(self).wf(),
            is_found(text@, uri@, parsed(text@, uri@)),
            final(self)@ == with_text(old(self)@, uri@, text@),
            report@ == report_of(text@, parsed(text@, uri@)),
    {
        let (document, report) = parse_document(text, uri.as_str());
        put_file(&mut self.files, uri, document);
        report
    }

    /// Forgets a document.
    pub fn did_close(&mut self, uri: &String)
        requires
            old(self).wf(),
        ensures
            final(self).wf(),
            final(self)@ == old(self)@.remove(uri@),
    {
        drop_file(&mut self.files, uri);
    }

    /// Applies changes to a document, and parses it again unless one of them failed.
    pub fn did_change(&mut self, uri: String, changes: &Vec<TextChange>) -> (outcome: ChangeOutcome)
        requires
            old(self).wf(),
            old(self)@.contains_key(uri@) ==> stays_small(old(self)@[uri@].text, changes@),
        ensures
            final(self).wf(),
            final(self)@ == with_changes(old(self)@, uri@, changes@),
            match outcome {
                ChangeOutcome::NotOpen => !old(self)@.contains_key(uri@),
                ChangeOutcome::Failed(error) => {
                    &&& old(self)@.contains_key(uri@)
                    &&& changed_by_all(old(self)@[uri@].text, changes@).1 == Some(error)
                },
                ChangeOutcome::Updated(report) => {
                    let (text, error) = changed_by_all(old(self)@[uri@].text, changes@);
                    &&& old(self)@.contains_key(uri@)
                    &&& error is None
                    &&& is_found(text, uri@, parsed(text, uri@))
                    &&& report@ == report_of(text, parsed(text, uri@))
                },
            },
    {
        match get_file(&self.files, &uri) {
            Some(document) => {
                let Document { text, module } = document;
                let mut text = text;
                assert(changes@.take(changes@.len() as int) =~= changes@);
                match apply_changes(&mut text, changes) {
                    Some(error) => {
                        put_file(&mut self.files, uri, Document { text, module });
                        ChangeOutcome::Failed(error)
                    },
                    None => ChangeOutcome::Updated(self.update_file(uri, text)),
                }
            },
            None => ChangeOutcome::NotOpen,
        }
    }

    /// Whether a document is open.
    pub fn is_open(&self, uri: &String) -> (open: bool)
        ensures
            open == self@.contains_key(uri@),
    {
        get_file(&self.files, uri).is_some()
    }

    /// Whether the offsets of a document fit into 32 bits, and still do so after each of a row
    /// of changes.
    pub fn changes_fit(&self, uri: &String, changes: &Vec<TextChange>) -> (fit: bool)
        ensures
            fit == (self@.contains_key(uri@) ==> stays_small(self@[uri@].text, changes@)),
    {
        match get_file(&self.files, uri) {
            Some(document) => changes_stay_small(document.text, changes),
            None => true,
        }
    }

    /// Tells what the name at a position is.
    pub fn hover(&self, uri: &String, position: Position) -> (text: Option<String>)
        requires
            self.wf(),
        ensures
            optional_text(text) == hover_in(self@, uri@, position),
    {
        let document = get_file(&self.files, uri)?;
        let module = document.module?;
        let text = document.text.as_str();
        let offset: u32 = lsp_position_to_offset(text, position)?;
        find_symbol_at_offset(text, &module, offset).hover_text()
    }

    /// Lists the functions and classes of a document.
    pub fn document_symbol(&self, uri: &String) -> (symbols: Option<Vec<DocumentSymbol>>)
        requires
            self.wf(),
        ensures
            optional_symbols(symbols) == outline_in(self@, uri@),
    {
        let document = get_file(&self.files, uri)?;
        match document.module {
            Some(module) => Some(document_symbols(document.text.as_str(), &module)),
            None => {
                let none: Vec<DocumentSymbol> = Vec::new();
                assert(symbols_view(none@) =~= Seq::empty());
                Some(none)
            },
        }
    }

    /// Finds what the name at a position stands for.
    pub fn find_binding(&self, uri: &String, position: Position) -> (binding: Option<Binding>)
        requires
            self.wf(),
        ensures
            optional_binding(binding) == binding_in(self@, uri@, position),
    {
        let document = get_file(&self.files, uri)?;
        binding_at_position(&document, position)
    }

    /// Finds where the name at a position is defined, given where its import leads.
    pub fn goto_definition(
        &self,
        uri: &String,
        position: Position,
        imports: &Vec<ResolvedImport>,
    ) -> (location: Option<Location>)
        requires
            self.wf(),
        ensures
            optional_location(location) == definition_in(self@, uri@, position, imports@),
    {
        let document = get_file(&self.files, uri)?;
        let binding = binding_at_position(&document, position)?;
        let text = document.text.as_str();
        match binding_definition_location(uri.as_str(), text, imports, &binding) {
            Some(location) => Some(location),
            None => Some(Location { uri: uri.clone(), range: to_lsp_range(text, binding.span) }),
        }
    }

    /// Finds the definition whose references are meant at a position, given where the import
    /// of the name leads.
    pub fn reference_target(
        &self,
        uri: &String,
        position: Position,
        imports: &Vec<ResolvedImport>,
    ) -> (location: Option<Location>)
        requires
            self.wf(),
        ensures
            optional_location(location) == target_in(self@, uri@, position, imports@),
    {
        let document = get_file(&self.files, uri)?;
        let binding = binding_at_position(&document, position)?;
        binding_definition_location(uri.as_str(), document.text.as_str(), imports, &binding)
    }

    /// Finds the path from which a file has to be read. There is none for an open document,
    /// nor for one that does not lie in the file system.
    pub fn stored_path(&self, uri: &String) -> (path: Option<FilePath>)
        ensures
            if self@.contains_key(uri@) {
                path is None
            } else {
                gives_path(uri@, optional_path(path))
            },
    {
        if self.is_open(uri) {
            None
        } else {
            path_of_uri(uri.as_str())
        }
    }

    /// Lists the URIs of the open documents, in any order, and then those of the files that
    /// were found, each URI once.
    pub fn python_uris(&self, found: &Vec<FilePath>) -> (uris: Vec<String>)
        ensures
            exists|open: Seq<Seq<char>>, given: Seq<Option<Seq<char>>>| #[trigger]
                distinct(open + present(given)) == texts(uris@) && open.no_duplicates()
                    && open.to_set() == self@.dom() && give_uris(paths_view(found@), given),
    {
        let open = file_uris(&self.files);
        let stored = uris_of_files(found);
        let ghost given = choose|given: Seq<Option<Seq<char>>>| #[trigger]
            give_uris(paths_view(found@), given) && texts(stored@) == present(given);
        let uris = workspace_python_uris(open, stored);
        assert(distinct(texts(open@) + present(given)) == texts(uris@));
        uris
    }

    /// Loads a file: the open document, or what the file on disk holds.
    pub fn load_parsed_file(&self, uri: &String, stored: Option<String>) -> (source: Option<Source>)
        requires
            self.wf(),
            stored is Some ==> byte_len(stored->0@) <= u32::MAX,
        ensures
            source is Some ==> byte_len(source->0.text@) <= u32::MAX,
            optional_source(source) == source_in(self@, uri@, optional_text(stored)),
            stored is Some && !self@.contains_key(uri@) ==> is_found(
                stored->0@,
                uri@,
                parsed(stored->0@, uri@),
            ),
    {
        match get_file(&self.files, uri) {
            Some(document) => into_source(document),
            None => match stored {
                Some(text) => {
                    let (document, _) = parse_document(text, uri.as_str());
                    into_source(document)
                },
                None => None,
            },
        }
    }
}

} // verus!
