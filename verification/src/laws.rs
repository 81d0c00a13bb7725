pub mod answers;
pub mod contents;
pub mod documents;
pub mod meaning;
pub mod paths;
pub mod positions;
pub mod reading;
pub mod spelling;
pub mod walking;

use crate::binding::{ImportView, SymbolKind};
use crate::imports::{import_location_of, is_step_from, is_step_to, ImportStep};
use crate::location::{optional_location, range_of, LocationView};
use crate::modules::{first_file, gives_uri, import_candidates, FilePathView};
use crate::parser::{is_found, parsed, parsed_suite, reads_suite};
use crate::references::{
    law_references_take_in_the_name_itself, mentions, references_in, ResolvedImport, SearchedFile,
};
use crate::scope::{law_definition_reads_as_its_name, module_scope};
use crate::search::{cut, defined_name, law_defined_name_reads_as_the_name};
use crate::source::{report_of, DiagnosticSeverity, DocumentView};
use crate::text::{
    byte_len, index_of, law_position_round_trip, law_positions_follow_offsets, lemma_prefix_grows,
    not_behind, offset_of, places, position_of, Position,
};
use crate::symbols::{outline, DocumentSymbolView};
use crate::trace::{walk_all, EventView};
use crate::workspace::{
    binding_in, changed_by_all, definition_in, hover_in, outline_in, source_in, target_in,
    with_changes, with_text, Documents, TextChange,
};
use vstd::prelude::*;
use vstd::utf8::encode_utf8;

verus! {

/// Applying changes in one go or in two gives the same text, and the same error.
pub proof fn law_changes_in_parts(text: Seq<char>, first: Seq<TextChange>, second: Seq<TextChange>)
    ensures
        changed_by_all(text, first + second) == (if changed_by_all(text, first).1 is Some {
            changed_by_all(text, first)
        } else {
            changed_by_all(changed_by_all(text, first).0, second)
        }),
    decreases second.len(),
{
    if second.len() == 0 {
        assert(first + second =~= first);
    } else {
        assert((first + second).drop_last() =~= first + second.drop_last());
        law_changes_in_parts(text, first, second.drop_last());
    }
}

/// After changes that can all be applied, the workspace is as if the document had been opened
/// with the changed text.
pub proof fn law_changes_lead_to_the_changed_text(
    files: Documents,
    uri: Seq<char>,
    changes: Seq<TextChange>,
)
    requires
        files.contains_key(uri),
        changed_by_all(files[uri].text, changes).1 is None,
    ensures
        with_changes(files, uri, changes) == with_text(
            files,
            uri,
            changed_by_all(files[uri].text, changes).0,
        ),
{
}

/// After a change that cannot be applied, the document keeps its module, and its text is what
/// the changes before made of it.
pub proof fn law_failed_change_keeps_the_module(
    files: Documents,
    uri: Seq<char>,
    changes: Seq<TextChange>,
)
    requires
        files.contains_key(uri),
        changed_by_all(files[uri].text, changes).1 is Some,
    ensures
        with_changes(files, uri, changes)[uri].module == files[uri].module,
        with_changes(files, uri, changes)[uri].text == changed_by_all(files[uri].text, changes).0,
{
}

/// Changes of a document that is not open change nothing.
pub proof fn law_closed_document_is_not_changed(
    files: Documents,
    uri: Seq<char>,
    changes: Seq<TextChange>,
)
    requires
        !files.contains_key(uri),
    ensures
        with_changes(files, uri, changes) == files,
{
}

/// Opening a document and closing it again leaves the workspace without it, and as it was if
/// the document was not open before.
pub proof fn law_close_undoes_open(files: Documents, uri: Seq<char>, text: Seq<char>)
    ensures
        with_text(files, uri, text).remove(uri) == files.remove(uri),
        !files.contains_key(uri) ==> with_text(files, uri, text).remove(uri) == files,
{
    assert(with_text(files, uri, text).remove(uri) =~= files.remove(uri));
    if !files.contains_key(uri) {
        assert(files.remove(uri) =~= files);
    }
}

/// Nothing is told of a document that is not open.
pub proof fn law_closed_document_answers_nothing(
    files: Documents,
    uri: Seq<char>,
    position: Position,
    imports: Seq<ResolvedImport>,
)
    requires
        !files.contains_key(uri),
    ensures
        hover_in(files, uri, position) is None,
        outline_in(files, uri) is None,
        definition_in(files, uri, position, imports) is None,
        target_in(files, uri, position, imports) is None,
{
}

/// What is told of a document depends on that document alone: opening, changing or closing
/// another one makes no difference.
pub proof fn law_documents_are_independent(
    files: Documents,
    uri: Seq<char>,
    other: Seq<char>,
    text: Seq<char>,
    changes: Seq<TextChange>,
    position: Position,
    imports: Seq<ResolvedImport>,
)
    requires
        uri != other,
    ensures
        ({
            let opened = with_text(files, other, text);
            let changed = with_changes(files, other, changes);
            let closed = files.remove(other);
            &&& same_answers(files, opened, uri, position, imports)
            &&& same_answers(files, changed, uri, position, imports)
            &&& same_answers(files, closed, uri, position, imports)
        }),
{
}

/// Whether two workspaces tell the same of a document.
pub open spec fn same_answers(
    a: Documents,
    b: Documents,
    uri: Seq<char>,
    position: Position,
    imports: Seq<ResolvedImport>,
) -> bool {
    &&& hover_in(a, uri, position) == hover_in(b, uri, position)
    &&& outline_in(a, uri) == outline_in(b, uri)
    &&& definition_in(a, uri, position, imports) == definition_in(b, uri, position, imports)
    &&& target_in(a, uri, position, imports) == target_in(b, uri, position, imports)
    &&& source_in(a, uri, None) == source_in(b, uri, None)
}

/// A document that was opened with a module in it has one, and nothing is complained of; one
/// that was opened with a syntax error gets one complaint, an error at a single place, and
/// until it changes only an empty outline is told of it.
pub proof fn law_syntax_error_is_reported(
    files: Documents,
    uri: Seq<char>,
    text: Seq<char>,
    position: Position,
    imports: Seq<ResolvedImport>,
)
    ensures
        ({
            let opened = with_text(files, uri, text);
            let diagnostics = report_of(text, parsed(text, uri)).diagnostics;
            match parsed(text, uri) {
                Ok(module) => {
                    &&& diagnostics.len() == 0
                    &&& opened[uri] == DocumentView { text, module: Some(module) }
                },
                Err(_) => {
                    &&& diagnostics.len() == 1
                    &&& diagnostics[0].severity == DiagnosticSeverity::Error
                    &&& diagnostics[0].range.start == diagnostics[0].range.end
                    &&& opened[uri].text == text
                    &&& hover_in(opened, uri, position) is None
                    &&& definition_in(opened, uri, position, imports) is None
                    &&& target_in(opened, uri, position, imports) is None
                    &&& outline_in(opened, uri) == Some(
                        Seq::<DocumentSymbolView>::empty(),
                    )
                },
            }
        }),
{
}

/// A document that is opened keeps the module that the parser finds in its text: all of its
/// statements, in their order and each read in full. It keeps none exactly if the parser finds an
/// error, and the report counts the statements.
pub proof fn law_kept_module_is_the_module_of_the_text(
    files: Documents,
    uri: Seq<char>,
    text: Seq<char>,
)
    requires
        is_found(text, uri, parsed(text, uri)),
    ensures
        ({
            let kept = with_text(files, uri, text)[uri].module;
            let outcome = report_of(text, parsed(text, uri)).outcome;
            match parsed_suite(text, uri) {
                Ok(suite) => {
                    &&& kept is Some
                    &&& reads_suite(suite, kept->0)
                    &&& outcome == Ok::<nat, Seq<char>>(suite.len())
                },
                Err(problem) => {
                    &&& kept is None
                    &&& outcome == Err::<nat, Seq<char>>(problem.message)
                },
            }
        }),
{
}

/// The steps of an import together: it leads to the first of its candidates that is a file. It
/// leads nowhere if there is none, or if that file has no URI; else it leads to where the name
/// is defined in the document with that URI, as it is open or as it was read.
pub proof fn law_import_leads_into_the_first_file(
    files: Documents,
    path: FilePathView,
    import: ImportView,
    candidates: Seq<FilePathView>,
    is_file: Seq<bool>,
    step: ImportStep,
    stored: Option<Seq<char>>,
)
    requires
        candidates == import_candidates(path, import.module, import.level),
        is_step_from(files, first_file(candidates, is_file), import.name, step),
        step is Done ==> stored is None,
    ensures
        ({
            let location = answer_of(files, import.name, step, stored);
            match first_file(import_candidates(path, import.module, import.level), is_file) {
                Some(found) => exists|uri: Option<Seq<char>>| #[trigger]
                    gives_uri(found, uri) && location == (match uri {
                        Some(uri) => import_location_of(
                            uri,
                            import.name,
                            source_in(files, uri, stored),
                        ),
                        None => None,
                    }),
                None => location is None,
            }
        }),
{
    if let Some(found) = first_file(candidates, is_file) {
        let uri = choose|uri: Option<Seq<char>>| #[trigger]
            gives_uri(found, uri) && is_step_to(files, uri, import.name, step);
        assert(gives_uri(found, uri));
    }
}

/// Where an import leads after a step, given what was read if the step asked for it.
pub open spec fn answer_of(
    files: Documents,
    name: Option<Seq<char>>,
    step: ImportStep,
    stored: Option<Seq<char>>,
) -> Option<LocationView> {
    match step {
        ImportStep::Probe(_) => None,
        ImportStep::Read { uri, .. } => import_location_of(
            uri@,
            name,
            source_in(files, uri@, stored),
        ),
        ImportStep::Done(location) => optional_location(location),
    }
}

/// An open document hides the file on disk.
pub proof fn law_open_document_hides_the_file(
    files: Documents,
    uri: Seq<char>,
    stored: Option<Seq<char>>,
)
    requires
        files.contains_key(uri),
    ensures
        source_in(files, uri, stored) == source_in(files, uri, None),
{
}

/// Wherever a name has references, its definition is what they refer to.
pub proof fn law_references_are_to_the_definition(
    files: Documents,
    uri: Seq<char>,
    position: Position,
    imports: Seq<ResolvedImport>,
)
    requires
        target_in(files, uri, position, imports) is Some,
    ensures
        definition_in(files, uri, position, imports) == target_in(files, uri, position, imports),
{
}

/// A name that is not imported is defined in its own document.
pub proof fn law_local_name_is_defined_in_its_document(
    files: Documents,
    uri: Seq<char>,
    position: Position,
    imports: Seq<ResolvedImport>,
)
    requires
        binding_in(files, uri, position) is Some,
        binding_in(files, uri, position)->0.import is None,
    ensures
        definition_in(files, uri, position, imports) is Some,
        definition_in(files, uri, position, imports)->0.uri == uri,
        definition_in(files, uri, position, imports) == target_in(files, uri, position, imports),
{
}

/// The definition of a local function or class is the place where its name is written.
pub proof fn law_definition_is_where_the_name_is_written(
    files: Documents,
    uri: Seq<char>,
    position: Position,
    imports: Seq<ResolvedImport>,
)
    requires
        binding_in(files, uri, position) is Some,
        binding_in(files, uri, position)->0.import is None,
        binding_in(files, uri, position)->0.kind == SymbolKind::Function || binding_in(
            files,
            uri,
            position,
        )->0.kind == SymbolKind::Class,
    ensures
        ({
            let text = files[uri].text;
            let binding = binding_in(files, uri, position)->0;
            &&& definition_in(files, uri, position, imports) == Some(
                LocationView { uri, range: range_of(text, binding.span) },
            )
            &&& cut(text, binding.span) == encode_utf8(binding.name)
        }),
{
    let document = files[uri];
    law_definition_reads_as_its_name(
        document.text,
        module_scope(),
        document.module->0,
        offset_of(document.text, position)->0 as u32,
    );
}

/// The position that an offset of a text leads back to.
proof fn lemma_position_of_offset(text: Seq<char>, position: Position)
    requires
        byte_len(text) <= u32::MAX,
        offset_of(text, position) is Some,
    ensures
        position_of(text, offset_of(text, position)->0) == position,
        offset_of(text, position)->0 <= u32::MAX,
{
    law_position_round_trip(text, position);
    let i = index_of(text, position)->0;
    assert(places(text, i, position));
    lemma_prefix_grows(text, i, text.len() as int);
    assert(text.take(text.len() as int) =~= text);
}

/// The references to what the name at a position stands for take in that position: among the
/// references that are found in the document itself, with its imports resolved in the same way,
/// is one around it.
pub proof fn law_references_take_in_their_position(
    files: Documents,
    position: Position,
    file: SearchedFile,
    target: LocationView,
)
    requires
        files.contains_key(file.uri@),
        byte_len(files[file.uri@].text) <= u32::MAX,
        files[file.uri@] == (DocumentView {
            text: file.source.text@,
            module: Some(file.source@.module),
        }),
        target_in(files, file.uri@, position, file.imports@) == Some(target),
    ensures
        exists|k: int|
            0 <= k < references_in(file, target).len() && (#[trigger] references_in(
                file,
                target,
            )[k]).uri == file.uri@ && not_behind(
                references_in(file, target)[k].range.start,
                position,
            ) && not_behind(position, references_in(file, target)[k].range.end),
{
    let text = file.source.text@;
    let nodes = file.source@.module;
    let offset = offset_of(text, position)->0 as u32;
    lemma_position_of_offset(text, position);
    law_references_take_in_the_name_itself(
        file.uri@,
        text,
        file.imports@,
        target,
        module_scope(),
        nodes,
        offset,
    );
    let spans = mentions(
        file.uri@,
        text,
        file.imports@,
        target,
        module_scope(),
        walk_all(nodes),
    );
    let k = choose|k: int| 0 <= k < spans.len() && (#[trigger] spans[k]).covers(offset);
    law_positions_follow_offsets(text, spans[k].start as nat, offset as nat);
    law_positions_follow_offsets(text, offset as nat, spans[k].end as nat);
    assert(references_in(file, target)[k] == LocationView {
        uri: file.uri@,
        range: range_of(text, spans[k]),
    });
}

/// In every entry of an outline the name lies inside the definition.
pub proof fn law_outlined_name_lies_in_its_definition(
    text: Seq<char>,
    events: Seq<EventView>,
    k: int,
)
    requires
        byte_len(text) <= u32::MAX,
        0 <= k < outline(text, events).len(),
    ensures
        not_behind(
            outline(text, events)[k].range.start,
            outline(text, events)[k].selection_range.start,
        ),
        not_behind(
            outline(text, events)[k].selection_range.end,
            outline(text, events)[k].range.end,
        ),
    decreases events.len(),
{
    let event = events.last();
    if k < outline(text, events.drop_last()).len() {
        law_outlined_name_lies_in_its_definition(text, events.drop_last(), k);
    } else {
        let (outer, name) = match event {
            EventView::Function { name, span, .. } => (span, name),
            EventView::Class { name, span } => (span, name),
            _ => arbitrary(),
        };
        law_defined_name_reads_as_the_name(text, outer, name);
        let span = defined_name(text, outer, name)->0;
        law_positions_follow_offsets(text, outer.start as nat, span.start as nat);
        law_positions_follow_offsets(text, span.end as nat, outer.end as nat);
    }
}

} // verus!
