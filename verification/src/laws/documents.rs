use crate::batch::{
    after_file, after_parsed, after_unreadable, empty_report, error_detail, line_count, report_on,
    BatchReportView,
};
use crate::binding::BindingView;
use crate::hover::hover_text_at;
use crate::location::range_of;
use crate::parser::{parsed, SyntaxProblem};
use crate::references::{definition_of, ResolvedImport};
use crate::scope::{binding_at, module_scope};
use crate::source::{document_of, error_at, report_of, DiagnosticSeverity, SourceView};
use crate::symbols::{outline, DocumentSymbolView};
use crate::syntax::NodeView;
use crate::text::{
    byte_len, edited, index_of, law_position_is_unique, newlines, offset_of, places, position_of,
    ChangeError, Position, Range,
};
use crate::trace::walk_all;
use crate::workspace::{
    binding_in, binding_in_document, changed, changed_by_all, definition_in, hover_in, outline_in,
    source_in, stays_small, target_in, with_changes, with_text, Documents, TextChange,
};
use vstd::prelude::*;

verus! {

/// A change of a stretch puts its text in the place of the stretch, whatever the text is. An empty
/// text takes the stretch away.
pub proof fn law_change_replaces_the_stretch(
    text: Seq<char>,
    change: TextChange,
    range: Range,
    i: int,
    j: int,
)
    requires
        change.range == Some(range),
    ensures
        changed(text, change) == edited(text, range, change.text@),
        index_of(text, range.start) == Some(i) && index_of(text, range.end) == Some(j) && i <= j
            ==> changed(text, change) == Ok::<Seq<char>, ChangeError>(
            text.take(i) + change.text@ + text.skip(j),
        ),
        index_of(text, range.start) == Some(i) && index_of(text, range.end) == Some(j) && i <= j
            && change.text@.len() == 0 ==> changed(text, change) == Ok::<Seq<char>, ChangeError>(
            text.take(i) + text.skip(j),
        ),
        index_of(text, range.start) is None ==> changed(text, change) == Err::<
            Seq<char>,
            ChangeError,
        >(ChangeError::InvalidStart(range.start)),
        index_of(text, range.start) is Some && index_of(text, range.end) is None ==> changed(
            text,
            change,
        ) == Err::<Seq<char>, ChangeError>(ChangeError::InvalidEnd(range.end)),
        index_of(text, range.start) == Some(i) && index_of(text, range.end) == Some(j) && i > j
            ==> changed(text, change) == Err::<Seq<char>, ChangeError>(ChangeError::StartAfterEnd),
{
    if change.text@.len() == 0 && 0 <= i <= text.len() && 0 <= j <= text.len() {
        assert(text.take(i) + change.text@ + text.skip(j) =~= text.take(i) + text.skip(j));
    } else if change.text@.len() == 0 {
        assert(change.text@ =~= Seq::empty());
        assert(text.take(i) + change.text@ =~= text.take(i));
    }
}

/// A deleted stretch comes back if its text is put in at the place where it began.
pub proof fn law_deletion_can_be_undone(
    text: Seq<char>,
    deletion: TextChange,
    insertion: TextChange,
    range: Range,
    i: int,
    j: int,
)
    requires
        index_of(text, range.start) == Some(i),
        index_of(text, range.end) == Some(j),
        i <= j,
        deletion.range == Some(range),
        deletion.text@.len() == 0,
        insertion.range == Some(Range { start: range.start, end: range.start }),
        insertion.text@ == text.subrange(i, j),
    ensures
        changed(text, deletion) is Ok,
        changed(text, deletion)->Ok_0.len() == text.len() - (j - i),
        changed(changed(text, deletion)->Ok_0, insertion) == Ok::<Seq<char>, ChangeError>(text),
{
    law_change_replaces_the_stretch(text, deletion, range, i, j);
    assert(places(text, i, range.start) && places(text, j, range.end));
    let now = text.take(i) + text.skip(j);
    assert(now.take(i) =~= text.take(i));
    assert(places(now, i, range.start));
    let k = index_of(now, range.start)->0;
    law_position_is_unique(now, i, k, range.start);
    law_change_replaces_the_stretch(
        now,
        insertion,
        Range { start: range.start, end: range.start },
        i,
        i,
    );
    assert(now.take(i) + text.subrange(i, j) + now.skip(i) =~= text);
}

/// A change without a stretch puts its text in the place of the whole document.
pub proof fn law_change_of_all_replaces_all(text: Seq<char>, change: TextChange)
    requires
        change.range is None,
    ensures
        changed(text, change) == Ok::<Seq<char>, ChangeError>(change.text@),
{
}

/// Each change is made in the text that the changes before it left. The first that cannot be made
/// ends the row, with its error and the text before it.
pub proof fn law_changes_are_made_in_order(
    text: Seq<char>,
    changes: Seq<TextChange>,
    change: TextChange,
)
    ensures
        changed_by_all(text, Seq::empty()) == (text, None::<ChangeError>),
        changed_by_all(text, changes).1 is Some ==> changed_by_all(text, changes.push(change))
            == changed_by_all(text, changes),
        changed_by_all(text, changes).1 is None ==> match changed(
            changed_by_all(text, changes).0,
            change,
        ) {
            Ok(now) => changed_by_all(text, changes.push(change)) == (now, None::<ChangeError>),
            Err(error) => changed_by_all(text, changes.push(change)) == (
                changed_by_all(text, changes).0,
                Some(error),
            ),
        },
{
    assert(changes.push(change).drop_last() =~= changes);
}

/// Changes stay small if the text is small now, and after each of them.
pub proof fn law_small_changes_are_small_at_each_step(
    text: Seq<char>,
    changes: Seq<TextChange>,
    change: TextChange,
)
    ensures
        stays_small(text, Seq::empty()) <==> byte_len(text) <= u32::MAX,
        stays_small(text, changes.push(change)) <==> stays_small(text, changes) && byte_len(
            changed_by_all(text, changes.push(change)).0,
        ) <= u32::MAX,
{
    let none = Seq::<TextChange>::empty();
    let all = changes.push(change);
    assert(none.take(0) =~= none);
    assert(forall|i: int| 0 <= i <= none.len() ==> #[trigger] none.take(i) =~= none);
    assert(forall|i: int| 0 <= i <= changes.len() ==> #[trigger] all.take(i) =~= changes.take(i));
    assert(all.take(all.len() as int) =~= all);
    if stays_small(text, all) {
        assert forall|i: int| 0 <= i <= changes.len() implies byte_len(
            changed_by_all(text, #[trigger] changes.take(i)).0,
        ) <= u32::MAX by {
            assert(all.take(i) =~= changes.take(i));
        }
    }
    if stays_small(text, changes) && byte_len(changed_by_all(text, all).0) <= u32::MAX {
        assert forall|i: int| 0 <= i <= all.len() implies byte_len(
            changed_by_all(text, #[trigger] all.take(i)).0,
        ) <= u32::MAX by {
            if i <= changes.len() {
                assert(all.take(i) =~= changes.take(i));
            } else {
                assert(all.take(i) =~= all);
            }
        }
    }
}

/// An opened document holds its text and the module that the parser finds in it, and no other
/// document is touched.
pub proof fn law_opened_document_is_held(
    files: Documents,
    uri: Seq<char>,
    text: Seq<char>,
    other: Seq<char>,
)
    ensures
        ({
            let now = with_text(files, uri, text);
            &&& now.contains_key(uri)
            &&& now[uri].text == text
            &&& match parsed(text, uri) {
                Ok(module) => now[uri].module == Some(module),
                Err(_) => now[uri].module is None,
            }
            &&& other != uri ==> (now.contains_key(other) <==> files.contains_key(other))
            &&& other != uri && files.contains_key(other) ==> now[other] == files[other]
        }),
{
}

/// A changed document holds the changed text. It holds the module of that text if every change
/// could be made, and otherwise the module that it held before. No other document is touched, and
/// none is opened.
pub proof fn law_changed_document_is_held(
    files: Documents,
    uri: Seq<char>,
    changes: Seq<TextChange>,
    other: Seq<char>,
)
    ensures
        ({
            let now = with_changes(files, uri, changes);
            let (text, error) = changed_by_all(files[uri].text, changes);
            &&& now.contains_key(other) <==> files.contains_key(other)
            &&& other != uri && files.contains_key(other) ==> now[other] == files[other]
            &&& files.contains_key(uri) ==> now[uri].text == text
            &&& files.contains_key(uri) && error is Some ==> now[uri].module == files[uri].module
            &&& files.contains_key(uri) && error is None ==> match parsed(text, uri) {
                Ok(module) => now[uri].module == Some(module),
                Err(_) => now[uri].module is None,
            }
        }),
{
}

/// A text that holds a module makes a document with that module and a report that shows nothing
/// and counts its statements.
pub proof fn law_module_is_kept_and_counted(text: Seq<char>, module: Seq<NodeView>)
    ensures
        ({
            let found = Ok::<Seq<NodeView>, SyntaxProblem>(module);
            &&& document_of(text, found).text == text
            &&& document_of(text, found).module == Some(module)
            &&& report_of(text, found).diagnostics.len() == 0
            &&& report_of(text, found).outcome == Ok::<nat, Seq<char>>(module.len())
        }),
{
}

/// A text that holds no module makes a document without one, and a report that shows the error
/// once, at its place, and tells the parser's message.
pub proof fn law_error_is_shown_at_its_place(text: Seq<char>, problem: SyntaxProblem)
    ensures
        ({
            let found = Err::<Seq<NodeView>, SyntaxProblem>(problem);
            let report = report_of(text, found);
            &&& document_of(text, found).text == text
            &&& document_of(text, found).module is None
            &&& report.outcome == Err::<nat, Seq<char>>(problem.message)
            &&& report.diagnostics.len() == 1
            &&& report.diagnostics[0].range.start == position_of(text, problem.offset)
            &&& report.diagnostics[0].range.end == position_of(text, problem.offset)
            &&& report.diagnostics[0].severity == DiagnosticSeverity::Error
            &&& report.diagnostics[0].source == "pylsp"@
            &&& report.diagnostics[0].message == "Syntax Error: "@ + problem.error
        }),
{
}

/// An error keeps its range and its message.
pub proof fn law_error_keeps_its_range_and_message(range: Range, message: Seq<char>)
    ensures
        error_at(range, message).range == range,
        error_at(range, message).message == message,
        error_at(range, message).severity == DiagnosticSeverity::Error,
        error_at(range, message).source == "pylsp"@,
{
}

/// The name at a position of an open document is looked for at the byte of the position, in the
/// module of the document from its beginning on.
pub proof fn law_open_document_is_searched(
    files: Documents,
    uri: Seq<char>,
    position: Position,
    offset: u32,
    module: Seq<NodeView>,
)
    requires
        files.contains_key(uri),
        offset_of(files[uri].text, position) == Some(offset as nat),
        files[uri].module == Some(module),
    ensures
        binding_in(files, uri, position) == binding_at(
            files[uri].text,
            module_scope(),
            module,
            offset,
        ),
        binding_in_document(files[uri], position) == binding_at(
            files[uri].text,
            module_scope(),
            module,
            offset,
        ),
        hover_in(files, uri, position) == hover_text_at(files[uri].text, module, offset),
{
}

/// Nothing is found where a document is not open or holds no module, or at a position that it does
/// not have.
pub proof fn law_nothing_is_found_without_a_module(
    files: Documents,
    uri: Seq<char>,
    position: Position,
    imports: Seq<ResolvedImport>,
)
    ensures
        !files.contains_key(uri) || files[uri].module is None || offset_of(
            files[uri].text,
            position,
        ) is None ==> {
            &&& binding_in(files, uri, position) is None
            &&& hover_in(files, uri, position) is None
            &&& definition_in(files, uri, position, imports) is None
            &&& target_in(files, uri, position, imports) is None
        },
{
}

/// An open document has an outline, which lists the definitions of its module and is empty without
/// one. A document that is not open has none.
pub proof fn law_open_document_has_an_outline(files: Documents, uri: Seq<char>)
    ensures
        outline_in(files, uri) is Some <==> files.contains_key(uri),
        files.contains_key(uri) && files[uri].module is None ==> outline_in(files, uri)->0
            == Seq::<DocumentSymbolView>::empty(),
        files.contains_key(uri) && files[uri].module is Some ==> outline_in(files, uri)->0
            == outline(files[uri].text, walk_all(files[uri].module->0)),
{
}

/// A known name has a definition, at the place of its binding if its import leads nowhere. Its
/// references are those of that definition, and it has none if its import leads nowhere.
pub proof fn law_known_name_has_a_definition(
    files: Documents,
    uri: Seq<char>,
    position: Position,
    imports: Seq<ResolvedImport>,
    binding: BindingView,
)
    requires
        binding_in(files, uri, position) == Some(binding),
    ensures
        target_in(files, uri, position, imports) == definition_of(
            uri,
            files[uri].text,
            imports,
            binding,
        ),
        definition_in(files, uri, position, imports) is Some,
        target_in(files, uri, position, imports) is Some ==> definition_in(
            files,
            uri,
            position,
            imports,
        ) == target_in(files, uri, position, imports),
        target_in(files, uri, position, imports) is None ==> {
            &&& definition_in(files, uri, position, imports)->0.uri == uri
            &&& definition_in(files, uri, position, imports)->0.range == range_of(
                files[uri].text,
                binding.span,
            )
        },
{
}

/// A file is loaded from its open document, or else from its stored text, and only with a module.
pub proof fn law_file_is_loaded_with_its_module(
    files: Documents,
    uri: Seq<char>,
    stored: Option<Seq<char>>,
    text: Seq<char>,
    module: Seq<NodeView>,
)
    ensures
        source_in(files, uri, stored) == Some(SourceView { text, module }) <==> {
            ||| files.contains_key(uri) && files[uri].text == text && files[uri].module == Some(
                module,
            )
            ||| !files.contains_key(uri) && stored == Some(text) && parsed(text, uri) == Ok::<
                Seq<NodeView>,
                SyntaxProblem,
            >(module)
        },
        source_in(files, uri, stored) is None <==> {
            ||| files.contains_key(uri) && files[uri].module is None
            ||| !files.contains_key(uri) && (stored is None || parsed(stored->0, uri) is Err)
        },
{
}

proof fn lemma_newlines_add(first: Seq<char>, second: Seq<char>)
    ensures
        newlines(first + second) == newlines(first) + newlines(second),
    decreases second.len(),
{
    if second.len() == 0 {
        assert(first + second =~= first);
    } else {
        assert((first + second).drop_last() =~= first + second.drop_last());
        lemma_newlines_add(first, second.drop_last());
    }
}

proof fn lemma_no_newlines(line: Seq<char>)
    requires
        !line.contains('\n'),
    ensures
        newlines(line) == 0,
    decreases line.len(),
{
    if line.len() > 0 {
        assert(line.contains(line.last()));
        assert forall|i: int| 0 <= i < line.drop_last().len() implies #[trigger] line.drop_last()[i]
            != '\n' by {
            assert(line.contains(line[i]));
        }
        lemma_no_newlines(line.drop_last());
    }
}

/// A text has a line for each line feed, and one more if something follows the last of them.
pub proof fn law_lines_are_counted(line: Seq<char>, rest: Seq<char>)
    requires
        !line.contains('\n'),
    ensures
        line_count(Seq::empty()) == 0,
        line.len() > 0 ==> line_count(line) == 1,
        line_count(line + seq!['\n'] + rest) == 1 + line_count(rest),
{
    lemma_no_newlines(line);
    if line.len() > 0 {
        assert(line.contains(line.last()));
    }
    let end = seq!['\n'];
    assert(end.drop_last() =~= Seq::empty());
    assert(newlines(end) == 1) by {
        reveal_with_fuel(newlines, 2);
    }
    lemma_newlines_add(line, end);
    lemma_newlines_add(line + end, rest);
    if rest.len() > 0 {
        assert((line + end + rest).last() == rest.last());
    } else {
        assert(line + end + rest =~= line + end);
        assert((line + end).last() == '\n');
    }
}

/// An error in a file is told with the path of the file, the parser's message and its place, which
/// is counted from one.
pub proof fn law_error_detail_counts_from_one(
    path: Seq<char>,
    text: Seq<char>,
    problem: SyntaxProblem,
)
    ensures
        error_detail(path, text, problem).path == path,
        error_detail(path, text, problem).text == problem.message,
        error_detail(path, text, problem).line == position_of(text, problem.offset).line + 1,
        error_detail(path, text, problem).column == position_of(text, problem.offset).character
            + 1,
{
}

/// A file that cannot be read has failed, and changes nothing else in a report. One that holds a
/// module has passed, and one that holds none has failed with its error. Both bring their lines.
pub proof fn law_report_counts_each_file(
    report: BatchReportView,
    path: Seq<char>,
    text: Seq<char>,
    module: Seq<NodeView>,
    problem: SyntaxProblem,
)
    ensures
        ({
            let unreadable = after_unreadable(report);
            let passed = after_parsed(report, path, text, Ok(module));
            let failed = after_parsed(report, path, text, Err(problem));
            &&& unreadable.passed == report.passed
            &&& unreadable.failed == report.failed + 1
            &&& unreadable.diagnostic_err == report.diagnostic_err
            &&& unreadable.total_lines_parsed == report.total_lines_parsed
            &&& unreadable.err_in_files == report.err_in_files
            &&& passed.passed == report.passed + 1
            &&& passed.failed == report.failed
            &&& passed.diagnostic_err == report.diagnostic_err
            &&& passed.total_lines_parsed == report.total_lines_parsed + line_count(text)
            &&& passed.err_in_files == report.err_in_files
            &&& failed.passed == report.passed
            &&& failed.failed == report.failed + 1
            &&& failed.diagnostic_err == report.diagnostic_err + 1
            &&& failed.total_lines_parsed == report.total_lines_parsed + line_count(text)
            &&& failed.err_in_files.len() == report.err_in_files.len() + 1
            &&& failed.err_in_files.drop_last() == report.err_in_files
            &&& failed.err_in_files.last() == error_detail(path, text, problem)
        }),
        after_file(report, path, None) == after_unreadable(report),
        after_file(report, path, Some(text)) == after_parsed(
            report,
            path,
            text,
            parsed(text, path),
        ),
{
    let failed = after_parsed(report, path, text, Err(problem));
    assert(failed.err_in_files.drop_last() =~= report.err_in_files);
}

/// The reports on two rows of files add up, with the errors of the first row before those of the
/// second. The report on no files is empty.
pub proof fn law_reports_add_up(
    first: Seq<(Seq<char>, Option<Seq<char>>)>,
    second: Seq<(Seq<char>, Option<Seq<char>>)>,
)
    ensures
        ({
            let both = report_on(first + second);
            let a = report_on(first);
            let b = report_on(second);
            &&& both.passed == a.passed + b.passed
            &&& both.failed == a.failed + b.failed
            &&& both.diagnostic_err == a.diagnostic_err + b.diagnostic_err
            &&& both.total_lines_parsed == a.total_lines_parsed + b.total_lines_parsed
            &&& both.err_in_files == a.err_in_files + b.err_in_files
        }),
    decreases second.len(),
{
    if second.len() == 0 {
        assert(first + second =~= first);
    } else {
        assert((first + second).drop_last() =~= first + second.drop_last());
        law_reports_add_up(first, second.drop_last());
    }
    assert(report_on(first + second).err_in_files =~= report_on(first).err_in_files + report_on(
        second,
    ).err_in_files);
}

/// A report on one file counts that file.
pub proof fn law_report_on_one_file(path: Seq<char>, text: Option<Seq<char>>)
    ensures
        report_on(Seq::empty()) == empty_report(),
        empty_report().passed == 0 && empty_report().failed == 0,
        empty_report().diagnostic_err == 0 && empty_report().total_lines_parsed == 0,
        empty_report().err_in_files.len() == 0,
        report_on(seq![(path, text)]) == after_file(empty_report(), path, text),
{
    reveal_with_fuel(report_on, 2);
    assert(seq![(path, text)].drop_last() =~= Seq::empty());
}

} // verus!
