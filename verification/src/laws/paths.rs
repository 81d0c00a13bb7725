use crate::binding::ImportView;
use crate::imports::{
    import_location_of, is_first_step, is_step_from, is_step_into, is_step_to, leads_nowhere,
    name_among_targets, top_level_name, ImportStep,
};
use crate::location::{document_start, optional_location, range_of, Location};
use crate::modules::{
    ancestor, distinct, dotted_parts, first_file, give_uris, gives_path, gives_uri,
    import_candidates, is_file_uri, is_python_name, last_dot, module_files, part_names, paths_view,
    present, stem, upward_files, with_py, FilePath, FilePathView, DOT,
};
use crate::search::defined_name;
use crate::source::SourceView;
use crate::syntax::{
    ExpressionView, ImportedNameView, NodeView, ParamView, Span, StatementView,
};
use crate::workspace::{source_in, Documents};
use vstd::prelude::*;
use vstd::utf8::{encode_scalar, encode_utf8};

verus! {

/// The directory or file of a name below a directory.
pub open spec fn below(directory: FilePathView, name: Seq<u8>) -> FilePathView {
    FilePathView { root: directory.root, names: directory.names + seq![name] }
}

proof fn lemma_dotted_len(name: Seq<char>)
    ensures
        dotted_parts(name).len() > 0,
    decreases name.len(),
{
    if name.len() > 0 {
        lemma_dotted_len(name.drop_last());
    }
}

proof fn lemma_dotted_concat(first: Seq<char>, second: Seq<char>)
    ensures
        dotted_parts(first + seq!['.'] + second) == dotted_parts(first) + dotted_parts(second),
    decreases second.len(),
{
    let whole = first + seq!['.'] + second;
    lemma_dotted_len(second);
    if second.len() == 0 {
        assert(whole.drop_last() =~= first);
        assert(whole.last() == '.');
        assert(dotted_parts(whole) =~= dotted_parts(first) + dotted_parts(second));
    } else {
        let shorter = second.drop_last();
        lemma_dotted_len(shorter);
        lemma_dotted_concat(first, shorter);
        assert(whole.drop_last() =~= first + seq!['.'] + shorter);
        assert(whole.last() == second.last());
        let earlier = dotted_parts(first) + dotted_parts(shorter);
        assert(earlier.last() == dotted_parts(shorter).last());
        assert(dotted_parts(whole) =~= dotted_parts(first) + dotted_parts(second));
    }
}

proof fn lemma_dotless(name: Seq<char>)
    requires
        !name.contains('.'),
    ensures
        dotted_parts(name) == seq![name],
    decreases name.len(),
{
    if name.len() == 0 {
        assert(name =~= Seq::empty());
    } else {
        let shorter = name.drop_last();
        assert(name.contains(name.last()));
        assert forall|i: int| 0 <= i < shorter.len() implies #[trigger] shorter[i] != '.' by {
            assert(name.contains(name[i]));
        }
        lemma_dotless(shorter);
        assert(shorter.push(name.last()) =~= name);
        assert(dotted_parts(name) =~= seq![name]);
    }
}

/// A dotted name is cut at each dot, and nowhere else.
pub proof fn law_dotted_name_is_cut_at_each_dot(
    first: Seq<char>,
    second: Seq<char>,
    plain: Seq<char>,
)
    ensures
        dotted_parts(first + seq!['.'] + second) == dotted_parts(first) + dotted_parts(second),
        !plain.contains('.') ==> dotted_parts(plain) == seq![plain],
{
    lemma_dotted_concat(first, second);
    if !plain.contains('.') {
        lemma_dotless(plain);
    }
}

/// Each part of a dotted name that is not empty is a name in UTF-8, in the same order.
pub proof fn law_parts_are_names_in_utf8(
    first: Seq<Seq<char>>,
    second: Seq<Seq<char>>,
    part: Seq<char>,
)
    ensures
        part_names(Seq::empty()) == Seq::<Seq<u8>>::empty(),
        part.len() == 0 ==> part_names(seq![part]) == Seq::<Seq<u8>>::empty(),
        part.len() > 0 ==> part_names(seq![part]) == seq![encode_utf8(part)],
        part_names(first + second) == part_names(first) + part_names(second),
    decreases second.len(),
{
    reveal_with_fuel(part_names, 2);
    assert(seq![part].drop_last() =~= Seq::empty());
    if part.len() > 0 {
        assert(part_names(seq![part]) =~= seq![encode_utf8(part)]);
    }
    if second.len() == 0 {
        assert(first + second =~= first);
    } else {
        assert((first + second).drop_last() =~= first + second.drop_last());
        law_parts_are_names_in_utf8(first, second.drop_last(), part);
    }
    assert(part_names(first + second) =~= part_names(first) + part_names(second));
}

proof fn lemma_last_dot(front: Seq<u8>, back: Seq<u8>)
    requires
        !back.contains(DOT),
    ensures
        last_dot(front + seq![DOT] + back) == Some(front.len() as int),
    decreases back.len(),
{
    let whole = front + seq![DOT] + back;
    if back.len() == 0 {
        assert(whole.last() == DOT);
    } else {
        let shorter = back.drop_last();
        assert(back.contains(back.last()));
        assert(whole.last() == back.last());
        assert forall|i: int| 0 <= i < shorter.len() implies #[trigger] shorter[i] != DOT by {
            assert(back.contains(back[i]));
        }
        assert(whole.drop_last() =~= front + seq![DOT] + shorter);
        lemma_last_dot(front, shorter);
    }
}

proof fn lemma_no_dot(name: Seq<u8>)
    requires
        !name.contains(DOT),
    ensures
        last_dot(name) is None,
    decreases name.len(),
{
    if name.len() > 0 {
        let shorter = name.drop_last();
        assert(name.contains(name.last()));
        assert forall|i: int| 0 <= i < shorter.len() implies #[trigger] shorter[i] != DOT by {
            assert(name.contains(name[i]));
        }
        lemma_no_dot(shorter);
    }
}

/// The extension of a name begins at its last dot. A name without a dot has none, and neither has
/// one whose last dot is its first byte.
pub proof fn law_extension_begins_at_the_last_dot(front: Seq<u8>, back: Seq<u8>)
    requires
        !back.contains(DOT),
    ensures
        DOT == 0x2e,
        last_dot(front + seq![DOT] + back) == Some(front.len() as int),
        last_dot(back) is None,
        front.len() > 0 ==> stem(front + seq![DOT] + back) == front,
        stem(seq![DOT] + back) == seq![DOT] + back,
        stem(back) == back,
{
    lemma_last_dot(front, back);
    lemma_no_dot(back);
    assert((front + seq![DOT] + back).take(front.len() as int) =~= front);
    lemma_last_dot(Seq::empty(), back);
    assert(Seq::<u8>::empty() + seq![DOT] + back =~= seq![DOT] + back);
}

/// A path gets the extension `py` at its last name and nowhere else. The root and a step upwards
/// get none.
pub proof fn law_last_name_gets_the_extension(front: Seq<Seq<u8>>, name: Seq<u8>)
    ensures
        with_py(Seq::empty()) == Seq::<Seq<u8>>::empty(),
        name == encode_utf8(".."@) ==> with_py(front + seq![name]) == front + seq![name],
        name != encode_utf8(".."@) ==> with_py(front + seq![name]) == front + seq![
            stem(name) + encode_utf8(".py"@),
        ],
{
    let names = front + seq![name];
    assert(names.last() == name);
    if name != encode_utf8(".."@) {
        assert(with_py(names) =~= front + seq![stem(name) + encode_utf8(".py"@)]);
    }
}

/// A module is looked for in a file of its name and in the initial file of a directory of its
/// name, in this order. The module of a directory is looked for in its initial file alone.
pub proof fn law_module_is_a_file_or_a_directory(base: FilePathView, name: Seq<char>)
    ensures
        ({
            let init = encode_utf8("__init__.py"@);
            let names = base.names + part_names(dotted_parts(name));
            let files = module_files(base, Some(name));
            let own = module_files(base, None);
            &&& files.len() == 2
            &&& files[0].root == base.root
            &&& files[0].names == with_py(names)
            &&& files[1].root == base.root
            &&& files[1].names == names + seq![init]
            &&& own.len() == 1
            &&& own[0] == below(base, init)
        }),
{
    let init = encode_utf8("__init__.py"@);
    let names = base.names + part_names(dotted_parts(name));
    assert(names.push(init) =~= names + seq![init]);
    assert(base.names.push(init) =~= base.names + seq![init]);
}

/// No byte of a character other than a dot is a dot.
proof fn lemma_dotless_scalar(scalar: u32)
    requires
        scalar != 0x2e,
    ensures
        !encode_scalar(scalar).contains(DOT),
{
    assert(scalar != 0x2e && scalar <= 0x7f ==> (scalar & 0x7f) as u8 != 0x2e) by (bit_vector);
    assert(0xC0u8 | ((scalar >> 6) & 0x1F) as u8 != 0x2e) by (bit_vector);
    assert(0xE0u8 | ((scalar >> 12) & 0x0F) as u8 != 0x2e) by (bit_vector);
    assert(0xF0u8 | ((scalar >> 18) & 0x7) as u8 != 0x2e) by (bit_vector);
    assert(0x80u8 | (scalar & 0x3F) as u8 != 0x2e) by (bit_vector);
    assert(0x80u8 | ((scalar >> 6) & 0x3F) as u8 != 0x2e) by (bit_vector);
    assert(0x80u8 | ((scalar >> 12) & 0x3F) as u8 != 0x2e) by (bit_vector);
}

proof fn lemma_dotless_char(c: char)
    requires
        c != '.',
    ensures
        !encode_scalar(c as u32).contains(DOT),
{
    assert('.' as u32 == 0x2e);
    lemma_dotless_scalar(c as u32);
}

/// A text without a dot has no dot among its bytes.
proof fn lemma_dotless_bytes(name: Seq<char>)
    requires
        !name.contains('.'),
    ensures
        !encode_utf8(name).contains(DOT),
    decreases name.len(),
{
    if name.len() > 0 {
        let rest = name.drop_first();
        assert(name.contains(name[0]));
        lemma_dotless_char(name[0]);
        assert forall|i: int| 0 <= i < rest.len() implies #[trigger] rest[i] != '.' by {
            assert(name.contains(name[i + 1]));
        }
        lemma_dotless_bytes(rest);
        let first = encode_scalar(name[0] as u32);
        assert forall|i: int| 0 <= i < encode_utf8(name).len() implies #[trigger] encode_utf8(
            name,
        )[i] != DOT by {
            if i < first.len() {
                assert(first.contains(first[i]));
            } else {
                assert(encode_utf8(rest).contains(encode_utf8(rest)[i - first.len()]));
            }
        }
    }
}

proof fn lemma_step_upwards_has_a_dot()
    ensures
        encode_utf8(".."@).contains(DOT),
{
    reveal_strlit("..");
    assert((0x2eu32 & 0x7f) as u8 == 0x2e) by (bit_vector);
    assert('.' as u32 == 0x2e);
    assert(encode_utf8(".."@)[0] == DOT);
}

/// The files of a module `name` without dots below a directory are `name.py` and
/// `name/__init__.py` there.
pub proof fn law_plain_module_lies_in_its_directory(base: FilePathView, name: Seq<char>)
    requires
        name.len() > 0,
        !name.contains('.'),
    ensures
        module_files(base, Some(name)) == seq![
            below(base, encode_utf8(name) + encode_utf8(".py"@)),
            below(below(base, encode_utf8(name)), encode_utf8("__init__.py"@)),
        ],
{
    lemma_dotless(name);
    lemma_dotless_bytes(name);
    lemma_step_upwards_has_a_dot();
    law_parts_are_names_in_utf8(Seq::empty(), Seq::empty(), name);
    law_module_is_a_file_or_a_directory(base, name);
    law_last_name_gets_the_extension(base.names, encode_utf8(name));
    law_extension_begins_at_the_last_dot(Seq::empty(), encode_utf8(name));
    assert(module_files(base, Some(name)) =~= seq![
        below(base, encode_utf8(name) + encode_utf8(".py"@)),
        below(below(base, encode_utf8(name)), encode_utf8("__init__.py"@)),
    ]);
}

/// A step upwards takes away the last name, and further steps go on from there.
pub proof fn law_steps_upwards_take_names_away(directory: FilePathView, name: Seq<u8>, steps: int)
    requires
        0 <= steps <= directory.names.len(),
    ensures
        ancestor(directory, 0) == directory,
        ancestor(below(directory, name), 1) == directory,
        ancestor(below(directory, name), steps + 1) == ancestor(directory, steps),
{
    let longer = below(directory, name);
    assert(directory.names.take(directory.names.len() as int) =~= directory.names);
    assert(longer.names.take(longer.names.len() - 1) =~= directory.names);
    assert(longer.names.take(longer.names.len() - (steps + 1)) =~= directory.names.take(
        directory.names.len() - steps,
    ));
}

proof fn lemma_upward_shift(
    directory: FilePathView,
    name: Seq<u8>,
    module: Option<Seq<char>>,
    steps: int,
)
    requires
        0 <= steps,
    ensures
        upward_files(below(directory, name), module, steps + 1) == upward_files(
            directory,
            module,
            steps,
        ),
    decreases directory.names.len() + 1 - steps,
{
    if steps <= directory.names.len() {
        law_steps_upwards_take_names_away(directory, name, steps);
        lemma_upward_shift(directory, name, module, steps + 1);
    }
}

/// An import without dots is looked for in the directory of the file, and then as if the file lay
/// one directory higher. One dot means the directory of the file, and one dot more is one dot in
/// the directory above. The root itself imports nothing.
pub proof fn law_imports_are_looked_for_upwards(
    directory: FilePathView,
    file: Seq<u8>,
    module: Option<Seq<char>>,
    level: usize,
)
    ensures
        import_candidates(below(directory, file), module, 0) == module_files(directory, module)
            + import_candidates(directory, module, 0),
        import_candidates(below(directory, file), module, 1) == module_files(directory, module),
        1 < level ==> import_candidates(below(directory, file), module, level)
            == import_candidates(directory, module, (level - 1) as usize),
        directory.names.len() == 0 ==> import_candidates(directory, module, level) == Seq::<
            FilePathView,
        >::empty(),
{
    law_steps_upwards_take_names_away(directory, file, 0);
    if directory.names.len() > 0 {
        let name = directory.names.last();
        let above = ancestor(directory, 1);
        assert(below(above, name) == directory) by {
            assert(above.names + seq![name] =~= directory.names);
        }
        lemma_upward_shift(above, name, module, 0);
        if 1 < level && level - 2 <= above.names.len() {
            law_steps_upwards_take_names_away(above, name, level - 2);
        }
    } else {
        assert(upward_files(directory, module, 1) =~= Seq::empty());
        assert(module_files(directory, module) + Seq::empty() =~= module_files(directory, module));
    }
}

/// Of two rows of candidates the second counts only if no candidate of the first is a file.
pub proof fn law_earlier_candidates_come_first(
    candidate: FilePathView,
    candidates: Seq<FilePathView>,
    is_file: Seq<bool>,
)
    ensures
        first_file(Seq::empty(), Seq::empty()) is None,
        first_file(seq![candidate] + candidates, seq![true] + is_file) == Some(candidate),
        first_file(seq![candidate] + candidates, seq![false] + is_file) == first_file(
            candidates,
            is_file,
        ),
{
    assert((seq![candidate] + candidates).drop_first() =~= candidates);
    assert((seq![false] + is_file).drop_first() =~= is_file);
    assert((seq![false] + is_file).first() == false);
    assert((seq![true] + is_file).first() == true);
    assert((seq![candidate] + candidates).first() == candidate);
}

/// A file holds Python source if its name is something followed by `.py`.
pub proof fn law_python_names_end_in_py(front: Seq<char>, name: Seq<char>)
    ensures
        is_python_name(front + ".py"@) <==> front.len() > 0,
        is_python_name(name) ==> name.take(name.len() - 3) + ".py"@ == name,
{
    reveal_strlit(".py");
    let whole = front + ".py"@;
    assert(whole.skip(whole.len() - 3) =~= ".py"@);
    if is_python_name(name) {
        assert(name.take(name.len() - 3) + name.skip(name.len() - 3) =~= name);
    }
}

/// An item that stood in a row before is left out, and a new one comes last.
pub proof fn law_first_of_equal_items_stays(row: Seq<Seq<char>>, item: Seq<char>)
    ensures
        distinct(Seq::empty()) == Seq::<Seq<char>>::empty(),
        row.contains(item) ==> distinct(row + seq![item]) == distinct(row),
        !row.contains(item) ==> distinct(row + seq![item]) == distinct(row) + seq![item],
{
    let longer = row + seq![item];
    assert(longer.drop_last() =~= row);
    assert(longer.last() == item);
    assert(distinct(row).push(item) =~= distinct(row) + seq![item]);
}

/// A URI of the scheme `file` begins with the scheme.
pub proof fn law_file_uris_begin_with_the_scheme(uri: Seq<char>)
    ensures
        is_file_uri("file://"@ + uri),
        is_file_uri(uri) ==> uri.len() >= 7 && uri == "file://"@ + uri.skip(7),
{
    reveal_strlit("file://");
    let whole = "file://"@ + uri;
    assert("file://"@ =~= whole.take(7));
    assert("file://"@.is_prefix_of(whole));
    if is_file_uri(uri) {
        assert(uri =~= "file://"@ + uri.skip(7));
    }
}

/// The texts of two rows that are there follow each other.
pub proof fn law_present_texts_follow_each_other(
    first: Seq<Option<Seq<char>>>,
    second: Seq<Option<Seq<char>>>,
    text: Seq<char>,
)
    ensures
        present(Seq::empty()) == Seq::<Seq<char>>::empty(),
        present(seq![Some(text)]) == seq![text],
        present(seq![None]) == Seq::<Seq<char>>::empty(),
        present(first + second) == present(first) + present(second),
    decreases second.len(),
{
    reveal_with_fuel(present, 2);
    assert(seq![Some(text)].drop_last() =~= Seq::empty());
    assert(seq![None::<Seq<char>>].drop_last() =~= Seq::empty());
    assert(present(seq![Some(text)]) =~= seq![text]);
    if second.len() == 0 {
        assert(first + second =~= first);
    } else {
        assert((first + second).drop_last() =~= first + second.drop_last());
        law_present_texts_follow_each_other(first, second.drop_last(), text);
    }
    assert(present(first + second) =~= present(first) + present(second));
}

/// Each path of a row has its own URI.
pub proof fn law_each_path_has_its_uri(
    paths: Seq<FilePathView>,
    uris: Seq<Option<Seq<char>>>,
    path: FilePathView,
    uri: Option<Seq<char>>,
)
    ensures
        give_uris(Seq::empty(), Seq::empty()),
        give_uris(paths, uris) ==> paths.len() == uris.len(),
        give_uris(paths.push(path), uris.push(uri)) <==> give_uris(paths, uris) && gives_uri(
            path,
            uri,
        ),
{
    let more = paths.push(path);
    let given = uris.push(uri);
    if give_uris(more, given) {
        assert(gives_uri(more[paths.len() as int], given[paths.len() as int]));
        assert forall|i: int| 0 <= i < paths.len() implies gives_uri(
            #[trigger] paths[i],
            uris[i],
        ) by {
            assert(gives_uri(more[i], given[i]));
        }
    }
}

/// Among assignment targets a name is found at the first target that is this name. A name inside
/// a target does not count.
pub proof fn law_first_target_of_a_name_counts(
    target: ExpressionView,
    rest: Seq<ExpressionView>,
    name: Seq<char>,
)
    ensures
        name_among_targets(Seq::empty(), name) is None,
        ({
            let found = name_among_targets(seq![target] + rest, name);
            match target {
                ExpressionView::Name { id, span } => {
                    &&& id == name ==> found == Some(span)
                    &&& id != name ==> found == name_among_targets(rest, name)
                },
                _ => found == name_among_targets(rest, name),
            }
        }),
{
    assert((seq![target] + rest).first() == target);
    assert((seq![target] + rest).drop_first() =~= rest);
}

/// A module defines a name where its first function, class or assignment of that name does. An
/// import, another statement or an expression defines nothing.
pub proof fn law_first_definition_of_a_name_counts(
    text: Seq<char>,
    rest: Seq<NodeView>,
    name: Seq<char>,
    defined: Seq<char>,
    span: Span,
    params: Seq<ParamView>,
    return_type: Option<ExpressionView>,
    nodes: Seq<NodeView>,
)
    ensures
        top_level_name(text, Seq::empty(), name) is None,
        ({
            let function = NodeView::Statement(
                StatementView::FunctionDef { name: defined, span, params, return_type, nodes },
            );
            let class = NodeView::Statement(StatementView::ClassDef { name: defined, span, nodes });
            let beyond = top_level_name(text, rest, name);
            &&& defined == name ==> top_level_name(text, seq![function] + rest, name)
                == defined_name(text, span, name)
            &&& defined == name ==> top_level_name(text, seq![class] + rest, name) == defined_name(
                text,
                span,
                name,
            )
            &&& defined != name ==> top_level_name(text, seq![function] + rest, name) == beyond
            &&& defined != name ==> top_level_name(text, seq![class] + rest, name) == beyond
        }),
{
    let function = NodeView::Statement(
        StatementView::FunctionDef { name: defined, span, params, return_type, nodes },
    );
    let class = NodeView::Statement(StatementView::ClassDef { name: defined, span, nodes });
    assert((seq![function] + rest).first() == function);
    assert((seq![function] + rest).drop_first() =~= rest);
    assert((seq![class] + rest).first() == class);
    assert((seq![class] + rest).drop_first() =~= rest);
}

/// An assignment defines its targets, and what defines nothing is passed over.
pub proof fn law_assignment_defines_its_targets(
    text: Seq<char>,
    rest: Seq<NodeView>,
    name: Seq<char>,
    targets: Seq<ExpressionView>,
    value: ExpressionView,
    names: Seq<ImportedNameView>,
    module: Option<Seq<char>>,
    level: usize,
    nodes: Seq<NodeView>,
)
    ensures
        ({
            let assign = NodeView::Statement(StatementView::Assign { targets, value });
            let import = NodeView::Statement(StatementView::Import { names });
            let from = NodeView::Statement(StatementView::ImportFrom { module, level, names });
            let other = NodeView::Statement(StatementView::Other { nodes });
            let expression = NodeView::Expression(value);
            let beyond = top_level_name(text, rest, name);
            &&& name_among_targets(targets, name) is Some ==> top_level_name(
                text,
                seq![assign] + rest,
                name,
            ) == name_among_targets(targets, name)
            &&& name_among_targets(targets, name) is None ==> top_level_name(
                text,
                seq![assign] + rest,
                name,
            ) == beyond
            &&& top_level_name(text, seq![import] + rest, name) == beyond
            &&& top_level_name(text, seq![from] + rest, name) == beyond
            &&& top_level_name(text, seq![other] + rest, name) == beyond
            &&& top_level_name(text, seq![expression] + rest, name) == beyond
        }),
{
    let assign = NodeView::Statement(StatementView::Assign { targets, value });
    let import = NodeView::Statement(StatementView::Import { names });
    let from = NodeView::Statement(StatementView::ImportFrom { module, level, names });
    let other = NodeView::Statement(StatementView::Other { nodes });
    let expression = NodeView::Expression(value);
    assert((seq![assign] + rest).first() == assign);
    assert((seq![assign] + rest).drop_first() =~= rest);
    assert((seq![import] + rest).first() == import);
    assert((seq![import] + rest).drop_first() =~= rest);
    assert((seq![from] + rest).first() == from);
    assert((seq![from] + rest).drop_first() =~= rest);
    assert((seq![other] + rest).first() == other);
    assert((seq![other] + rest).drop_first() =~= rest);
    assert((seq![expression] + rest).first() == expression);
    assert((seq![expression] + rest).drop_first() =~= rest);
}

/// The import of a module leads to its start. The import of a name leads to where the module
/// defines it, to the start of the module if it does not, and nowhere without a module.
pub proof fn law_import_leads_to_the_name(uri: Seq<char>, name: Seq<char>, source: SourceView)
    ensures
        ({
            let whole = import_location_of(uri, None, Some(source));
            let named = import_location_of(uri, Some(name), Some(source));
            &&& whole is Some && whole->0.uri == uri && whole->0.range == document_start()
            &&& import_location_of(uri, None, None) == whole
            &&& import_location_of(uri, Some(name), None) is None
            &&& named is Some && named->0.uri == uri
            &&& match top_level_name(source.text, source.module, name) {
                Some(span) => named->0.range == range_of(source.text, span),
                None => named->0.range == document_start(),
            }
        }),
        document_start().start.line == 0 && document_start().start.character == 0,
        document_start().end == document_start().start,
{
}

/// The search for an import begins with the files that it can mean, and ends at once for a
/// document without a path.
pub proof fn law_search_begins_with_the_candidates(
    path: FilePathView,
    import: ImportView,
    candidates: Vec<FilePath>,
    uri: String,
    file: FilePath,
    location: Option<Location>,
)
    ensures
        is_first_step(Some(path), import, ImportStep::Probe(candidates)) <==> paths_view(
            candidates@,
        ) == import_candidates(path, import.module, import.level),
        !is_first_step(Some(path), import, ImportStep::Read { uri, path: file }),
        !is_first_step(Some(path), import, ImportStep::Done(location)),
        !is_first_step(None, import, ImportStep::Probe(candidates)),
        !is_first_step(None, import, ImportStep::Read { uri, path: file }),
        is_first_step(None, import, ImportStep::Done(location)) <==> location is None,
        leads_nowhere(ImportStep::Done(location)) <==> location is None,
        !leads_nowhere(ImportStep::Probe(candidates)),
        !leads_nowhere(ImportStep::Read { uri, path: file }),
{
}

/// A file is read if a name is imported out of it, it is not open and it has a path. Otherwise
/// the search ends where the import leads.
pub proof fn law_closed_file_is_read_for_a_name(
    files: Documents,
    uri: Seq<char>,
    name: Option<Seq<char>>,
    candidates: Vec<FilePath>,
    read: String,
    file: FilePath,
    location: Option<Location>,
)
    ensures
        !is_step_into(files, uri, name, ImportStep::Probe(candidates)),
        is_step_into(files, uri, name, ImportStep::Read { uri: read, path: file }) <==> read@
            == uri && name is Some && !files.contains_key(uri) && gives_path(uri, Some(file@)),
        is_step_into(files, uri, name, ImportStep::Done(location)) <==> optional_location(location)
            == import_location_of(uri, name, source_in(files, uri, None)) && (name is None
            || files.contains_key(uri) || gives_path(uri, None)),
{
}

/// The search goes on with the URI of the file that was found, which is of the scheme `file`. It
/// leads nowhere if no file was found or if the file has no URI.
pub proof fn law_search_goes_on_with_the_file(
    files: Documents,
    path: FilePathView,
    uri: Seq<char>,
    name: Option<Seq<char>>,
    step: ImportStep,
)
    ensures
        is_step_to(files, Some(uri), name, step) <==> is_file_uri(uri) && is_step_into(
            files,
            uri,
            name,
            step,
        ),
        is_step_to(files, None, name, step) <==> leads_nowhere(step),
        is_step_from(files, None, name, step) <==> leads_nowhere(step),
        is_step_from(files, Some(path), name, step) <==> {
            ||| gives_uri(path, None) && leads_nowhere(step)
            ||| exists|given: Seq<char>| #[trigger]
                gives_uri(path, Some(given)) && is_file_uri(given) && is_step_into(
                    files,
                    given,
                    name,
                    step,
                )
        },
{
    let found = Some(path);
    if is_step_from(files, found, name, step) {
        let given = choose|given: Option<Seq<char>>| #[trigger]
            gives_uri(path, given) && is_step_to(files, given, name, step);
        assert(gives_uri(path, given) && is_step_to(files, given, name, step));
        match given {
            Some(text) => {
                assert(gives_uri(path, Some(text)) && is_file_uri(text));
                assert(is_step_into(files, text, name, step));
            },
            None => {
                assert(gives_uri(path, None) && leads_nowhere(step));
            },
        }
    }
    let none: Option<Seq<char>> = None;
    if gives_uri(path, none) && leads_nowhere(step) {
        assert(gives_uri(found->0, none) && is_step_to(files, none, name, step));
    }
    if exists|given: Seq<char>| #[trigger]
        gives_uri(path, Some(given)) && is_file_uri(given) && is_step_into(
            files,
            given,
            name,
            step,
        ) {
        let given = choose|given: Seq<char>| #[trigger]
            gives_uri(path, Some(given)) && is_file_uri(given) && is_step_into(
                files,
                given,
                name,
                step,
            );
        assert(gives_uri(found->0, Some(given)) && is_step_to(files, Some(given), name, step));
    }
}

} // verus!
