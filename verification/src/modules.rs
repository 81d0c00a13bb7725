use crate::binding::optional_text;
use std::path::PathBuf;
use tower_lsp::lsp_types::Url;
use vstd::hash_map::StringHashMap;
use vstd::prelude::*;
use vstd::slice::slice_to_vec;
use vstd::utf8::encode_utf8;

verus! {

/// An absolute path: the root of the file system, and the names from there on. The names are
/// bytes, because a file system can hold names that are no texts; a text stands there in UTF-8.
#[derive(Debug, PartialEq, Eq)]
pub struct FilePath {
    pub root: String,
    pub names: Vec<Vec<u8>>,
}

/// What a [`FilePath`] says.
pub ghost struct FilePathView {
    pub root: Seq<char>,
    pub names: Seq<Seq<u8>>,
}

/// What each of a row of texts says.
pub open spec fn texts(row: Seq<String>) -> Seq<Seq<char>> {
    row.map_values(|text: String| text@)
}

/// The bytes of each of a row of names.
pub open spec fn name_bytes(row: Seq<Vec<u8>>) -> Seq<Seq<u8>> {
    row.map_values(|name: Vec<u8>| name@)
}

impl View for FilePath {
    type V = FilePathView;

    open spec fn view(&self) -> FilePathView {
        FilePathView { root: self.root@, names: name_bytes(self.names@) }
    }
}

/// What each of a row of paths says.
pub open spec fn paths_view(paths: Seq<FilePath>) -> Seq<FilePathView> {
    paths.map_values(|path: FilePath| path@)
}

/// What an optional path says.
pub open spec fn optional_path(path: Option<FilePath>) -> Option<FilePathView> {
    match path {
        Some(path) => Some(path@),
        None => None,
    }
}

/// The parts of a dotted name.
pub open spec fn dotted_parts(name: Seq<char>) -> Seq<Seq<char>>
    decreases name.len(),
{
    if name.len() == 0 {
        seq![Seq::empty()]
    } else {
        let earlier = dotted_parts(name.drop_last());
        if name.last() == '.' {
            earlier.push(Seq::empty())
        } else {
            earlier.update(earlier.len() - 1, earlier.last().push(name.last()))
        }
    }
}

/// The names that the parts of a dotted name stand for: each part in UTF-8, and an empty part for
/// none.
pub open spec fn part_names(parts: Seq<Seq<char>>) -> Seq<Seq<u8>>
    decreases parts.len(),
{
    if parts.len() == 0 {
        Seq::empty()
    } else if parts.last().len() == 0 {
        part_names(parts.drop_last())
    } else {
        part_names(parts.drop_last()).push(encode_utf8(parts.last()))
    }
}

/// A dot, as a byte of a name.
pub const DOT: u8 = 0x2e;

/// The index of the last dot of a name.
pub open spec fn last_dot(name: Seq<u8>) -> Option<int>
    decreases name.len(),
{
    if name.len() == 0 {
        None
    } else if name.last() == DOT {
        Some(name.len() - 1)
    } else {
        last_dot(name.drop_last())
    }
}

/// A name without its extension. A dot in front of a name begins no extension.
pub open spec fn stem(name: Seq<u8>) -> Seq<u8> {
    match last_dot(name) {
        Some(i) if i > 0 => name.take(i),
        _ => name,
    }
}

/// A path with the extension `py`, in place of another one if there is one. The root and a step
/// upwards can have none.
pub open spec fn with_py(names: Seq<Seq<u8>>) -> Seq<Seq<u8>> {
    if names.len() == 0 || names.last() == encode_utf8(".."@) {
        names
    } else {
        names.update(names.len() - 1, stem(names.last()) + encode_utf8(".py"@))
    }
}

/// The files that can hold a module below a directory, the more likely one first: for
/// `pkg.mod` they are `pkg/mod.py` and `pkg/mod/__init__.py`, and for the directory itself
/// `__init__.py`.
pub open spec fn module_files(base: FilePathView, module: Option<Seq<char>>) -> Seq<FilePathView> {
    let init = encode_utf8("__init__.py"@);
    match module {
        Some(name) => {
            let names = base.names + part_names(dotted_parts(name));
            seq![
                FilePathView { root: base.root, names: with_py(names) },
                FilePathView { root: base.root, names: names.push(init) },
            ]
        },
        None => seq![FilePathView { root: base.root, names: base.names.push(init) }],
    }
}

/// The directory that is reached from `directory` by `steps` steps upwards.
pub open spec fn ancestor(directory: FilePathView, steps: int) -> FilePathView {
    FilePathView {
        root: directory.root,
        names: directory.names.take(directory.names.len() - steps),
    }
}

/// The files that can hold a module below a directory or one above it, the nearest first.
pub open spec fn upward_files(
    directory: FilePathView,
    module: Option<Seq<char>>,
    steps: int,
) -> Seq<FilePathView>
    decreases directory.names.len() + 1 - steps,
{
    if steps < 0 || steps > directory.names.len() {
        Seq::empty()
    } else {
        module_files(ancestor(directory, steps), module) + upward_files(
            directory,
            module,
            steps + 1,
        )
    }
}

/// The files that an import in the file at `path` can mean, in the order in which they are
/// tried. One leading dot means the directory of the file and each further one the directory
/// above; without a dot, that directory and all those above it are tried. There are none where
/// the dots lead beyond the root, or where the path is the root itself.
pub open spec fn import_candidates(
    path: FilePathView,
    module: Option<Seq<char>>,
    level: usize,
) -> Seq<FilePathView> {
    if path.names.len() == 0 {
        Seq::empty()
    } else {
        let directory = ancestor(path, 1);
        if level == 0 {
            upward_files(directory, module, 0)
        } else if level - 1 <= directory.names.len() {
            module_files(ancestor(directory, level - 1), module)
        } else {
            Seq::empty()
        }
    }
}

/// The first candidate that is a file.
pub open spec fn first_file(candidates: Seq<FilePathView>, is_file: Seq<bool>) -> Option<
    FilePathView,
>
    decreases candidates.len(),
{
    if candidates.len() == 0 {
        None
    } else if is_file.first() {
        Some(candidates.first())
    } else {
        first_file(candidates.drop_first(), is_file.drop_first())
    }
}

/// The candidate that is picked is a file, and none of those before it is.
pub proof fn law_first_file_comes_first(candidates: Seq<FilePathView>, is_file: Seq<bool>)
    requires
        candidates.len() == is_file.len(),
    ensures
        match first_file(candidates, is_file) {
            Some(path) => exists|i: int|
                0 <= i < candidates.len() && #[trigger] candidates[i] == path && is_file[i] && (
                forall|j: int| 0 <= j < i ==> !is_file[j]),
            None => forall|j: int| 0 <= j < is_file.len() ==> !is_file[j],
        },
    decreases candidates.len(),
{
    if candidates.len() > 0 {
        if is_file.first() {
            assert(candidates[0] == candidates.first());
        } else {
            let rest = candidates.drop_first();
            let flags = is_file.drop_first();
            law_first_file_comes_first(rest, flags);
            assert forall|j: int| 1 <= j < is_file.len() implies is_file[j] == flags[j - 1] by {}
            if let Some(path) = first_file(rest, flags) {
                let i = choose|i: int|
                    0 <= i < rest.len() && #[trigger] rest[i] == path && flags[i] && (forall|j: int|
                        0 <= j < i ==> !flags[j]);
                assert(candidates[i + 1] == path);
            }
        }
    }
}

/// Whether a file holds Python source, by its name: it ends in `.py`, with something before.
pub open spec fn is_python_name(name: Seq<char>) -> bool {
    name.len() > 3 && name.skip(name.len() - 3) == ".py"@
}

/// The items of a row without those that stood in it before.
pub open spec fn distinct(row: Seq<Seq<char>>) -> Seq<Seq<char>>
    decreases row.len(),
{
    if row.len() == 0 {
        Seq::empty()
    } else if row.drop_last().contains(row.last()) {
        distinct(row.drop_last())
    } else {
        distinct(row.drop_last()).push(row.last())
    }
}

/// Nothing stands twice among distinct items, and nothing of the row is missing.
pub proof fn law_distinct_items(row: Seq<Seq<char>>)
    ensures
        distinct(row).no_duplicates(),
        forall|item: Seq<char>| distinct(row).contains(item) <==> row.contains(item),
    decreases row.len(),
{
    if row.len() > 0 {
        let earlier = row.drop_last();
        law_distinct_items(earlier);
        assert forall|item: Seq<char>| distinct(row).contains(item) <==> row.contains(item) by {
            if row.contains(item) {
                let k = choose|k: int| 0 <= k < row.len() && row[k] == item;
                if k < earlier.len() {
                    assert(earlier[k] == item);
                }
            }
            if earlier.contains(item) {
                let k = choose|k: int| 0 <= k < earlier.len() && earlier[k] == item;
                assert(row[k] == item);
                let j = choose|j: int|
                    0 <= j < distinct(earlier).len() && distinct(earlier)[j] == item;
                assert(distinct(row)[j] == item);
            }
            if item == row.last() {
                assert(row[row.len() - 1] == item);
                if !earlier.contains(item) {
                    assert(distinct(row)[distinct(row).len() - 1] == item);
                }
            }
            if distinct(row).contains(item) {
                let j = choose|j: int| 0 <= j < distinct(row).len() && distinct(row)[j] == item;
                if j < distinct(earlier).len() {
                    assert(distinct(earlier)[j] == item);
                    assert(distinct(earlier).contains(item));
                }
            }
        }
        assert(distinct(row).no_duplicates()) by {
            if !earlier.contains(row.last()) {
                assert(!distinct(earlier).contains(row.last()));
            }
        }
    }
}

/// Copies the first `n` of a row of names.
fn copy_first(row: &Vec<Vec<u8>>, n: usize) -> (copy: Vec<Vec<u8>>)
    requires
        n <= row@.len(),
    ensures
        name_bytes(copy@) == name_bytes(row@).take(n as int),
{
    let mut copy: Vec<Vec<u8>> = Vec::new();
    let mut i: usize = 0;
    assert(name_bytes(copy@) =~= name_bytes(row@).take(0));
    while i < n
        invariant
            i <= n <= row@.len(),
            name_bytes(copy@) == name_bytes(row@).take(i as int),
        decreases n - i,
    {
        push_name(&mut copy, row[i].as_slice());
        i = i + 1;
        assert(name_bytes(copy@) =~= name_bytes(row@).take(i as int));
    }
    copy
}

/// Appends a copy of a name.
fn push_name(row: &mut Vec<Vec<u8>>, name: &[u8])
    ensures
        name_bytes(final(row)@) == name_bytes(old(row)@).push(name@),
{
    row.push(slice_to_vec(name));
    assert(name_bytes(row@) =~= name_bytes(old(row)@).push(name@));
}

/// Appends copies of a row of texts.
fn append_texts(row: &mut Vec<String>, more: &Vec<String>)
    ensures
        texts(final(row)@) == texts(old(row)@) + texts(more@),
{
    let mut i: usize = 0;
    assert(texts(row@) =~= texts(old(row)@) + texts(more@).take(0));
    while i < more.len()
        invariant
            i <= more@.len(),
            texts(row@) == texts(old(row)@) + texts(more@).take(i as int),
        decreases more.len() - i,
    {
        let ghost before = row@;
        row.push(more[i].clone());
        assert(texts(row@) =~= texts(before).push(more@[i as int]@));
        i = i + 1;
        assert(texts(row@) =~= texts(old(row)@) + texts(more@).take(i as int));
    }
    assert(texts(more@).take(more@.len() as int) =~= texts(more@));
}

/// Appends the names that the parts of a dotted name stand for.
fn append_part_names(row: &mut Vec<Vec<u8>>, parts: &Vec<String>)
    ensures
        name_bytes(final(row)@) == name_bytes(old(row)@) + part_names(texts(parts@)),
{
    let ghost all = texts(parts@);
    let mut i: usize = 0;
    assert(all.take(0) =~= Seq::empty());
    assert(name_bytes(row@) =~= name_bytes(old(row)@) + part_names(all.take(0)));
    while i < parts.len()
        invariant
            i <= parts@.len(),
            all == texts(parts@),
            name_bytes(row@) == name_bytes(old(row)@) + part_names(all.take(i as int)),
        decreases parts.len() - i,
    {
        assert(all.take(i + 1).drop_last() =~= all.take(i as int));
        if parts[i].as_str().unicode_len() > 0 {
            push_name(row, parts[i].as_str().as_bytes());
        }
        i = i + 1;
        assert(name_bytes(row@) =~= name_bytes(old(row)@) + part_names(all.take(i as int)));
    }
    assert(all.take(all.len() as int) =~= all);
}

/// Cuts the extension off a name.
fn cut_extension(name: &mut Vec<u8>)
    ensures
        final(name)@ == stem(old(name)@),
{
    let mut i: usize = name.len();
    assert(name@.take(i as int) =~= name@);
    while i > 0
        invariant
            i <= name@.len(),
            name@ == old(name)@,
            last_dot(name@) == last_dot(name@.take(i as int)),
        decreases i,
    {
        assert(name@.take(i as int).drop_last() =~= name@.take(i - 1));
        i = i - 1;
        if name[i] == DOT {
            if i > 0 {
                name.truncate(i);
                assert(name@ =~= old(name)@.take(i as int));
            }
            return;
        }
    }
}

/// Whether two rows of bytes are the same.
fn same_bytes(a: &[u8], b: &[u8]) -> (same: bool)
    ensures
        same == (a@ == b@),
{
    if a.len() != b.len() {
        return false;
    }
    let mut i: usize = 0;
    while i < a.len()
        invariant
            i <= a@.len(),
            a@.len() == b@.len(),
            forall|j: int| 0 <= j < i ==> a@[j] == b@[j],
        decreases a.len() - i,
    {
        if a[i] != b[i] {
            return false;
        }
        i = i + 1;
    }
    assert(a@ =~= b@);
    true
}

/// Gives a path the extension `py`.
fn set_extension(names: &mut Vec<Vec<u8>>)
    ensures
        name_bytes(final(names)@) == with_py(name_bytes(old(names)@)),
{
    let ghost before = name_bytes(names@);
    match names.pop() {
        Some(name) => {
            let ghost rest = name_bytes(names@);
            assert(before =~= rest.push(name@));
            let mut file = name;
            if !same_bytes(file.as_slice(), "..".as_bytes()) {
                cut_extension(&mut file);
                let mut extension = slice_to_vec(".py".as_bytes());
                file.append(&mut extension);
            }
            names.push(file);
            assert(name_bytes(names@) =~= rest.push(file@));
            assert(name_bytes(names@) =~= with_py(before));
        },
        None => {},
    }
}

/// Splits a dotted name into its parts.
pub fn split_dotted(name: &str) -> (parts: Vec<String>)
    ensures
        texts(parts@) == dotted_parts(name@),
{
    let len: usize = name.unicode_len();
    let mut parts: Vec<String> = Vec::new();
    let mut start: usize = 0;
    let mut index: usize = 0;
    assert(name@.take(0) =~= Seq::empty());
    assert(texts(parts@).push(name@.subrange(0, 0)) =~= seq![Seq::<char>::empty()]);
    for ch in it: name.chars()
        invariant
            it.seq() == name@,
            index == it.index(),
            len == name@.len(),
            start <= index,
            dotted_parts(name@.take(index as int)) == texts(parts@).push(
                name@.subrange(start as int, index as int),
            ),
    {
        proof {
            assert(name@.take(index + 1).drop_last() =~= name@.take(index as int));
        }
        let ghost before = texts(parts@);
        let ghost part = name@.subrange(start as int, index as int);
        let ghost now = dotted_parts(name@.take(index + 1));
        if ch == '.' {
            parts.push(name.substring_char(start, index).to_owned());
            start = index + 1;
            proof {
                assert(texts(parts@) =~= before.push(part));
                assert(name@.subrange(start as int, index + 1) =~= Seq::empty());
                assert(now =~= texts(parts@).push(name@.subrange(start as int, index + 1)));
            }
        } else {
            proof {
                assert(name@.subrange(start as int, index + 1) =~= part.push(ch));
                assert(now =~= before.push(part.push(ch)));
            }
        }
        index = index + 1;
    }
    parts.push(name.substring_char(start, len).to_owned());
    proof {
        assert(name@.take(len as int) =~= name@);
        assert(texts(parts@) =~= dotted_parts(name@));
    }
    parts
}

/// Lists the files that can hold a module below the first `n` names of a path.
fn append_module_files(
    candidates: &mut Vec<FilePath>,
    path: &FilePath,
    n: usize,
    module: &Option<String>,
)
    requires
        n <= path.names@.len(),
    ensures
        paths_view(final(candidates)@) == paths_view(old(candidates)@) + module_files(
            FilePathView { root: path@.root, names: path@.names.take(n as int) },
            optional_text(*module),
        ),
{
    let ghost base = path@.names.take(n as int);
    match module {
        Some(module) => {
            let parts = split_dotted(module.as_str());
            let ghost names = base + part_names(dotted_parts(module@));
            let mut file = copy_first(&path.names, n);
            append_part_names(&mut file, &parts);
            let count: usize = file.len();
            let mut package = copy_first(&file, count);
            assert(name_bytes(file@).take(count as int) =~= names);
            set_extension(&mut file);
            push_name(&mut package, "__init__.py".as_bytes());
            candidates.push(FilePath { root: path.root.clone(), names: file });
            candidates.push(FilePath { root: path.root.clone(), names: package });
        },
        None => {
            let mut package = copy_first(&path.names, n);
            push_name(&mut package, "__init__.py".as_bytes());
            candidates.push(FilePath { root: path.root.clone(), names: package });
        },
    }
    assert(paths_view(candidates@) =~= paths_view(old(candidates)@) + module_files(
        FilePathView { root: path@.root, names: base },
        optional_text(*module),
    ));
}

/// Lists the files that an import in the file at `path` can mean, in the order in which they
/// are to be tried.
pub fn module_candidates(path: &FilePath, module: &Option<String>, level: usize) -> (candidates:
    Vec<FilePath>)
    ensures
        paths_view(candidates@) == import_candidates(
            path@,
            optional_text(*module),
            level,
        ),
{
    let ghost name = optional_text(*module);
    let mut candidates: Vec<FilePath> = Vec::new();
    assert(paths_view(candidates@) =~= Seq::empty());
    if path.names.len() == 0 {
        return candidates;
    }
    let depth: usize = path.names.len() - 1;
    let ghost directory = ancestor(path@, 1);
    if level > 0 {
        if level - 1 <= depth {
            let n: usize = depth - (level - 1);
            append_module_files(&mut candidates, path, n, module);
            proof {
                assert(directory.names.take(n as int) =~= path@.names.take(n as int));
                assert(paths_view(candidates@) =~= import_candidates(path@, name, level));
            }
        }
        return candidates;
    }
    let mut n: usize = depth;
    assert(paths_view(candidates@) + upward_files(directory, name, 0) =~= upward_files(
        directory,
        name,
        0,
    ));
    loop
        invariant_except_break
            paths_view(candidates@) + upward_files(directory, name, depth - n) == upward_files(
                directory,
                name,
                0,
            ),
        invariant
            n <= depth,
            depth == path.names@.len() - 1,
            directory == ancestor(path@, 1),
            name == optional_text(*module),
        ensures
            paths_view(candidates@) == upward_files(directory, name, 0),
        decreases n,
    {
        let ghost before = paths_view(candidates@);
        append_module_files(&mut candidates, path, n, module);
        proof {
            assert(directory.names.take(n as int) =~= path@.names.take(n as int));
            assert(paths_view(candidates@) + upward_files(directory, name, depth - n + 1)
                =~= before + upward_files(directory, name, depth - n));
        }
        if n == 0 {
            assert(paths_view(candidates@) =~= paths_view(candidates@) + upward_files(
                directory,
                name,
                depth + 1,
            ));
            break;
        }
        n = n - 1;
    }
    candidates
}

/// Picks the first candidate that is a file.
pub fn resolve_module_path(candidates: Vec<FilePath>, is_file: &Vec<bool>) -> (path: Option<
    FilePath,
>)
    requires
        candidates@.len() == is_file@.len(),
    ensures
        optional_path(path) == first_file(paths_view(candidates@), is_file@),
{
    let ghost all = paths_view(candidates@);
    let count: usize = is_file.len();
    let mut index: usize = 0;
    assert(all.skip(0) =~= all);
    assert(is_file@.skip(0) =~= is_file@);
    for candidate in it: candidates.into_iter()
        invariant
            it.seq() == candidates@,
            index == it.index(),
            candidates@.len() == is_file@.len() == count,
            all == paths_view(candidates@),
            first_file(all, is_file@) == first_file(
                all.skip(index as int),
                is_file@.skip(index as int),
            ),
    {
        proof {
            assert(all.skip(index as int).drop_first() =~= all.skip(index + 1));
            assert(is_file@.skip(index as int).drop_first() =~= is_file@.skip(index + 1));
        }
        if is_file[index] {
            return Some(candidate);
        }
        index = index + 1;
    }
    None
}

/// Whether a file holds Python source, by its name.
pub fn is_python_file(name: &str) -> (python: bool)
    ensures
        python == is_python_name(name@),
{
    let len: usize = name.unicode_len();
    proof {
        reveal_strlit(".py");
    }
    if len > 3 {
        let extension = name.substring_char(len - 3, len).to_owned();
        assert(name@.subrange(len - 3, len as int) =~= name@.skip(len - 3));
        extension == ".py".to_owned()
    } else {
        false
    }
}

/// Joins the URIs of the open documents and of the files that were found, each URI once.
pub fn workspace_python_uris(open: Vec<String>, found: Vec<String>) -> (uris: Vec<String>)
    ensures
        texts(uris@) == distinct(texts(open@) + texts(found@)),
{
    let mut all = open;
    append_texts(&mut all, &found);
    let ghost row = texts(all@);
    let mut uris: Vec<String> = Vec::new();
    let mut seen: StringHashMap<bool> = StringHashMap::new();
    let mut i: usize = 0;
    assert(row.take(0) =~= Seq::empty());
    assert(texts(uris@) =~= Seq::empty());
    while i < all.len()
        invariant
            i <= all@.len(),
            row == texts(all@),
            forall|uri: Seq<char>| #[trigger]
                seen@.contains_key(uri) <==> row.take(i as int).contains(uri),
            texts(uris@) == distinct(row.take(i as int)),
        decreases all.len() - i,
    {
        let ghost earlier = row.take(i as int);
        let ghost before = texts(uris@);
        let ghost known = seen@;
        assert(row.take(i + 1).drop_last() =~= earlier);
        assert(row.take(i + 1) =~= earlier.push(all@[i as int]@));
        if !seen.contains_key(all[i].as_str()) {
            uris.push(all[i].clone());
            assert(texts(uris@) =~= before.push(all@[i as int]@));
        }
        seen.insert(all[i].clone(), true);
        proof {
            let uri = all@[i as int]@;
            let now = row.take(i + 1);
            assert forall|other: Seq<char>| #[trigger]
                seen@.contains_key(other) <==> row.take(i + 1).contains(other) by {
                if other == uri {
                    assert(now[i as int] == uri);
                } else {
                    if earlier.contains(other) {
                        let k = choose|k: int| 0 <= k < earlier.len() && earlier[k] == other;
                        assert(now[k] == other);
                    }
                    if now.contains(other) {
                        let k = choose|k: int| 0 <= k < now.len() && now[k] == other;
                        assert(earlier[k] == other);
                    }
                }
            }
        }
        i = i + 1;
    }
    assert(row.take(row.len() as int) =~= row);
    uris
}

/// Whether a text is a URI of the scheme `file`.
pub open spec fn is_file_uri(uri: Seq<char>) -> bool {
    "file://"@.is_prefix_of(uri)
}

/// Whether `path` is what `Url::to_file_path` gives for the text of a URI on some platform. A
/// text that is no URI has no path.
pub uninterp spec fn gives_path(uri: Seq<char>, path: Option<FilePathView>) -> bool;

/// Whether `uri` is what `Url::from_file_path` gives for a path on some platform.
pub uninterp spec fn gives_uri(path: FilePathView, uri: Option<Seq<char>>) -> bool;

/// `Url::to_file_path`: the path of a document that lies in the file system. Which URIs have a
/// path, and which one, depends on the platform, so the claim is only that it is one that this
/// function gives for the URI.
#[verifier::external_body]
pub(crate) fn path_of_uri(uri: &str) -> (path: Option<FilePath>)
    ensures
        gives_path(uri@, optional_path(path)),
{
    let path = Url::parse(uri).ok()?.to_file_path().ok()?;
    let root = path.ancestors().last()?;
    let names = path.strip_prefix(root).ok()?.iter();
    let names = names.map(|name| name.as_encoded_bytes().to_vec()).collect();
    Some(FilePath { root: root.to_str()?.to_string(), names })
}

/// `Url::from_file_path`: the URI of a path, which is of the scheme `file`. Which paths have a
/// URI, and how it goes on, depends on the platform, so the claim is only that it is one that
/// this function gives for the path. `Url::to_file_path` turns a name that is no text into one
/// of the platform.
#[verifier::external_body]
pub(crate) fn uri_of_path(path: &FilePath) -> (uri: Option<String>)
    ensures
        gives_uri(path@, optional_text(uri)),
        uri is Some ==> is_file_uri(uri->0@),
{
    let native = |name: &Vec<u8>| {
        let escaped: String = name.iter().map(|byte| format!("%{:02X}", byte)).collect();
        let decoded = || Url::parse(&format!("file:///{}", escaped)).ok()?.to_file_path().ok();
        let text = std::str::from_utf8(name).map(PathBuf::from).ok();
        text.or_else(|| decoded()?.file_name().map(PathBuf::from))
    };
    let names = path.names.iter().map(native).collect::<Option<PathBuf>>()?;
    let whole = PathBuf::from(&path.root).join(names);
    Url::from_file_path(whole).ok().map(String::from)
}

/// The texts of a row that are there.
pub open spec fn present(row: Seq<Option<Seq<char>>>) -> Seq<Seq<char>>
    decreases row.len(),
{
    if row.len() == 0 {
        Seq::empty()
    } else {
        match row.last() {
            Some(text) => present(row.drop_last()).push(text),
            None => present(row.drop_last()),
        }
    }
}

/// Whether each of a row of paths is given the URI in the same place of the other row.
pub open spec fn give_uris(paths: Seq<FilePathView>, uris: Seq<Option<Seq<char>>>) -> bool {
    &&& paths.len() == uris.len()
    &&& forall|i: int| 0 <= i < paths.len() ==> gives_uri(#[trigger] paths[i], uris[i])
}

/// Gives the URIs of a row of files, without those whose paths have none.
pub fn uris_of_files(paths: &Vec<FilePath>) -> (uris: Vec<String>)
    ensures
        exists|given: Seq<Option<Seq<char>>>| #[trigger]
            give_uris(paths_view(paths@), given) && texts(uris@) == present(given),
{
    let ghost mut given: Seq<Option<Seq<char>>> = Seq::empty();
    let mut uris: Vec<String> = Vec::new();
    let mut i: usize = 0;
    assert(texts(uris@) =~= Seq::empty());
    while i < paths.len()
        invariant
            i <= paths@.len(),
            given.len() == i,
            forall|j: int| 0 <= j < i ==> gives_uri(#[trigger] paths@[j]@, given[j]),
            texts(uris@) == present(given),
        decreases paths.len() - i,
    {
        let ghost before = uris@;
        let ghost earlier = given;
        let uri = uri_of_path(&paths[i]);
        proof {
            given = given.push(optional_text(uri));
            assert(given.drop_last() =~= earlier);
        }
        if let Some(uri) = uri {
            uris.push(uri);
            assert(texts(uris@) =~= texts(before).push(uri@));
        }
        i = i + 1;
    }
    assert(give_uris(paths_view(paths@), given));
    uris
}

} // verus!
