use python_ls::modules::{
    is_python_file, module_candidates, resolve_module_path, split_dotted, workspace_python_uris,
    FilePath,
};

fn path(text: &str) -> FilePath {
    let names = text.split('/').filter(|name| !name.is_empty());
    FilePath { root: String::from("/"), names: names.map(|name| name.as_bytes().to_vec()).collect() }
}

fn paths(texts: &[&str]) -> Vec<FilePath> {
    texts.iter().map(|text| path(text)).collect()
}

fn strings(texts: &[&str]) -> Vec<String> {
    texts.iter().map(|text| String::from(*text)).collect()
}

#[test]
fn dotted_names_are_split() {
    assert_eq!(split_dotted("pkg.sub.mod"), strings(&["pkg", "sub", "mod"]));
    assert_eq!(split_dotted("mod"), strings(&["mod"]));
    assert_eq!(split_dotted(""), strings(&[""]));
    assert_eq!(split_dotted(".a."), strings(&["", "a", ""]));
}

#[test]
fn absolute_import_is_looked_for_upwards() {
    let candidates = module_candidates(&path("/work/app/main.py"), &Some(String::from("pkg.mod")), 0);
    assert_eq!(
        candidates,
        paths(&[
            "/work/app/pkg/mod.py",
            "/work/app/pkg/mod/__init__.py",
            "/work/pkg/mod.py",
            "/work/pkg/mod/__init__.py",
            "/pkg/mod.py",
            "/pkg/mod/__init__.py",
        ])
    );
}

#[test]
fn one_dot_means_the_own_directory() {
    let file = path("/work/app/main.py");
    assert_eq!(
        module_candidates(&file, &Some(String::from("mod")), 1),
        paths(&["/work/app/mod.py", "/work/app/mod/__init__.py"])
    );
    assert_eq!(module_candidates(&file, &None, 1), paths(&["/work/app/__init__.py"]));
}

#[test]
fn more_dots_lead_upwards_as_far_as_the_root() {
    let file = path("/work/app/main.py");
    assert_eq!(
        module_candidates(&file, &Some(String::from("mod")), 2),
        paths(&["/work/mod.py", "/work/mod/__init__.py"])
    );
    assert_eq!(module_candidates(&file, &None, 3), paths(&["/__init__.py"]));
    assert_eq!(module_candidates(&file, &None, 4), paths(&[]));
    assert_eq!(module_candidates(&file, &None, usize::MAX), paths(&[]));
}

#[test]
fn import_without_module_and_dots_is_looked_for_upwards() {
    assert_eq!(
        module_candidates(&path("/a/b.py"), &None, 0),
        paths(&["/a/__init__.py", "/__init__.py"])
    );
}

#[test]
fn root_has_no_candidates() {
    assert_eq!(module_candidates(&path("/"), &Some(String::from("mod")), 0), paths(&[]));
    assert_eq!(module_candidates(&path("/"), &None, 1), paths(&[]));
}

#[test]
fn first_file_is_picked() {
    let candidates = || paths(&["/a.py", "/b.py", "/c.py"]);
    assert_eq!(resolve_module_path(candidates(), &vec![false, true, true]), Some(path("/b.py")));
    assert_eq!(resolve_module_path(candidates(), &vec![true, true, true]), Some(path("/a.py")));
    assert_eq!(resolve_module_path(candidates(), &vec![false, false, false]), None);
    assert_eq!(resolve_module_path(paths(&[]), &vec![]), None);
}

#[test]
fn python_files_end_in_py() {
    assert!(is_python_file("a.py"));
    assert!(is_python_file("__init__.py"));
    assert!(is_python_file("a.b.py"));
    assert!(is_python_file("..py"));
    assert!(!is_python_file(".py"));
    assert!(!is_python_file("py"));
    assert!(!is_python_file("a.pyc"));
    assert!(!is_python_file("a.PY"));
    assert!(!is_python_file("a.py "));
    assert!(!is_python_file(""));
}

#[test]
fn uris_are_listed_once() {
    let open = strings(&["file:///b.py", "file:///a.py"]);
    let found = strings(&["file:///a.py", "file:///c.py", "file:///c.py"]);
    assert_eq!(
        workspace_python_uris(open, found),
        strings(&["file:///b.py", "file:///a.py", "file:///c.py"])
    );
    assert_eq!(workspace_python_uris(vec![], vec![]), strings(&[]));
}

#[test]
fn empty_parts_are_left_out() {
    let file = path("/p/main.py");
    let candidates = |name: &str| module_candidates(&file, &Some(String::from(name)), 1);
    assert_eq!(candidates(""), paths(&["/p.py", "/p/__init__.py"]));
    assert_eq!(candidates("x."), paths(&["/p/x.py", "/p/x/__init__.py"]));
    assert_eq!(candidates(".x..y"), paths(&["/p/x/y.py", "/p/x/y/__init__.py"]));
}

#[test]
fn extension_of_the_directory_is_replaced() {
    let candidates = |file: &str| module_candidates(&path(file), &Some(String::new()), 1);
    assert_eq!(candidates("/my.dir/main.py"), paths(&["/my.py", "/my.dir/__init__.py"]));
    assert_eq!(candidates("/.dir/main.py"), paths(&["/.dir.py", "/.dir/__init__.py"]));
    assert_eq!(candidates("/a/../main.py"), paths(&["/a/..", "/a/../__init__.py"]));
    assert_eq!(candidates("/main.py"), paths(&["/", "/__init__.py"]));
}

#[test]
fn extension_is_set_as_the_standard_library_sets_it() {
    for name in ["mod", "my.dir", ".dir", "a.", "...", "a.b.c"] {
        let file = path(&format!("/{}/main.py", name));
        let expected = std::path::Path::new("/").join(name).with_extension("py");
        let first = module_candidates(&file, &Some(String::new()), 1).swap_remove(0);
        let changed = String::from_utf8(first.names[0].clone()).unwrap();
        assert_eq!(std::path::Path::new("/").join(changed), expected);
    }
}

#[test]
fn names_that_are_no_texts_are_kept() {
    let odd = FilePath { root: String::from("/"), names: vec![vec![0xff], b"main.py".to_vec()] };
    let candidates = module_candidates(&odd, &Some(String::from("\u{e9}t\u{e9}.mod")), 1);
    let ete = "\u{e9}t\u{e9}".as_bytes().to_vec();
    assert_eq!(candidates[0].names, vec![vec![0xff], ete.clone(), b"mod.py".to_vec()]);
    assert_eq!(
        candidates[1].names,
        vec![vec![0xff], ete, b"mod".to_vec(), b"__init__.py".to_vec()]
    );
}
