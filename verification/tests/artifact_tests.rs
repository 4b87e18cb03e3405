use amargo::artifact::{extension, file_name, select_artifacts, Artifact, ScanEntry};

fn entry(path: &str, is_file: bool, modified: u64) -> ScanEntry {
    ScanEntry { path: path.to_string(), is_file, modified }
}

#[test]
fn file_name_strips_directories() {
    assert_eq!(file_name("src/sub/a.c"), "a.c".to_string());
    assert_eq!(file_name("a.c"), "a.c".to_string());
    assert_eq!(file_name("src\\win\\b.h"), "b.h".to_string());
    assert_eq!(file_name("dir/"), "".to_string());
}

#[test]
fn extension_after_last_dot() {
    assert_eq!(extension("a.c"), Some("c".to_string()));
    assert_eq!(extension("src/a.b.cpp"), Some("cpp".to_string()));
    assert_eq!(extension("noext"), None);
    assert_eq!(extension(".hidden"), None);
    assert_eq!(extension("src/archive.tar.gz"), Some("gz".to_string()));
}

#[test]
fn selects_files_with_matching_extension() {
    let entries = vec![
        entry("src", false, 1),
        entry("src/a.c", true, 10),
        entry("src/b.txt", true, 11),
        entry("src/sub", false, 2),
        entry("src/sub/c.cpp", true, 12),
        entry("src/sub/d.cxx", true, 13),
        entry("src/nodot", true, 14),
    ];
    let exts = vec!["c".to_string(), "cpp".to_string(), "cxx".to_string()];
    let got = select_artifacts(&entries, &exts);
    assert_eq!(
        got,
        vec![
            Artifact { path: "src/a.c".to_string(), modified: 10 },
            Artifact { path: "src/sub/c.cpp".to_string(), modified: 12 },
            Artifact { path: "src/sub/d.cxx".to_string(), modified: 13 },
        ]
    );
}

#[test]
fn skips_directories_even_with_extension() {
    let entries = vec![entry("weird.c", false, 5), entry("real.c", true, 6)];
    let exts = vec!["c".to_string()];
    let got = select_artifacts(&entries, &exts);
    assert_eq!(got, vec![Artifact { path: "real.c".to_string(), modified: 6 }]);
}

#[test]
fn selects_objects_by_extension() {
    let entries = vec![
        entry("target/debug/a.o", true, 1),
        entry("target/debug/b.obj", true, 2),
        entry("target/debug/prog", true, 3),
    ];
    let exts = vec!["o".to_string(), "obj".to_string()];
    let got = select_artifacts(&entries, &exts);
    assert_eq!(got.len(), 2);
    assert_eq!(got[0].path, "target/debug/a.o".to_string());
    assert_eq!(got[1].path, "target/debug/b.obj".to_string());
}
