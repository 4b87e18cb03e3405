use amargo::artifact::Artifact;
use amargo::error::Error;
use amargo::graph::{build_dep_graph, resolve};

fn art(path: &str, modified: u64) -> Artifact {
    Artifact { path: path.to_string(), modified }
}

fn dir_kw() -> String {
    format!("#inc{}", "lude")
}

fn header_exts() -> Vec<String> {
    vec!["h".to_string(), "hpp".to_string(), "hxx".to_string()]
}

#[test]
fn resolve_matches_by_file_name() {
    let headers = vec![art("inc/a.h", 1), art("inc/b.h", 2)];
    assert_eq!(resolve("b.h", &headers), Some(1));
    assert_eq!(resolve("a.h", &headers), Some(0));
    assert_eq!(resolve("c.h", &headers), None);
}

#[test]
fn resolve_first_header_wins_on_name_collision() {
    let headers = vec![art("first/same.h", 1), art("second/same.h", 2)];
    assert_eq!(resolve("same.h", &headers), Some(0));
}

#[test]
fn builds_edges_from_sources_and_headers() {
    let d = dir_kw();
    let sources = vec![art("src/a.c", 1), art("src/b.c", 2)];
    let headers = vec![art("inc/a.h", 3), art("inc/b.h", 4)];
    let source_texts = vec![format!("{d} \"a.h\"\n"), format!("{d} \"a.h\"\n{d} \"b.h\"\n")];
    let header_texts = vec![format!("{d} \"b.h\"\n"), String::new()];
    let g = build_dep_graph(&sources, &headers, &source_texts, &header_texts, &header_exts())
        .expect("graph should build");
    assert_eq!(g.source_deps, vec![vec![0], vec![0, 1]]);
    assert_eq!(g.header_deps, vec![vec![1], vec![]]);
}

#[test]
fn unresolved_header_is_a_hard_error() {
    let d = dir_kw();
    let sources = vec![art("src/a.c", 1)];
    let headers: Vec<Artifact> = Vec::new();
    let source_texts = vec![format!("{d} \"missing.h\"\n")];
    let header_texts: Vec<String> = Vec::new();
    let r = build_dep_graph(&sources, &headers, &source_texts, &header_texts, &header_exts());
    match r {
        Err(Error::MissingHeaders(path, names)) => {
            assert_eq!(path, "src/a.c".to_string());
            assert_eq!(names, vec!["missing.h".to_string()]);
        }
        other => panic!("expected MissingHeaders, got {:?}", other),
    }
}

#[test]
fn first_node_with_unresolved_names_is_reported() {
    let d = dir_kw();
    let sources = vec![art("src/ok.c", 1), art("src/bad.c", 2)];
    let headers = vec![art("inc/a.h", 3)];
    let source_texts = vec![format!("{d} \"a.h\"\n"), format!("{d} \"gone.h\"\n{d} \"also_gone.h\"\n")];
    let header_texts = vec![String::new()];
    let r = build_dep_graph(&sources, &headers, &source_texts, &header_texts, &header_exts());
    match r {
        Err(Error::MissingHeaders(path, names)) => {
            assert_eq!(path, "src/bad.c".to_string());
            assert_eq!(names, vec!["gone.h".to_string(), "also_gone.h".to_string()]);
        }
        other => panic!("expected MissingHeaders, got {:?}", other),
    }
}

#[test]
fn unresolved_name_in_header_text_is_reported() {
    let d = dir_kw();
    let sources = vec![art("src/a.c", 1)];
    let headers = vec![art("inc/a.h", 3)];
    let source_texts = vec![format!("{d} \"a.h\"\n")];
    let header_texts = vec![format!("{d} \"lost.h\"\n")];
    let r = build_dep_graph(&sources, &headers, &source_texts, &header_texts, &header_exts());
    match r {
        Err(Error::MissingHeaders(path, names)) => {
            assert_eq!(path, "inc/a.h".to_string());
            assert_eq!(names, vec!["lost.h".to_string()]);
        }
        other => panic!("expected MissingHeaders, got {:?}", other),
    }
}
