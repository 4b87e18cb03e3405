use amargo::artifact::Artifact;
use amargo::engine::stale_sources;

fn art(path: &str, modified: u64) -> Artifact {
    Artifact { path: path.to_string(), modified }
}

fn dir_kw() -> String {
    format!("#inc{}", "lude")
}

fn header_exts() -> Vec<String> {
    vec!["h".to_string(), "hpp".to_string(), "hxx".to_string()]
}

#[test]
fn first_build_treats_every_source_as_stale() {
    let sources = vec![art("src/a.c", 1), art("src/b.c", 2)];
    let headers: Vec<Artifact> = Vec::new();
    let texts = vec![String::new(), String::new()];
    let header_texts: Vec<String> = Vec::new();
    let stale = stale_sources(&sources, &headers, &texts, &header_texts, &header_exts(), None)
        .expect("planning should succeed");
    assert_eq!(stale, sources);
}

#[test]
fn untouched_sources_are_not_stale() {
    let d = dir_kw();
    let sources = vec![art("src/a.c", 10)];
    let headers = vec![art("inc/a.h", 11)];
    let texts = vec![format!("{d} \"a.h\"\n")];
    let header_texts = vec![String::new()];
    let stale = stale_sources(&sources, &headers, &texts, &header_texts, &header_exts(), Some(20))
        .expect("planning should succeed");
    assert!(stale.is_empty());
}

#[test]
fn touched_header_makes_quoting_source_stale() {
    // a.c quotes a.h; only a.h is touched (future timestamp), yet a.c must
    // be recompiled.
    let d = dir_kw();
    let sources = vec![art("src/a.c", 10)];
    let headers = vec![art("inc/a.h", 50)];
    let texts = vec![format!("{d} \"a.h\"\n")];
    let header_texts = vec![String::new()];
    let stale = stale_sources(&sources, &headers, &texts, &header_texts, &header_exts(), Some(20))
        .expect("planning should succeed");
    assert_eq!(stale.len(), 1);
    assert_eq!(stale[0].path, "src/a.c".to_string());
    assert_eq!(stale[0].modified, 50);
}

#[test]
fn touched_transitive_header_propagates() {
    // a.c quotes a.h, which quotes b.h; touching only b.h still makes a.c
    // stale.
    let d = dir_kw();
    let sources = vec![art("src/a.c", 10)];
    let headers = vec![art("inc/a.h", 10), art("inc/b.h", 99)];
    let texts = vec![format!("{d} \"a.h\"\n")];
    let header_texts = vec![format!("{d} \"b.h\"\n"), String::new()];
    let stale = stale_sources(&sources, &headers, &texts, &header_texts, &header_exts(), Some(20))
        .expect("planning should succeed");
    assert_eq!(stale.len(), 1);
    assert_eq!(stale[0].path, "src/a.c".to_string());
    assert_eq!(stale[0].modified, 99);
}

#[test]
fn untouched_unrelated_source_stays_fresh() {
    let d = dir_kw();
    let sources = vec![art("src/a.c", 10), art("src/other.c", 10)];
    let headers = vec![art("inc/a.h", 50), art("inc/other.h", 5)];
    let texts = vec![format!("{d} \"a.h\"\n"), format!("{d} \"other.h\"\n")];
    let header_texts = vec![String::new(), String::new()];
    let stale = stale_sources(&sources, &headers, &texts, &header_texts, &header_exts(), Some(20))
        .expect("planning should succeed");
    assert_eq!(stale.len(), 1);
    assert_eq!(stale[0].path, "src/a.c".to_string());
}

#[test]
fn header_cycle_terminates_with_defined_result() {
    // x.h quotes y.h and y.h quotes x.h; propagation must terminate and
    // produce the maximum over the cycle.
    let d = dir_kw();
    let sources = vec![art("src/a.c", 1)];
    let headers = vec![art("inc/x.h", 30), art("inc/y.h", 40)];
    let texts = vec![format!("{d} \"x.h\"\n")];
    let header_texts = vec![format!("{d} \"y.h\"\n"), format!("{d} \"x.h\"\n")];
    let stale = stale_sources(&sources, &headers, &texts, &header_texts, &header_exts(), Some(35))
        .expect("planning should succeed");
    assert_eq!(stale.len(), 1);
    assert_eq!(stale[0].modified, 40);
}

#[test]
fn self_quoting_header_terminates() {
    let d = dir_kw();
    let sources = vec![art("src/a.c", 1)];
    let headers = vec![art("inc/x.h", 7)];
    let texts = vec![format!("{d} \"x.h\"\n")];
    let header_texts = vec![format!("{d} \"x.h\"\n")];
    let stale = stale_sources(&sources, &headers, &texts, &header_texts, &header_exts(), Some(3))
        .expect("planning should succeed");
    assert_eq!(stale.len(), 1);
    assert_eq!(stale[0].modified, 7);
}

#[test]
fn stale_filter_is_strictly_greater() {
    let sources = vec![art("src/eq.c", 20), art("src/newer.c", 21)];
    let headers: Vec<Artifact> = Vec::new();
    let texts = vec![String::new(), String::new()];
    let header_texts: Vec<String> = Vec::new();
    let stale = stale_sources(&sources, &headers, &texts, &header_texts, &header_exts(), Some(20))
        .expect("planning should succeed");
    assert_eq!(stale.len(), 1);
    assert_eq!(stale[0].path, "src/newer.c".to_string());
}
