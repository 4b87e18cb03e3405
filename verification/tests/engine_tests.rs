use amargo::artifact::Artifact;
use amargo::config::{BuildType, Config, Project, ProjectConfig};
use amargo::engine::{
    compile_commands, compile_report, make_tool, needs_link, object_path, stale_sources,
    target_path, ProcessStatus,
};
use amargo::error::Error;
use amargo::tool::ToolFamily;

fn art(path: &str, modified: u64) -> Artifact {
    Artifact { path: path.to_string(), modified }
}

#[test]
fn out_dir_per_mode() {
    assert_eq!(BuildType::Debug.out_dir(), "target/debug".to_string());
    assert_eq!(BuildType::Release.out_dir(), "target/release".to_string());
}

#[test]
fn target_path_with_and_without_extension() {
    assert_eq!(
        target_path("target/debug", "prog", ""),
        "target/debug/prog".to_string()
    );
    assert_eq!(
        target_path("target/debug", "prog", "exe"),
        "target/debug/prog.exe".to_string()
    );
}

#[test]
fn object_path_replaces_source_extension() {
    assert_eq!(
        object_path("target/debug", "src/a.c"),
        "target/debug/a.o".to_string()
    );
    assert_eq!(
        object_path("target/debug", "src/sub/b.cpp"),
        "target/debug/b.o".to_string()
    );
    assert_eq!(
        object_path("target/release", "noext"),
        "target/release/noext.o".to_string()
    );
}

#[test]
fn compile_commands_one_per_stale_source() {
    let t = make_tool("gcc".to_string(), ToolFamily::Gnu, BuildType::Debug);
    let stale = vec![art("src/a.c", 5), art("src/b.c", 6)];
    let dirs = vec!["inc".to_string()];
    let cmds = compile_commands(&t, &stale, &dirs, "target/debug");
    assert_eq!(cmds.len(), 2);
    assert_eq!(cmds[0].program, "gcc".to_string());
    assert_eq!(
        cmds[0].args,
        vec![
            "-Wall".to_string(),
            "-g".to_string(),
            "-Iinc".to_string(),
            "-c".to_string(),
            "-o".to_string(),
            "target/debug/a.o".to_string(),
            "src/a.c".to_string(),
        ]
    );
    assert_eq!(
        cmds[1].args,
        vec![
            "-Wall".to_string(),
            "-g".to_string(),
            "-Iinc".to_string(),
            "-c".to_string(),
            "-o".to_string(),
            "target/debug/b.o".to_string(),
            "src/b.c".to_string(),
        ]
    );
}

#[test]
fn compile_report_all_success() {
    let statuses = vec![ProcessStatus::Exited(true), ProcessStatus::Exited(true)];
    assert_eq!(compile_report(&statuses, "gcc"), Ok(()));
}

#[test]
fn compile_report_nonzero_exit_is_compilation_failure() {
    let statuses = vec![ProcessStatus::Exited(true), ProcessStatus::Exited(false)];
    assert_eq!(compile_report(&statuses, "gcc"), Err(Error::CompilationFailed));
}

#[test]
fn compile_report_spawn_failure_names_tool_and_cause() {
    let statuses = vec![ProcessStatus::SpawnFailed("no such file".to_string())];
    assert_eq!(
        compile_report(&statuses, "/usr/bin/gcc"),
        Err(Error::ProcessCreationFailed(
            "/usr/bin/gcc".to_string(),
            "no such file".to_string()
        ))
    );
}

#[test]
fn compile_report_wait_failure_is_execution_error() {
    let statuses = vec![ProcessStatus::WaitFailed];
    assert_eq!(compile_report(&statuses, "gcc"), Err(Error::ProcessExecutionFailed));
}

#[test]
fn compile_report_first_failure_wins() {
    let statuses = vec![
        ProcessStatus::Exited(true),
        ProcessStatus::WaitFailed,
        ProcessStatus::Exited(false),
    ];
    assert_eq!(compile_report(&statuses, "gcc"), Err(Error::ProcessExecutionFailed));
}

#[test]
fn link_skipped_when_target_newer_than_every_object() {
    let objects = vec![art("target/debug/a.o", 10), art("target/debug/b.o", 12)];
    assert!(!needs_link(true, 13, &objects));
}

#[test]
fn link_needed_when_an_object_is_newer() {
    let objects = vec![art("target/debug/a.o", 10), art("target/debug/b.o", 14)];
    assert!(needs_link(true, 13, &objects));
}

#[test]
fn link_needed_when_target_time_equals_newest_object() {
    let objects = vec![art("target/debug/a.o", 13)];
    assert!(needs_link(true, 13, &objects));
}

#[test]
fn link_needed_when_target_missing() {
    let objects = vec![art("target/debug/a.o", 10)];
    assert!(needs_link(false, 0, &objects));
}

#[test]
fn second_build_with_no_changes_does_nothing() {
    // After a successful build the target was written last. Rebuilding with
    // unchanged files finds no stale source, and linking is skipped.
    let d = format!("#inc{}", "lude");
    let sources = vec![art("src/a.c", 10), art("src/b.c", 11)];
    let headers = vec![art("inc/a.h", 12)];
    let texts = vec![format!("{d} \"a.h\"\n"), String::new()];
    let header_texts = vec![String::new()];
    let exts = vec!["h".to_string(), "hpp".to_string(), "hxx".to_string()];
    let last_time = 20;

    let stale = stale_sources(&sources, &headers, &texts, &header_texts, &exts, Some(last_time))
        .expect("planning should succeed");
    assert!(stale.is_empty());

    let objects = vec![art("target/debug/a.o", 15), art("target/debug/b.o", 16)];
    let target_modified = 20;
    assert!(!needs_link(true, target_modified, &objects));
}

#[test]
fn no_sources_means_no_commands() {
    let sources: Vec<Artifact> = Vec::new();
    let headers: Vec<Artifact> = Vec::new();
    let texts: Vec<String> = Vec::new();
    let header_texts: Vec<String> = Vec::new();
    let exts = vec!["h".to_string()];
    let stale = stale_sources(&sources, &headers, &texts, &header_texts, &exts, Some(5))
        .expect("planning should succeed");
    assert!(stale.is_empty());
    let t = make_tool("gcc".to_string(), ToolFamily::Gnu, BuildType::Debug);
    let cmds = compile_commands(&t, &stale, &Vec::new(), "target/debug");
    assert!(cmds.is_empty());
}

#[test]
fn object_path_of_dot_file_appends_extension() {
    assert_eq!(object_path("target/debug", "src/.hidden"), "target/debug/.hidden.o".to_string());
}

#[test]
fn project_config_carries_manifest_and_working_dir() {
    let pc = ProjectConfig {
        config: Some(Config { project: Project { name: "demo".to_string() } }),
        working_dir: "/home/user/demo".to_string(),
    };
    assert_eq!(pc.config.as_ref().unwrap().project.name, "demo".to_string());
    assert_eq!(pc.working_dir, "/home/user/demo".to_string());
}
