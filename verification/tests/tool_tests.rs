use amargo::artifact::Artifact;
use amargo::config::BuildType;
use amargo::engine::make_tool;
use amargo::tool::{Tool, ToolFamily};

fn art(path: &str, modified: u64) -> Artifact {
    Artifact { path: path.to_string(), modified }
}

const MSVC: ToolFamily = ToolFamily::Msvc { clang_cl: false };

#[test]
fn debug_flags_per_family() {
    assert_eq!(ToolFamily::Gnu.debug_flags(), "-g");
    assert_eq!(ToolFamily::Clang.debug_flags(), "-g");
    assert_eq!(MSVC.debug_flags(), "-Z7");
    assert_eq!(ToolFamily::Msvc { clang_cl: true }.debug_flags(), "-Z7");
}

#[test]
fn release_flags_per_family() {
    assert_eq!(ToolFamily::Gnu.release_flags(), "-O3");
    assert_eq!(ToolFamily::Clang.release_flags(), "-O3");
    assert_eq!(MSVC.release_flags(), "/O2");
}

#[test]
fn header_dir_flag_per_family() {
    assert_eq!(ToolFamily::Gnu.header_dir_flag(), "-I");
    assert_eq!(ToolFamily::Clang.header_dir_flag(), "-I");
    assert_eq!(MSVC.header_dir_flag(), "/I ");
}

#[test]
fn compilation_flags_per_family() {
    assert_eq!(ToolFamily::Gnu.compilation_flags(), ("-c", "-o"));
    assert_eq!(ToolFamily::Clang.compilation_flags(), ("-c", "-o"));
    assert_eq!(MSVC.compilation_flags(), ("/c", "/Fo:"));
}

#[test]
fn exe_flag_per_family() {
    assert_eq!(ToolFamily::Gnu.exe_flag(), "-o");
    assert_eq!(ToolFamily::Clang.exe_flag(), "-o");
    assert_eq!(MSVC.exe_flag(), "/Fe:");
}

#[test]
fn warnings_flags_per_family() {
    assert_eq!(ToolFamily::Gnu.warnings_flags(), "-Wall");
    assert_eq!(ToolFamily::Clang.warnings_flags(), "-Wall");
    assert_eq!(MSVC.warnings_flags(), "-W4");
}

#[test]
fn extra_warnings_flags_per_family() {
    assert_eq!(ToolFamily::Gnu.extra_warnings_flags(), Some("-Wextra"));
    assert_eq!(ToolFamily::Clang.extra_warnings_flags(), Some("-Wextra"));
    assert_eq!(MSVC.extra_warnings_flags(), None);
}

#[test]
fn warnings_to_errors_flag_per_family() {
    assert_eq!(ToolFamily::Gnu.warnings_to_errors_flag(), "-Werror");
    assert_eq!(ToolFamily::Clang.warnings_to_errors_flag(), "-Werror");
    assert_eq!(MSVC.warnings_to_errors_flag(), "-WX");
}

#[test]
fn push_cc_arg_accumulates() {
    let mut t = Tool::new("/usr/bin/cc".to_string(), ToolFamily::Gnu);
    assert!(t.args.is_empty());
    t.push_cc_arg("-Wall".to_string());
    t.push_cc_arg("-g".to_string());
    assert_eq!(t.args, vec!["-Wall".to_string(), "-g".to_string()]);
}

#[test]
fn debug_build_command_gnu() {
    let t = make_tool("gcc".to_string(), ToolFamily::Gnu, BuildType::Debug);
    let cmd = t.to_build_command(&vec!["inc".to_string()]);
    assert_eq!(cmd.program, "gcc".to_string());
    assert_eq!(
        cmd.args,
        vec![
            "-Wall".to_string(),
            "-g".to_string(),
            "-Iinc".to_string(),
            "-c".to_string(),
            "-o".to_string(),
        ]
    );
}

#[test]
fn release_build_command_clang() {
    let t = make_tool("clang".to_string(), ToolFamily::Clang, BuildType::Release);
    let cmd = t.to_build_command(&vec!["headers".to_string()]);
    assert_eq!(
        cmd.args,
        vec![
            "-Wall".to_string(),
            "-O3".to_string(),
            "-Iheaders".to_string(),
            "-c".to_string(),
            "-o".to_string(),
        ]
    );
}

#[test]
fn build_command_msvc_has_trailing_space_prefix() {
    let t = make_tool("cl".to_string(), MSVC, BuildType::Debug);
    let cmd = t.to_build_command(&vec!["inc".to_string()]);
    assert_eq!(
        cmd.args,
        vec![
            "-W4".to_string(),
            "-Z7".to_string(),
            "/I inc".to_string(),
            "/c".to_string(),
            "/Fo:".to_string(),
        ]
    );
}

#[test]
fn release_build_command_msvc() {
    let t = make_tool("cl".to_string(), MSVC, BuildType::Release);
    let cmd = t.to_build_command(&Vec::new());
    assert_eq!(
        cmd.args,
        vec!["-W4".to_string(), "/O2".to_string(), "/c".to_string(), "/Fo:".to_string()]
    );
}

#[test]
fn link_command_lists_objects_then_output() {
    let t = Tool::new("gcc".to_string(), ToolFamily::Gnu);
    let objects = vec![art("target/debug/a.o", 1), art("target/debug/b.o", 2)];
    let cmd = t.to_link_command("target/debug/prog", &objects);
    assert_eq!(cmd.program, "gcc".to_string());
    assert_eq!(
        cmd.args,
        vec![
            "target/debug/a.o".to_string(),
            "target/debug/b.o".to_string(),
            "-o".to_string(),
            "target/debug/prog".to_string(),
        ]
    );
}

#[test]
fn link_command_msvc_uses_fe() {
    let t = Tool::new("cl".to_string(), MSVC);
    let objects = vec![art("target/release/a.o", 1)];
    let cmd = t.to_link_command("target/release/prog.exe", &objects);
    assert_eq!(
        cmd.args,
        vec![
            "target/release/a.o".to_string(),
            "/Fe:".to_string(),
            "target/release/prog.exe".to_string(),
        ]
    );
}
