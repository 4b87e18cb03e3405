use vstd::prelude::*;

verus! {

/// The configuration read from a project's manifest file.
#[derive(Debug, Clone, PartialEq, Eq)]
pub struct Config {
    pub project: Project,
}

/// The identity of a project: its name, which is also the name of the
/// target artifact.
#[derive(Debug, Clone, PartialEq, Eq)]
pub struct Project {
    pub name: String,
}

/// Everything the engine needs to know about the project being built:
/// its manifest configuration (if a manifest was found) and the directory
/// the project lives in.
#[derive(Debug, Clone, PartialEq, Eq)]
pub struct ProjectConfig {
    pub config: Option<Config>,
    pub working_dir: String,
}

/// The kinds of project that can be scaffolded.
#[derive(Debug, Clone, Copy, PartialEq, Eq, Structural)]
pub enum ProjectType {
    /// Generates an executable from a main.c entry point.
    Binary,
    /// Compiles to a header plus a static library.
    StaticLib,
    /// Compiles to a header plus a dynamic library.
    DynamicLib,
    /// Groups all headers into a single one.
    HeaderOnly,
}

/// The build mode, which selects the output directory and the
/// optimization and debug-symbol flags handed to the compiler.
#[derive(Debug, Clone, Copy, PartialEq, Eq, Structural)]
pub enum BuildType {
    /// Optimized, no debug symbols.
    Release,
    /// Debug symbols, no optimization.
    Debug,
}

impl BuildType {
    /// The output directory for this mode, relative to the project root.
    pub open spec fn out_dir_spec(self) -> Seq<char> {
        match self {
            BuildType::Release => "target/release"@,
            BuildType::Debug => "target/debug"@,
        }
    }

    /// Returns the output directory for this mode: `target/debug` or
    /// `target/release`.
    pub fn out_dir(self) -> (r: String)
        ensures
            r@ == self.out_dir_spec(),
    {
        match self {
            BuildType::Release => "target/release".to_owned(),
            BuildType::Debug => "target/debug".to_owned(),
        }
    }
}

} // verus!
