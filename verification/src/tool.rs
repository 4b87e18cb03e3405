use vstd::prelude::*;

use crate::artifact::Artifact;
use crate::config::BuildType;
use crate::text::join2;

verus! {

// The compiler abstraction: a pure strategy table keyed by the compiler
// family, plus the accumulated invocation state. It hides the per-family
// flag spelling (warnings, debug/release, header search paths, output
// syntax) behind one interface that yields ready-to-run command lines.

/// One ready-to-run invocation: a program path and its arguments in order.
/// The shell around the engine turns this into an OS process.
#[derive(Debug, Clone, PartialEq, Eq)]
pub struct CommandLine {
    pub program: String,
    pub args: Vec<String>,
}

/// The family of tools a compiler belongs to. Each family differs in how
/// and what arguments it accepts; detection is best-effort.
#[derive(Debug, Clone, Copy, PartialEq, Eq, Structural)]
pub enum ToolFamily {
    /// GNU Compiler Collection-like.
    Gnu,
    /// Clang-like: accepts a superset of the GNU flags.
    Clang,
    /// The MSVC `cl.exe` dialect, or Clang with the `cl.exe` command
    /// signature when `clang_cl` is set.
    Msvc { clang_cl: bool },
}

impl ToolFamily {
    /// The flag enabling debug symbols.
    pub open spec fn debug_flags_spec(self) -> Seq<char> {
        match self {
            ToolFamily::Msvc { .. } => "-Z7"@,
            _ => "-g"@,
        }
    }

    /// The flag selecting optimized release compilation.
    pub open spec fn release_flags_spec(self) -> Seq<char> {
        match self {
            ToolFamily::Msvc { .. } => "/O2"@,
            _ => "-O3"@,
        }
    }

    /// The prefix put before each header search directory.
    pub open spec fn header_dir_flag_spec(self) -> Seq<char> {
        match self {
            ToolFamily::Msvc { .. } => "/I "@,
            _ => "-I"@,
        }
    }

    /// The compile-only flag and the object-output flag.
    pub open spec fn compilation_flags_spec(self) -> (Seq<char>, Seq<char>) {
        match self {
            ToolFamily::Msvc { .. } => ("/c"@, "/Fo:"@),
            _ => ("-c"@, "-o"@),
        }
    }

    /// The flag that makes the tool produce an executable at the path that
    /// follows it.
    pub open spec fn exe_flag_spec(self) -> Seq<char> {
        match self {
            ToolFamily::Msvc { .. } => "/Fe:"@,
            _ => "-o"@,
        }
    }

    /// The flag enabling the standard set of warnings.
    pub open spec fn warnings_flags_spec(self) -> Seq<char> {
        match self {
            ToolFamily::Msvc { .. } => "-W4"@,
            _ => "-Wall"@,
        }
    }

    /// The flag enabling extra warnings, for the families that have one.
    pub open spec fn extra_warnings_flags_spec(self) -> Option<Seq<char>> {
        match self {
            ToolFamily::Msvc { .. } => None,
            _ => Some("-Wextra"@),
        }
    }

    /// The flag turning warnings into errors.
    pub open spec fn warnings_to_errors_flag_spec(self) -> Seq<char> {
        match self {
            ToolFamily::Msvc { .. } => "-WX"@,
            _ => "-Werror"@,
        }
    }

    /// The mode's flags: debug symbols for `Debug`, optimization for
    /// `Release`.
    pub open spec fn mode_flags_spec(self, mode: BuildType) -> Seq<char> {
        match mode {
            BuildType::Debug => self.debug_flags_spec(),
            BuildType::Release => self.release_flags_spec(),
        }
    }

    /// Compilation in debug mode.
    pub fn debug_flags(&self) -> (r: &'static str)
        ensures
            r@ == self.debug_flags_spec(),
    {
        match *self {
            ToolFamily::Msvc { .. } => "-Z7",
            _ => "-g",
        }
    }

    /// Compilation in release mode.
    pub fn release_flags(&self) -> (r: &'static str)
        ensures
            r@ == self.release_flags_spec(),
    {
        match *self {
            ToolFamily::Msvc { .. } => "/O2",
            _ => "-O3",
        }
    }

    /// The prefix for a header search directory argument: `-I` with the
    /// directory appended directly for the GNU and Clang families, `/I `
    /// with a single space before the directory for the MSVC family.
    pub fn header_dir_flag(&self) -> (r: &'static str)
        ensures
            r@ == self.header_dir_flag_spec(),
    {
        match *self {
            ToolFamily::Msvc { .. } => "/I ",
            _ => "-I",
        }
    }

    /// The compile-only flag and the object-output flag, in that order.
    pub fn compilation_flags(&self) -> (r: (&'static str, &'static str))
        ensures
            r.0@ == self.compilation_flags_spec().0,
            r.1@ == self.compilation_flags_spec().1,
    {
        match *self {
            ToolFamily::Msvc { .. } => ("/c", "/Fo:"),
            _ => ("-c", "-o"),
        }
    }

    /// The flag to generate an executable.
    pub fn exe_flag(&self) -> (r: &'static str)
        ensures
            r@ == self.exe_flag_spec(),
    {
        match *self {
            ToolFamily::Msvc { .. } => "/Fe:",
            _ => "-o",
        }
    }

    /// The flag to enable all warnings.
    pub fn warnings_flags(&self) -> (r: &'static str)
        ensures
            r@ == self.warnings_flags_spec(),
    {
        match *self {
            ToolFamily::Msvc { .. } => "-W4",
            _ => "-Wall",
        }
    }

    /// The flag to enable extra warnings, if the family has one.
    pub fn extra_warnings_flags(&self) -> (r: Option<&'static str>)
        ensures
            match r {
                Some(s) => self.extra_warnings_flags_spec() == Some(s@),
                None => self.extra_warnings_flags_spec() is None,
            },
    {
        match *self {
            ToolFamily::Msvc { .. } => None,
            _ => Some("-Wextra"),
        }
    }

    /// The flag to turn warnings into errors.
    pub fn warnings_to_errors_flag(&self) -> (r: &'static str)
        ensures
            r@ == self.warnings_to_errors_flag_spec(),
    {
        match *self {
            ToolFamily::Msvc { .. } => "-WX",
            _ => "-Werror",
        }
    }
}

/// The arguments of a compile command: the tool's accumulated arguments,
/// then one prefixed argument per header search directory, then the
/// compile-only and object-output flags. The object path and the source
/// path are appended per compiled source.
pub open spec fn build_args_spec(
    family: ToolFamily,
    args: Seq<Seq<char>>,
    header_dirs: Seq<Seq<char>>,
) -> Seq<Seq<char>> {
    args + Seq::new(header_dirs.len(), |i: int| family.header_dir_flag_spec() + header_dirs[i])
        + seq![family.compilation_flags_spec().0, family.compilation_flags_spec().1]
}

/// The arguments of a link command: every object path in order, then the
/// executable-output flag, then the target path.
pub open spec fn link_args_spec(
    family: ToolFamily,
    objects: Seq<Artifact>,
    target: Seq<char>,
) -> Seq<Seq<char>> {
    Seq::new(objects.len(), |i: int| objects[i].path@) + seq![family.exe_flag_spec(), target]
}

/// A configured compiler invocation: the resolved executable path, the
/// accumulated argument list, and the family whose dialect is spoken.
#[derive(Debug, Clone, PartialEq, Eq)]
pub struct Tool {
    /// Path to the compiler executable.
    pub path: String,
    /// Arguments accumulated so far.
    pub args: Vec<String>,
    /// The family, needed as some flags differ between families.
    pub family: ToolFamily,
}

impl Tool {
    /// Instantiates a tool for the given compiler executable and family,
    /// with no accumulated arguments. Which executable and family the host
    /// offers is the discovery collaborator's business, not the engine's.
    pub fn new(path: String, family: ToolFamily) -> (r: Tool)
        ensures
            r.path == path,
            r.family == family,
            r.args@.len() == 0,
    {
        Tool { path, args: Vec::new(), family }
    }

    /// Adds an arbitrary argument.
    pub fn push_cc_arg(&mut self, arg: String)
        ensures
            final(self).path == old(self).path,
            final(self).family == old(self).family,
            final(self).args@ == old(self).args@.push(arg),
    {
        self.args.push(arg);
    }

    /// Converts this tool into a command line ready to build one object:
    /// accumulated arguments, prefixed header search directories, and the
    /// family's compile flags. The caller appends the object path and the
    /// source path.
    pub fn to_build_command(&self, header_dirs: &Vec<String>) -> (r: CommandLine)
        ensures
            r.program@ == self.path@,
            r.args.deep_view() == build_args_spec(
                self.family,
                self.args.deep_view(),
                header_dirs.deep_view(),
            ),
    {
        let alen = self.args.len();
        let dlen = header_dirs.len();
        let mut args: Vec<String> = Vec::new();
        let mut k: usize = 0;
        while k < alen
            invariant
                alen == self.args@.len(),
                k <= alen,
                args@.len() == k,
                forall|y: int| 0 <= y < k ==> args@[y] == self.args@[y],
            decreases alen - k,
        {
            args.push(self.args[k].clone());
            k = k + 1;
        }
        let flag = self.family.header_dir_flag();
        let mut d: usize = 0;
        while d < dlen
            invariant
                alen == self.args@.len(),
                dlen == header_dirs@.len(),
                flag@ == self.family.header_dir_flag_spec(),
                d <= dlen,
                args@.len() == alen + d,
                forall|y: int| 0 <= y < alen ==> args@[y] == self.args@[y],
                forall|y: int|
                    alen <= y < alen + d ==> (#[trigger] args@[y])@
                        == self.family.header_dir_flag_spec() + header_dirs@[y - alen]@,
            decreases dlen - d,
        {
            args.push(join2(flag, header_dirs[d].as_str()));
            d = d + 1;
        }
        let cflags = self.family.compilation_flags();
        args.push(cflags.0.to_owned());
        args.push(cflags.1.to_owned());
        proof {
            let adeep = self.args.deep_view();
            let ddeep = header_dirs.deep_view();
            let target = build_args_spec(self.family, adeep, ddeep);
            assert(args@.len() == alen + dlen + 2);
            assert(target.len() == alen + dlen + 2);
            assert forall|y: int| 0 <= y < args@.len() implies args.deep_view()[y]
                == target[y] by {
                assert(args.deep_view()[y] == args@[y]@);
                if y < alen {
                    assert(args@[y] == self.args@[y]);
                    assert(adeep[y] == self.args@[y]@);
                    assert(target[y] == adeep[y]);
                } else if y < alen + dlen {
                    assert((args@[y])@ == self.family.header_dir_flag_spec() + header_dirs@[y
                        - alen]@);
                    assert(ddeep[y - alen] == header_dirs@[y - alen]@);
                    assert(target[y] == Seq::new(
                        ddeep.len(),
                        |i: int| self.family.header_dir_flag_spec() + ddeep[i],
                    )[y - alen]);
                } else if y == alen + dlen {
                    assert((args@[y])@ == self.family.compilation_flags_spec().0);
                    assert(target[y] == self.family.compilation_flags_spec().0);
                } else {
                    assert((args@[y])@ == self.family.compilation_flags_spec().1);
                    assert(target[y] == self.family.compilation_flags_spec().1);
                }
            }
            assert(args.deep_view() =~= target);
        }
        CommandLine { program: self.path.clone(), args }
    }

    /// Converts this tool into a command line ready to link the objects
    /// into the target executable.
    pub fn to_link_command(&self, target_path: &str, objects: &Vec<Artifact>) -> (r: CommandLine)
        ensures
            r.program@ == self.path@,
            r.args.deep_view() == link_args_spec(self.family, objects@, target_path@),
    {
        let olen = objects.len();
        let mut args: Vec<String> = Vec::new();
        let mut k: usize = 0;
        while k < olen
            invariant
                olen == objects@.len(),
                k <= olen,
                args@.len() == k,
                forall|y: int| 0 <= y < k ==> (#[trigger] args@[y])@ == objects@[y].path@,
            decreases olen - k,
        {
            args.push(objects[k].path.clone());
            k = k + 1;
        }
        args.push(self.family.exe_flag().to_owned());
        args.push(target_path.to_owned());
        proof {
            let target = link_args_spec(self.family, objects@, target_path@);
            assert(args@.len() == olen + 2);
            assert(target.len() == olen + 2);
            assert forall|y: int| 0 <= y < args@.len() implies args.deep_view()[y]
                == target[y] by {
                assert(args.deep_view()[y] == args@[y]@);
                if y < olen {
                    assert((args@[y])@ == objects@[y].path@);
                    assert(target[y] == Seq::new(objects@.len(), |i: int| objects@[i].path@)[y]);
                } else if y == olen {
                    assert((args@[y])@ == self.family.exe_flag_spec());
                } else {
                    assert((args@[y])@ == target_path@);
                }
            }
            assert(args.deep_view() =~= target);
        }
        CommandLine { program: self.path.clone(), args }
    }
}

/// Law: family flag correctness. For a tool configured with the warnings
/// flag and the mode's flag, the generated build command carries exactly
/// that family's debug flag in debug mode and exactly its optimization
/// flag in release mode, and each header search directory is prefixed with
/// that family's spelling: `-I` with nothing between flag and directory
/// for GNU and Clang, `/I` with a single trailing space for MSVC.
pub proof fn lemma_family_flag_correctness(f: ToolFamily, mode: BuildType, dirs: Seq<Seq<char>>)
    ensures
        ({
            let out = build_args_spec(f, seq![f.warnings_flags_spec(), f.mode_flags_spec(mode)], dirs);
            &&& out.len() == 2 + dirs.len() + 2
            &&& mode == BuildType::Debug ==> out[1] == f.debug_flags_spec()
            &&& mode == BuildType::Release ==> out[1] == f.release_flags_spec()
            &&& forall|i: int|
                0 <= i < dirs.len() ==> out[2 + i] == f.header_dir_flag_spec() + dirs[i]
        }),
        f matches ToolFamily::Msvc { .. } ==> f.debug_flags_spec() == seq!['-', 'Z', '7']
            && f.release_flags_spec() == seq!['/', 'O', '2'] && f.header_dir_flag_spec() == seq![
            '/',
            'I',
            ' ',
        ],
        !(f matches ToolFamily::Msvc { .. }) ==> f.debug_flags_spec() == seq!['-', 'g']
            && f.release_flags_spec() == seq!['-', 'O', '3'] && f.header_dir_flag_spec() == seq![
            '-',
            'I',
        ],
{
    reveal_strlit("-Z7");
    reveal_strlit("/O2");
    reveal_strlit("/I ");
    reveal_strlit("-g");
    reveal_strlit("-O3");
    reveal_strlit("-I");
    let args = seq![f.warnings_flags_spec(), f.mode_flags_spec(mode)];
    let out = build_args_spec(f, args, dirs);
    assert(out[1] == args[1]);
    assert forall|i: int| 0 <= i < dirs.len() implies out[2 + i] == f.header_dir_flag_spec()
        + dirs[i] by {
        assert(out[2 + i] == Seq::new(dirs.len(), |i: int| f.header_dir_flag_spec() + dirs[i])[i]);
    }
    assert(f.debug_flags_spec() =~= match f {
        ToolFamily::Msvc { .. } => seq!['-', 'Z', '7'],
        _ => seq!['-', 'g'],
    });
    assert(f.release_flags_spec() =~= match f {
        ToolFamily::Msvc { .. } => seq!['/', 'O', '2'],
        _ => seq!['-', 'O', '3'],
    });
    assert(f.header_dir_flag_spec() =~= match f {
        ToolFamily::Msvc { .. } => seq!['/', 'I', ' '],
        _ => seq!['-', 'I'],
    });
}

} // verus!
