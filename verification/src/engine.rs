use vstd::prelude::*;
use vstd::string::StrSliceExecFns;

use crate::artifact::{dot_pred, file_name, file_name_spec, last_where, Artifact};
use crate::config::BuildType;
use crate::error::Error;
use crate::graph::{build_dep_graph, resolved_deps};
use crate::scan::header_names;
use crate::stale::{
    effective_sources, filter_stale, is_effective_time, lemma_stale_of_empty, stale_of,
};
use crate::text::{join2, join3};
use crate::tool::{build_args_spec, CommandLine, Tool, ToolFamily};

verus! {

// Orchestration decisions of the build engine, as pure functions: which
// sources must be recompiled, what each compile command line is, how
// process outcomes aggregate, and whether linking is needed. The shell
// around the engine carries the decisions out (spawning processes, touching
// the file system) and feeds the outcomes back.

/// `base` and `rel` joined with a single separator.
pub open spec fn join_path_spec(base: Seq<char>, rel: Seq<char>) -> Seq<char> {
    base + "/"@ + rel
}

/// Joins a directory and a relative path with a single separator.
pub fn join_path(base: &str, rel: &str) -> (r: String)
    ensures
        r@ == join_path_spec(base@, rel@),
{
    join3(base, "/", rel)
}

/// A file name with its extension replaced by the object extension `o`:
/// the stem keeps everything up to the last dot (a dot in first position
/// starts no extension), and `.o` follows.
pub open spec fn object_name_spec(f: Seq<char>) -> Seq<char> {
    let d = last_where(f, dot_pred());
    if d >= 1 {
        f.subrange(0, d) + ".o"@
    } else {
        f + ".o"@
    }
}

/// The path of the object compiled from a source: the source's file name
/// with the object extension, inside the output directory.
pub open spec fn object_path_spec(out_dir: Seq<char>, src_path: Seq<char>) -> Seq<char> {
    join_path_spec(out_dir, object_name_spec(file_name_spec(src_path)))
}

/// Returns the object path for `src_path` inside `out_dir`.
pub fn object_path(out_dir: &str, src_path: &str) -> (r: String)
    ensures
        r@ == object_path_spec(out_dir@, src_path@),
{
    let f = file_name(src_path);
    let fs = f.as_str();
    let n = fs.unicode_len();
    let mut j: usize = n;
    while j > 0 && fs.get_char(j - 1) != '.'
        invariant
            n == fs@.len(),
            fs@ == f@,
            j <= n,
            forall|k: int| j <= k < n ==> fs@[k] != '.',
        decreases j,
    {
        j = j - 1;
    }
    proof {
        crate::artifact::lemma_last_where_unique(fs@, dot_pred(), j as int - 1);
    }
    let stem = if j >= 2 {
        fs.substring_char(0, j - 1)
    } else {
        fs
    };
    let name = join2(stem, ".o");
    join3(out_dir, "/", name.as_str())
}

/// The path of the target artifact: the project name inside the output
/// directory, with the platform's executable extension appended after a
/// dot when that extension is not empty.
pub open spec fn target_path_spec(
    out_dir: Seq<char>,
    project_name: Seq<char>,
    exe_ext: Seq<char>,
) -> Seq<char> {
    if exe_ext.len() == 0 {
        join_path_spec(out_dir, project_name)
    } else {
        join_path_spec(out_dir, project_name) + "."@ + exe_ext
    }
}

/// Returns the target artifact's path for the project inside `out_dir`.
pub fn target_path(out_dir: &str, project_name: &str, exe_ext: &str) -> (r: String)
    ensures
        r@ == target_path_spec(out_dir@, project_name@, exe_ext@),
{
    let base = join_path(out_dir, project_name);
    if exe_ext.unicode_len() == 0 {
        base
    } else {
        join3(base.as_str(), ".", exe_ext)
    }
}

/// A tool configured for a build mode: the warnings flag, then the mode's
/// debug or release flag, as the accumulated arguments.
pub fn make_tool(path: String, family: ToolFamily, mode: BuildType) -> (r: Tool)
    ensures
        r.path == path,
        r.family == family,
        r.args.deep_view() == seq![family.warnings_flags_spec(), family.mode_flags_spec(mode)],
{
    let mut t = Tool::new(path, family);
    t.push_cc_arg(t.family.warnings_flags().to_owned());
    match mode {
        BuildType::Debug => t.push_cc_arg(t.family.debug_flags().to_owned()),
        BuildType::Release => t.push_cc_arg(t.family.release_flags().to_owned()),
    }
    proof {
        assert(t.args.deep_view() =~= seq![
            family.warnings_flags_spec(),
            family.mode_flags_spec(mode),
        ]);
    }
    t
}

/// The full argument list compiling one source: the build command's
/// arguments, then the object's path, then the source's path.
pub open spec fn compile_args_spec(
    family: ToolFamily,
    base_args: Seq<Seq<char>>,
    header_dirs: Seq<Seq<char>>,
    out_dir: Seq<char>,
    src_path: Seq<char>,
) -> Seq<Seq<char>> {
    build_args_spec(family, base_args, header_dirs) + seq![
        object_path_spec(out_dir, src_path),
        src_path,
    ]
}

/// One compile command line per stale source, in order: the tool's build
/// command with the object path and the source path appended. The sources
/// are independent; the shell may run these in any order, up to its
/// concurrency window.
pub fn compile_commands(
    tool: &Tool,
    stale: &Vec<Artifact>,
    header_dirs: &Vec<String>,
    out_dir: &str,
) -> (r: Vec<CommandLine>)
    ensures
        r@.len() == stale@.len(),
        forall|i: int| 0 <= i < stale@.len() ==> (#[trigger] r@[i]).program@ == tool.path@,
        forall|i: int|
            0 <= i < stale@.len() ==> (#[trigger] r@[i]).args.deep_view() == compile_args_spec(
                tool.family,
                tool.args.deep_view(),
                header_dirs.deep_view(),
                out_dir@,
                stale@[i].path@,
            ),
{
    let mut r: Vec<CommandLine> = Vec::new();
    let mut i: usize = 0;
    while i < stale.len()
        invariant
            i <= stale@.len(),
            r@.len() == i,
            forall|y: int| 0 <= y < i ==> (#[trigger] r@[y]).program@ == tool.path@,
            forall|y: int|
                0 <= y < i ==> (#[trigger] r@[y]).args.deep_view() == compile_args_spec(
                    tool.family,
                    tool.args.deep_view(),
                    header_dirs.deep_view(),
                    out_dir@,
                    stale@[y].path@,
                ),
        decreases stale@.len() - i,
    {
        let mut cmd = tool.to_build_command(header_dirs);
        let ghost base_deep = cmd.args.deep_view();
        let obj = object_path(out_dir, stale[i].path.as_str());
        cmd.args.push(obj);
        proof {
            assert(cmd.args.deep_view() =~= base_deep.push(
                object_path_spec(out_dir@, stale@[i as int].path@),
            ));
        }
        let ghost mid_deep = cmd.args.deep_view();
        cmd.args.push(stale[i].path.clone());
        proof {
            assert(cmd.args.deep_view() =~= mid_deep.push(stale@[i as int].path@));
            assert(cmd.args.deep_view() =~= compile_args_spec(
                tool.family,
                tool.args.deep_view(),
                header_dirs.deep_view(),
                out_dir@,
                stale@[i as int].path@,
            ));
        }
        r.push(cmd);
        i = i + 1;
    }
    r
}

/// What became of one spawned compile process.
#[derive(Debug, Clone, PartialEq, Eq)]
pub enum ProcessStatus {
    /// The process could not be spawned; carries a description of the
    /// cause.
    SpawnFailed(String),
    /// Waiting on the spawned process failed with an I/O error.
    WaitFailed,
    /// The process exited; the payload says whether the exit status was
    /// success.
    Exited(bool),
}

/// Whether the status is a successful exit.
pub open spec fn is_success(s: ProcessStatus) -> bool {
    s == ProcessStatus::Exited(true)
}

/// Aggregates the outcomes of the compile processes, fail-fast: the first
/// outcome that is not a successful exit decides the error — a spawn
/// failure names the tool and the cause, a wait failure is an execution
/// error, and a non-zero exit is a compilation failure.
pub fn compile_report(statuses: &Vec<ProcessStatus>, tool_path: &str) -> (r: Result<(), Error>)
    ensures
        match r {
            Ok(u) => forall|i: int| 0 <= i < statuses@.len() ==> is_success(#[trigger] statuses@[i]),
            Err(e) => exists|i: int|
                {
                    &&& 0 <= i < statuses@.len()
                    &&& !is_success(#[trigger] statuses@[i])
                    &&& forall|y: int| 0 <= y < i ==> is_success(#[trigger] statuses@[y])
                    &&& match statuses@[i] {
                        ProcessStatus::SpawnFailed(c) => e matches Error::ProcessCreationFailed(
                            p,
                            c2,
                        ) && p@ == tool_path@ && c2 == c,
                        ProcessStatus::WaitFailed => e == Error::ProcessExecutionFailed,
                        ProcessStatus::Exited(ok) => !ok && e == Error::CompilationFailed,
                    }
                },
        },
{
    let mut i: usize = 0;
    while i < statuses.len()
        invariant
            i <= statuses@.len(),
            forall|y: int| 0 <= y < i ==> is_success(#[trigger] statuses@[y]),
        decreases statuses@.len() - i,
    {
        match &statuses[i] {
            ProcessStatus::SpawnFailed(c) => {
                return Err(Error::ProcessCreationFailed(tool_path.to_owned(), c.clone()));
            },
            ProcessStatus::WaitFailed => {
                return Err(Error::ProcessExecutionFailed);
            },
            ProcessStatus::Exited(ok) => {
                if !*ok {
                    return Err(Error::CompilationFailed);
                }
            },
        }
        i = i + 1;
    }
    Ok(())
}

/// The greatest modification time among the artifacts, 0 when there are
/// none.
pub open spec fn max_modified(objs: Seq<Artifact>) -> u64
    decreases objs.len(),
{
    if objs.len() == 0 {
        0u64
    } else {
        let m = max_modified(objs.drop_last());
        if objs.last().modified > m {
            objs.last().modified
        } else {
            m
        }
    }
}

pub proof fn lemma_max_modified(objs: Seq<Artifact>)
    ensures
        forall|i: int| 0 <= i < objs.len() ==> (#[trigger] objs[i].modified) <= max_modified(objs),
        objs.len() > 0 ==> exists|i: int|
            0 <= i < objs.len() && max_modified(objs) == (#[trigger] objs[i].modified),
    decreases objs.len(),
{
    if objs.len() > 0 {
        lemma_max_modified(objs.drop_last());
        let dl = objs.drop_last();
        assert forall|i: int| 0 <= i < objs.len() implies (#[trigger] objs[i].modified)
            <= max_modified(objs) by {
            if i < objs.len() - 1 {
                assert(objs[i] == dl[i]);
            }
        }
        if objs.last().modified > max_modified(dl) {
            assert(max_modified(objs) == objs[objs.len() - 1].modified);
        } else if dl.len() > 0 {
            let i = choose|i: int| 0 <= i < dl.len() && max_modified(dl) == (#[trigger] dl[i].modified);
            assert(objs[i].modified == max_modified(objs));
        }
    }
}

/// Decides whether linking is needed: it is skipped exactly when a target
/// artifact exists and its modification time strictly exceeds every
/// object's. Returns true when the target must be (re)linked.
pub fn needs_link(target_exists: bool, target_modified: u64, objects: &Vec<Artifact>) -> (r: bool)
    requires
        target_exists ==> objects@.len() > 0,
    ensures
        r == !(target_exists && target_modified > max_modified(objects@)),
{
    if !target_exists {
        return true;
    }
    let mut m: u64 = 0;
    let mut i: usize = 0;
    while i < objects.len()
        invariant
            i <= objects@.len(),
            m == max_modified(objects@.subrange(0, i as int)),
        decreases objects@.len() - i,
    {
        if objects[i].modified > m {
            m = objects[i].modified;
        }
        proof {
            assert(objects@.subrange(0, i + 1).drop_last() =~= objects@.subrange(0, i as int));
            assert(objects@.subrange(0, i + 1).last() == objects@[i as int]);
        }
        i = i + 1;
    }
    proof {
        assert(objects@.subrange(0, objects@.len() as int) =~= objects@);
    }
    !(target_modified > m)
}

/// The adjacency rows of the header graph, as the specification-level
/// resolution of each header text's quoted names.
pub open spec fn header_adj_spec(
    header_texts: Seq<String>,
    exts: Seq<Seq<char>>,
    headers: Seq<Artifact>,
) -> Seq<Seq<int>> {
    Seq::new(header_texts.len(), |m: int| resolved_deps(header_names(header_texts[m]@, exts), headers))
}

/// The direct dependencies of source `i`, as the specification-level
/// resolution of its text's quoted names.
pub open spec fn source_seeds_spec(
    source_texts: Seq<String>,
    i: int,
    exts: Seq<Seq<char>>,
    headers: Seq<Artifact>,
) -> Seq<int> {
    resolved_deps(header_names(source_texts[i]@, exts), headers)
}

/// Selects the sources that must be recompiled.
///
/// On a first build — no prior target, `last_time` is `None` — every
/// discovered source is returned, regardless of timestamps, and no graph is
/// built. On an incremental build the dependency graph is built from the
/// texts (failing with `Error::MissingHeaders` exactly when some quoted
/// name resolves to no known header), every source's time is raised to its
/// effective modification time, and exactly the sources whose effective
/// time strictly exceeds `last_time` are returned.
pub fn stale_sources(
    sources: &Vec<Artifact>,
    headers: &Vec<Artifact>,
    source_texts: &Vec<String>,
    header_texts: &Vec<String>,
    exts: &Vec<String>,
    last_time: Option<u64>,
) -> (r: Result<Vec<Artifact>, Error>)
    requires
        source_texts@.len() == sources@.len(),
        header_texts@.len() == headers@.len(),
    ensures
        last_time is None ==> (r matches Ok(v) && v@ == sources@),
        last_time matches Some(t) ==> {
            &&& (r is Err <==> exists|x: int|
                0 <= x < sources@.len() + headers@.len() && (#[trigger] crate::graph::node_unresolved(
                    x,
                    sources@,
                    headers@,
                    source_texts@,
                    header_texts@,
                    exts.deep_view(),
                )).len() > 0)
            &&& (r matches Err(e) ==> exists|x: int|
                {
                    &&& 0 <= x < sources@.len() + headers@.len()
                    &&& (#[trigger] crate::graph::node_unresolved(
                        x,
                        sources@,
                        headers@,
                        source_texts@,
                        header_texts@,
                        exts.deep_view(),
                    )).len() > 0
                    &&& forall|y: int|
                        0 <= y < x ==> crate::graph::node_unresolved(
                            y,
                            sources@,
                            headers@,
                            source_texts@,
                            header_texts@,
                            exts.deep_view(),
                        ).len() == 0
                    &&& e matches Error::MissingHeaders(p, ns) && p@ == crate::graph::node_path(
                        x,
                        sources@,
                        headers@,
                    ) && ns.deep_view() == crate::graph::node_unresolved(
                        x,
                        sources@,
                        headers@,
                        source_texts@,
                        header_texts@,
                        exts.deep_view(),
                    )
                })
            &&& (r matches Ok(v) ==> exists|eff: Seq<Artifact>|
                {
                    &&& eff.len() == sources@.len()
                    &&& forall|i: int|
                        0 <= i < sources@.len() ==> (#[trigger] eff[i]).path == sources@[i].path
                    &&& forall|i: int|
                        0 <= i < sources@.len() ==> is_effective_time(
                            (#[trigger] eff[i]).modified,
                            sources@[i].modified,
                            header_adj_spec(header_texts@, exts.deep_view(), headers@),
                            source_seeds_spec(source_texts@, i, exts.deep_view(), headers@),
                            headers@,
                        )
                    &&& v@ == stale_of(eff, t)
                })
        },
{
    match last_time {
        None => {
            let mut v: Vec<Artifact> = Vec::new();
            let mut i: usize = 0;
            while i < sources.len()
                invariant
                    i <= sources@.len(),
                    v@.len() == i,
                    forall|y: int| 0 <= y < i ==> v@[y] == sources@[y],
                decreases sources@.len() - i,
            {
                v.push(Artifact { path: sources[i].path.clone(), modified: sources[i].modified });
                i = i + 1;
            }
            proof {
                assert(v@ =~= sources@);
            }
            Ok(v)
        },
        Some(t) => {
            let g = match build_dep_graph(sources, headers, source_texts, header_texts, exts) {
                Ok(g) => g,
                Err(e) => {
                    return Err(e);
                },
            };
            let eff = effective_sources(sources, headers, &g);
            let v = filter_stale(&eff, t);
            proof {
                assert(crate::graph::adj_of(g.header_deps@) =~= header_adj_spec(
                    header_texts@,
                    exts.deep_view(),
                    headers@,
                ));
                assert forall|i: int| 0 <= i < sources@.len() implies is_effective_time(
                    (#[trigger] eff@[i]).modified,
                    sources@[i].modified,
                    header_adj_spec(header_texts@, exts.deep_view(), headers@),
                    source_seeds_spec(source_texts@, i, exts.deep_view(), headers@),
                    headers@,
                ) by {
                    assert(crate::graph::int_seq(g.source_deps@[i]@) == source_seeds_spec(
                        source_texts@,
                        i,
                        exts.deep_view(),
                        headers@,
                    ));
                }
            }
            Ok(v)
        },
    }
}

/// Law: idempotence of the build. After a successful build the target
/// artifact was written last, so every source and header carries a
/// modification time at most the build's time `t`, and every object is
/// strictly older than the target. Rebuilding then finds no stale source —
/// every effective time stays at or below `t` — and the link decision
/// reports that linking is skipped.
pub proof fn lemma_idempotent_rebuild(
    sources: Seq<Artifact>,
    headers: Seq<Artifact>,
    eff: Seq<Artifact>,
    h: Seq<Seq<int>>,
    seeds: Seq<Seq<int>>,
    t: u64,
    objects: Seq<Artifact>,
    target_modified: u64,
)
    requires
        eff.len() == sources.len(),
        seeds.len() == sources.len(),
        forall|i: int|
            0 <= i < sources.len() ==> is_effective_time(
                (#[trigger] eff[i]).modified,
                sources[i].modified,
                h,
                seeds[i],
                headers,
            ),
        forall|i: int| 0 <= i < sources.len() ==> (#[trigger] sources[i].modified) <= t,
        forall|j: int| 0 <= j < headers.len() ==> (#[trigger] headers[j].modified) <= t,
        objects.len() > 0,
        forall|k: int| 0 <= k < objects.len() ==> (#[trigger] objects[k].modified) < target_modified,
    ensures
        stale_of(eff, t) == Seq::<Artifact>::empty(),
        target_modified > max_modified(objects),
{
    assert forall|i: int| 0 <= i < eff.len() implies (#[trigger] eff[i].modified) <= t by {
        if eff[i].modified != sources[i].modified {
            let j = choose|j: int|
                0 <= j < headers.len() && crate::stale::reachable(h, seeds[i], j) && eff[i].modified
                    == (#[trigger] headers[j].modified);
            assert(headers[j].modified <= t);
        }
    }
    lemma_stale_of_empty(eff, t);
    lemma_max_modified(objects);
    let k = choose|k: int|
        0 <= k < objects.len() && max_modified(objects) == (#[trigger] objects[k].modified);
    assert(objects[k].modified < target_modified);
}

} // verus!
