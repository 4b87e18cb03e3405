use vstd::prelude::*;

use crate::artifact::{file_name, file_name_spec, Artifact};
use crate::error::Error;
use crate::scan::{header_names, quoted_headers};
use crate::text::str_eq;

verus! {

// Construction of the dependency graph: a directed adjacency list over the
// project's sources and headers, where an edge from a node to a header means
// the node's text quotes that header's file name. Quoted names that match no
// known header are a hard error — an unresolved reference would make any
// later staleness computation unsound.

/// The sequence of `usize` indices as mathematical integers.
pub open spec fn int_seq(s: Seq<usize>) -> Seq<int> {
    s.map_values(|d: usize| d as int)
}

/// An adjacency list as a sequence of sequences of mathematical integers.
pub open spec fn adj_of(g: Seq<Vec<usize>>) -> Seq<Seq<int>> {
    Seq::new(g.len(), |m: int| int_seq(g[m]@))
}

/// The index of the first known header whose file name equals `name`, if
/// any. When headers in different directories share a file name, the first
/// one in discovery order wins.
pub open spec fn resolve_name(name: Seq<char>, headers: Seq<Artifact>) -> Option<int>
    decreases headers.len(),
{
    if headers.len() == 0 {
        None
    } else if file_name_spec(headers[0].path@) == name {
        Some(0int)
    } else {
        match resolve_name(name, headers.drop_first()) {
            Some(i) => Some(i + 1),
            None => None,
        }
    }
}

pub proof fn lemma_resolve_name(name: Seq<char>, headers: Seq<Artifact>)
    ensures
        match resolve_name(name, headers) {
            Some(i) => {
                &&& 0 <= i < headers.len()
                &&& file_name_spec(headers[i].path@) == name
                &&& forall|k: int|
                    0 <= k < i ==> file_name_spec(#[trigger] headers[k].path@) != name
            },
            None => forall|k: int|
                0 <= k < headers.len() ==> file_name_spec(#[trigger] headers[k].path@) != name,
        },
    decreases headers.len(),
{
    if headers.len() == 0 {
    } else if file_name_spec(headers[0].path@) == name {
    } else {
        let hd = headers.drop_first();
        lemma_resolve_name(name, hd);
        match resolve_name(name, headers) {
            Some(i) => {
                assert(resolve_name(name, hd) == Some(i - 1));
                assert(hd[i - 1] == headers[i]);
                assert forall|k: int|
                    0 <= k < i implies file_name_spec(#[trigger] headers[k].path@) != name by {
                    if k > 0 {
                        assert(hd[k - 1] == headers[k]);
                        assert(file_name_spec(hd[k - 1].path@) != name);
                    }
                }
            },
            None => {
                assert forall|k: int|
                    0 <= k < headers.len() implies file_name_spec(#[trigger] headers[k].path@)
                        != name by {
                    if k > 0 {
                        assert(hd[k - 1] == headers[k]);
                        assert(file_name_spec(hd[k - 1].path@) != name);
                    }
                }
            },
        }
    }
}

pub proof fn lemma_resolve_name_at(name: Seq<char>, headers: Seq<Artifact>, j: int)
    requires
        0 <= j < headers.len(),
        file_name_spec(headers[j].path@) == name,
        forall|k: int| 0 <= k < j ==> file_name_spec(#[trigger] headers[k].path@) != name,
    ensures
        resolve_name(name, headers) == Some(j),
{
    lemma_resolve_name(name, headers);
    match resolve_name(name, headers) {
        Some(i) => {
            if i < j {
                assert(file_name_spec(headers[i].path@) != name);
            }
            if j < i {
                assert(file_name_spec(headers[j].path@) != name);
            }
        },
        None => {
            assert(file_name_spec(headers[j].path@) != name);
        },
    }
}

/// Returns the index of the first known header whose file name equals
/// `name`, if any.
pub fn resolve(name: &str, headers: &Vec<Artifact>) -> (r: Option<usize>)
    ensures
        match r {
            Some(j) => resolve_name(name@, headers@) == Some(j as int),
            None => resolve_name(name@, headers@) is None,
        },
{
    let mut j: usize = 0;
    while j < headers.len()
        invariant
            j <= headers@.len(),
            forall|k: int| 0 <= k < j ==> file_name_spec(#[trigger] headers@[k].path@) != name@,
        decreases headers@.len() - j,
    {
        let f = file_name(headers[j].path.as_str());
        if str_eq(f.as_str(), name) {
            proof {
                lemma_resolve_name_at(name@, headers@, j as int);
            }
            return Some(j);
        }
        j = j + 1;
    }
    proof {
        lemma_resolve_name(name@, headers@);
        if resolve_name(name@, headers@) is Some {
            let i = resolve_name(name@, headers@)->Some_0;
            assert(file_name_spec(headers@[i].path@) != name@);
        }
    }
    None
}

/// The header indices that the quoted names resolve to, in quoting order,
/// unresolvable names skipped.
pub open spec fn resolved_deps(names: Seq<Seq<char>>, headers: Seq<Artifact>) -> Seq<int>
    decreases names.len(),
{
    if names.len() == 0 {
        Seq::empty()
    } else {
        let rest = resolved_deps(names.drop_last(), headers);
        match resolve_name(names.last(), headers) {
            Some(i) => rest.push(i),
            None => rest,
        }
    }
}

/// The quoted names that resolve to no known header, in quoting order.
pub open spec fn unresolved_names(names: Seq<Seq<char>>, headers: Seq<Artifact>) -> Seq<Seq<char>>
    decreases names.len(),
{
    if names.len() == 0 {
        Seq::empty()
    } else {
        let rest = unresolved_names(names.drop_last(), headers);
        match resolve_name(names.last(), headers) {
            Some(i) => rest,
            None => rest.push(names.last()),
        }
    }
}

pub proof fn lemma_resolved_deps_bounds(names: Seq<Seq<char>>, headers: Seq<Artifact>)
    ensures
        forall|k: int|
            0 <= k < resolved_deps(names, headers).len() ==> 0 <= #[trigger] resolved_deps(
                names,
                headers,
            )[k] < headers.len(),
    decreases names.len(),
{
    if names.len() > 0 {
        lemma_resolved_deps_bounds(names.drop_last(), headers);
        lemma_resolve_name(names.last(), headers);
        let rest = resolved_deps(names.drop_last(), headers);
        let cur = resolved_deps(names, headers);
        assert forall|k: int| 0 <= k < cur.len() implies 0 <= #[trigger] cur[k] < headers.len() by {
            match resolve_name(names.last(), headers) {
                Some(i) => {
                    if k < rest.len() {
                        assert(cur[k] == rest[k]);
                    } else {
                        assert(cur[k] == i);
                    }
                },
                None => {
                    assert(cur[k] == rest[k]);
                },
            }
        }
    }
}

/// The dependency graph: for every source and every header, the indices of
/// the headers its text quotes, in quoting order. An edge always points
/// into the header list; sources are never quoted.
#[derive(Debug, Clone, PartialEq, Eq)]
pub struct DepGraph {
    pub source_deps: Vec<Vec<usize>>,
    pub header_deps: Vec<Vec<usize>>,
}

impl DepGraph {
    /// Well-formedness: one adjacency row per source and per header, and
    /// every edge target a valid header index.
    pub open spec fn wf(self, n_sources: int, n_headers: int) -> bool {
        &&& self.source_deps@.len() == n_sources
        &&& self.header_deps@.len() == n_headers
        &&& forall|i: int, k: int|
            0 <= i < n_sources && 0 <= k < self.source_deps@[i]@.len()
                ==> (#[trigger] self.source_deps@[i]@[k]) < n_headers
        &&& forall|i: int, k: int|
            0 <= i < n_headers && 0 <= k < self.header_deps@[i]@.len()
                ==> (#[trigger] self.header_deps@[i]@[k]) < n_headers
    }
}

/// The path of combined node `x`: sources come first, then headers.
pub open spec fn node_path(x: int, sources: Seq<Artifact>, headers: Seq<Artifact>) -> Seq<char> {
    if x < sources.len() {
        sources[x].path@
    } else {
        headers[x - sources.len()].path@
    }
}

/// The unresolved quoted names of combined node `x`.
pub open spec fn node_unresolved(
    x: int,
    sources: Seq<Artifact>,
    headers: Seq<Artifact>,
    source_texts: Seq<String>,
    header_texts: Seq<String>,
    exts: Seq<Seq<char>>,
) -> Seq<Seq<char>> {
    if x < sources.len() {
        unresolved_names(header_names(source_texts[x]@, exts), headers)
    } else {
        unresolved_names(header_names(header_texts[x - sources.len()]@, exts), headers)
    }
}

/// Resolves every name against the known headers; returns the resolved
/// indices, or the unresolved names if there is at least one.
fn resolve_all(names: &Vec<String>, headers: &Vec<Artifact>) -> (r: Result<Vec<usize>, Vec<String>>)
    ensures
        match r {
            Ok(deps) => {
                &&& int_seq(deps@) == resolved_deps(names.deep_view(), headers@)
                &&& unresolved_names(names.deep_view(), headers@).len() == 0
            },
            Err(miss) => {
                &&& miss.deep_view() == unresolved_names(names.deep_view(), headers@)
                &&& miss@.len() > 0
            },
        },
{
    let ghost gnames = names.deep_view();
    proof {
        assert forall|k: int| 0 <= k < names@.len() implies gnames[k] == names@[k]@ by {}
    }
    let mut deps: Vec<usize> = Vec::new();
    let mut miss: Vec<String> = Vec::new();
    let mut k: usize = 0;
    proof {
        assert(gnames.subrange(0, 0) =~= Seq::<Seq<char>>::empty());
    }
    while k < names.len()
        invariant
            k <= names@.len(),
            gnames == names.deep_view(),
            gnames.len() == names@.len(),
            forall|m: int| 0 <= m < names@.len() ==> gnames[m] == names@[m]@,
            int_seq(deps@) == resolved_deps(gnames.subrange(0, k as int), headers@),
            miss.deep_view() == unresolved_names(gnames.subrange(0, k as int), headers@),
        decreases names@.len() - k,
    {
        let ghost pre = gnames.subrange(0, k as int);
        let ghost post = gnames.subrange(0, k + 1);
        proof {
            assert(post.drop_last() =~= pre);
            assert(post.last() == gnames[k as int]);
        }
        let name = &names[k];
        let ghost old_miss_deep = miss.deep_view();
        let ghost old_deps = deps@;
        match resolve(name.as_str(), headers) {
            Some(j) => {
                deps.push(j);
                proof {
                    assert(int_seq(deps@) =~= int_seq(old_deps).push(j as int));
                }
            },
            None => {
                miss.push(name.clone());
                proof {
                    assert(miss.deep_view() =~= old_miss_deep.push(gnames[k as int]));
                }
            },
        }
        k = k + 1;
    }
    proof {
        assert(gnames.subrange(0, names@.len() as int) =~= gnames);
    }
    if miss.len() > 0 {
        Err(miss)
    } else {
        Ok(deps)
    }
}

/// Builds the dependency graph for the given sources and headers from their
/// texts. Every quoted name with an extension in `exts` must resolve
/// against the header set; the first node (sources first, then headers, in
/// list order) with unresolved names fails the build with
/// `Error::MissingHeaders`, carrying that node's path and exactly its
/// unresolved names in quoting order.
pub fn build_dep_graph(
    sources: &Vec<Artifact>,
    headers: &Vec<Artifact>,
    source_texts: &Vec<String>,
    header_texts: &Vec<String>,
    exts: &Vec<String>,
) -> (r: Result<DepGraph, Error>)
    requires
        source_texts@.len() == sources@.len(),
        header_texts@.len() == headers@.len(),
    ensures
        match r {
            Ok(g) => {
                &&& g.wf(sources@.len() as int, headers@.len() as int)
                &&& forall|i: int|
                    0 <= i < sources@.len() ==> int_seq(#[trigger] g.source_deps@[i]@)
                        == resolved_deps(
                        header_names(source_texts@[i]@, exts.deep_view()),
                        headers@,
                    )
                &&& forall|i: int|
                    0 <= i < headers@.len() ==> int_seq(#[trigger] g.header_deps@[i]@)
                        == resolved_deps(
                        header_names(header_texts@[i]@, exts.deep_view()),
                        headers@,
                    )
                &&& forall|x: int|
                    0 <= x < sources@.len() + headers@.len() ==> node_unresolved(
                        x,
                        sources@,
                        headers@,
                        source_texts@,
                        header_texts@,
                        exts.deep_view(),
                    ).len() == 0
            },
            Err(e) => exists|x: int|
                {
                    &&& 0 <= x < sources@.len() + headers@.len()
                    &&& (#[trigger] node_unresolved(
                        x,
                        sources@,
                        headers@,
                        source_texts@,
                        header_texts@,
                        exts.deep_view(),
                    )).len() > 0
                    &&& forall|y: int|
                        0 <= y < x ==> node_unresolved(
                            y,
                            sources@,
                            headers@,
                            source_texts@,
                            header_texts@,
                            exts.deep_view(),
                        ).len() == 0
                    &&& e matches Error::MissingHeaders(p, ns) && p@ == node_path(
                        x,
                        sources@,
                        headers@,
                    ) && ns.deep_view() == node_unresolved(
                        x,
                        sources@,
                        headers@,
                        source_texts@,
                        header_texts@,
                        exts.deep_view(),
                    )
                },
        },
{
    let ghost gexts = exts.deep_view();
    let mut source_deps: Vec<Vec<usize>> = Vec::new();
    let mut i: usize = 0;
    while i < sources.len()
        invariant
            i <= sources@.len(),
            gexts == exts.deep_view(),
            source_texts@.len() == sources@.len(),
            header_texts@.len() == headers@.len(),
            source_deps@.len() == i,
            forall|y: int|
                0 <= y < i ==> int_seq(#[trigger] source_deps@[y]@) == resolved_deps(
                    header_names(source_texts@[y]@, gexts),
                    headers@,
                ),
            forall|y: int|
                0 <= y < i ==> unresolved_names(
                    header_names(source_texts@[y]@, gexts),
                    headers@,
                ).len() == 0,
        decreases sources@.len() - i,
    {
        let names = quoted_headers(source_texts[i].as_str(), exts);
        match resolve_all(&names, headers) {
            Ok(deps) => {
                source_deps.push(deps);
            },
            Err(miss) => {
                let e = Error::MissingHeaders(sources[i].path.clone(), miss);
                proof {
                    assert(node_unresolved(
                        i as int,
                        sources@,
                        headers@,
                        source_texts@,
                        header_texts@,
                        gexts,
                    ).len() > 0);
                }
                return Err(e);
            },
        }
        i = i + 1;
    }
    let mut header_deps: Vec<Vec<usize>> = Vec::new();
    let mut m: usize = 0;
    while m < headers.len()
        invariant
            m <= headers@.len(),
            gexts == exts.deep_view(),
            source_texts@.len() == sources@.len(),
            header_texts@.len() == headers@.len(),
            source_deps@.len() == sources@.len(),
            forall|y: int|
                0 <= y < sources@.len() ==> int_seq(#[trigger] source_deps@[y]@) == resolved_deps(
                    header_names(source_texts@[y]@, gexts),
                    headers@,
                ),
            forall|y: int|
                0 <= y < sources@.len() ==> unresolved_names(
                    header_names(source_texts@[y]@, gexts),
                    headers@,
                ).len() == 0,
            header_deps@.len() == m,
            forall|y: int|
                0 <= y < m ==> int_seq(#[trigger] header_deps@[y]@) == resolved_deps(
                    header_names(header_texts@[y]@, gexts),
                    headers@,
                ),
            forall|y: int|
                0 <= y < m ==> unresolved_names(
                    header_names(header_texts@[y]@, gexts),
                    headers@,
                ).len() == 0,
        decreases headers@.len() - m,
    {
        let names = quoted_headers(header_texts[m].as_str(), exts);
        match resolve_all(&names, headers) {
            Ok(deps) => {
                header_deps.push(deps);
            },
            Err(miss) => {
                let e = Error::MissingHeaders(headers[m].path.clone(), miss);
                proof {
                    let x = sources@.len() + m as int;
                    assert(node_unresolved(
                        x,
                        sources@,
                        headers@,
                        source_texts@,
                        header_texts@,
                        gexts,
                    ).len() > 0);
                    assert forall|y: int| 0 <= y < x implies node_unresolved(
                        y,
                        sources@,
                        headers@,
                        source_texts@,
                        header_texts@,
                        gexts,
                    ).len() == 0 by {}
                }
                return Err(e);
            },
        }
        m = m + 1;
    }
    let g = DepGraph { source_deps, header_deps };
    proof {
        assert forall|i2: int, k: int|
            0 <= i2 < sources@.len() && 0 <= k < g.source_deps@[i2]@.len() implies (
        #[trigger] g.source_deps@[i2]@[k]) < headers@.len() by {
            lemma_resolved_deps_bounds(header_names(source_texts@[i2]@, gexts), headers@);
            assert(int_seq(g.source_deps@[i2]@)[k] == g.source_deps@[i2]@[k] as int);
        }
        assert forall|i2: int, k: int|
            0 <= i2 < headers@.len() && 0 <= k < g.header_deps@[i2]@.len() implies (
        #[trigger] g.header_deps@[i2]@[k]) < headers@.len() by {
            lemma_resolved_deps_bounds(header_names(header_texts@[i2]@, gexts), headers@);
            assert(int_seq(g.header_deps@[i2]@)[k] == g.header_deps@[i2]@[k] as int);
        }
    }
    Ok(g)
}

} // verus!
