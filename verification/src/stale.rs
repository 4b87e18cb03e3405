use vstd::prelude::*;
use vstd::pervasive::VecAdditionalExecFns;

use crate::artifact::Artifact;
use crate::graph::{adj_of, int_seq, DepGraph};

verus! {

// Staleness propagation: every source's modification time is raised to the
// maximum time found anywhere in its transitive closure of quoted headers
// (its "effective modification time"), and the sources whose effective time
// exceeds the last successful build's time are the ones that must be
// recompiled.
//
// The traversal marks visited nodes, so a header cycle cannot make it
// revisit a node: termination is proved (the loop's `decreases` measure),
// and the contracts below hold for cyclic graphs as well — nothing here
// assumes acyclicity.

/// Whether header `j` can be reached from the seed set in at most `k` steps
/// along the adjacency list `h`.
pub open spec fn reach_n(h: Seq<Seq<int>>, seeds: Seq<int>, j: int, k: nat) -> bool
    decreases k,
{
    if k == 0 {
        seeds.contains(j)
    } else {
        reach_n(h, seeds, j, (k - 1) as nat) || exists|m: int|
            0 <= m < h.len() && (#[trigger] h[m]).contains(j) && reach_n(h, seeds, m, (k - 1) as nat)
    }
}

/// Whether header `j` is a seed or transitively quoted from one.
pub open spec fn reachable(h: Seq<Seq<int>>, seeds: Seq<int>, j: int) -> bool {
    exists|k: nat| reach_n(h, seeds, j, k)
}

pub proof fn lemma_reach_seed(h: Seq<Seq<int>>, seeds: Seq<int>, j: int)
    requires
        seeds.contains(j),
    ensures
        reachable(h, seeds, j),
{
    assert(reach_n(h, seeds, j, 0));
}

pub proof fn lemma_reach_step(h: Seq<Seq<int>>, seeds: Seq<int>, m: int, j: int)
    requires
        reachable(h, seeds, m),
        0 <= m < h.len(),
        h[m].contains(j),
    ensures
        reachable(h, seeds, j),
{
    let k = choose|k: nat| reach_n(h, seeds, m, k);
    assert(reach_n(h, seeds, j, k + 1));
}

/// If the seeds are all in a set of nodes that is closed under the edges,
/// then everything reachable is in that set. The set is given as a boolean
/// mask over the headers.
pub proof fn lemma_reach_in_visited(
    h: Seq<Seq<int>>,
    seeds: Seq<int>,
    vis: Seq<bool>,
    j: int,
    k: nat,
)
    requires
        vis.len() == h.len(),
        forall|x: int| seeds.contains(x) ==> 0 <= x < vis.len() && vis[x],
        forall|m: int, t: int|
            0 <= m < h.len() && vis[m] && #[trigger] h[m].contains(t) ==> 0 <= t < vis.len()
                && vis[t],
        reach_n(h, seeds, j, k),
    ensures
        0 <= j < vis.len() && vis[j],
    decreases k,
{
    if k == 0 {
        assert(seeds.contains(j));
    } else {
        if reach_n(h, seeds, j, (k - 1) as nat) {
            lemma_reach_in_visited(h, seeds, vis, j, (k - 1) as nat);
        } else {
            let m = choose|m: int|
                0 <= m < h.len() && (#[trigger] h[m]).contains(j) && reach_n(
                    h,
                    seeds,
                    m,
                    (k - 1) as nat,
                );
            lemma_reach_in_visited(h, seeds, vis, m, (k - 1) as nat);
            assert(h[m].contains(j));
        }
    }
}

/// What it means for `r` to be the effective modification time of a source
/// with own time `own` and direct dependencies `seeds` in the header graph
/// `h`: the maximum of `own` and the times of all reachable headers.
pub open spec fn is_effective_time(
    r: u64,
    own: u64,
    h: Seq<Seq<int>>,
    seeds: Seq<int>,
    headers: Seq<Artifact>,
) -> bool {
    &&& r >= own
    &&& forall|j: int|
        0 <= j < headers.len() && reachable(h, seeds, j) ==> r >= (#[trigger] headers[j].modified)
    &&& (r == own || exists|j: int|
        0 <= j < headers.len() && reachable(h, seeds, j) && r == (#[trigger] headers[j].modified))
}

/// Law: the effective modification time is uniquely determined — for any
/// dependency graph, a cyclic one as much as any other, there is exactly
/// one value satisfying its characterization. Together with the proved
/// termination of the traversal below, a header cycle cannot hang
/// propagation nor leave the result undefined.
pub proof fn lemma_effective_time_unique(
    r1: u64,
    r2: u64,
    own: u64,
    h: Seq<Seq<int>>,
    seeds: Seq<int>,
    headers: Seq<Artifact>,
)
    requires
        is_effective_time(r1, own, h, seeds, headers),
        is_effective_time(r2, own, h, seeds, headers),
    ensures
        r1 == r2,
{
    if r2 != own {
        let j = choose|j: int|
            0 <= j < headers.len() && reachable(h, seeds, j) && r2 == (
            #[trigger] headers[j].modified);
        assert(r1 >= headers[j].modified);
    }
    if r1 != own {
        let j = choose|j: int|
            0 <= j < headers.len() && reachable(h, seeds, j) && r1 == (
            #[trigger] headers[j].modified);
        assert(r2 >= headers[j].modified);
    }
}

/// The number of set entries in a boolean mask.
pub open spec fn count_trues(s: Seq<bool>) -> nat
    decreases s.len(),
{
    if s.len() == 0 {
        0
    } else {
        count_trues(s.drop_last()) + if s.last() {
            1nat
        } else {
            0nat
        }
    }
}

proof fn lemma_count_trues_le(s: Seq<bool>)
    ensures
        count_trues(s) <= s.len(),
    decreases s.len(),
{
    if s.len() > 0 {
        lemma_count_trues_le(s.drop_last());
    }
}

proof fn lemma_count_trues_update(s: Seq<bool>, j: int)
    requires
        0 <= j < s.len(),
        !s[j],
    ensures
        count_trues(s.update(j, true)) == count_trues(s) + 1,
    decreases s.len(),
{
    let s2 = s.update(j, true);
    if j == s.len() - 1 {
        assert(s2.drop_last() =~= s.drop_last());
    } else {
        assert(s2.drop_last() =~= s.drop_last().update(j, true));
        lemma_count_trues_update(s.drop_last(), j);
    }
}

/// Appends every element of `src` to `dst`.
fn push_all(dst: &mut Vec<usize>, src: &Vec<usize>)
    ensures
        final(dst)@ == old(dst)@ + src@,
{
    proof {
        assert(old(dst)@ + src@.subrange(0, 0) =~= old(dst)@);
    }
    let mut k: usize = 0;
    while k < src.len()
        invariant
            k <= src@.len(),
            dst@ == old(dst)@ + src@.subrange(0, k as int),
        decreases src@.len() - k,
    {
        dst.push(src[k]);
        proof {
            assert(old(dst)@ + src@.subrange(0, k + 1) =~= (old(dst)@ + src@.subrange(
                0,
                k as int,
            )).push(src@[k as int]));
        }
        k = k + 1;
    }
    proof {
        assert(src@.subrange(0, src@.len() as int) =~= src@);
    }
}

/// Computes the effective modification time of one source: the maximum of
/// its own time and the times of every header reachable from its direct
/// dependencies `seeds`, by an iterative depth-first traversal that visits
/// every node at most once — a header cycle terminates like any other
/// graph.
pub fn effective_time(
    own: u64,
    seeds: &Vec<usize>,
    header_deps: &Vec<Vec<usize>>,
    headers: &Vec<Artifact>,
) -> (r: u64)
    requires
        header_deps@.len() == headers@.len(),
        forall|k: int| 0 <= k < seeds@.len() ==> (#[trigger] seeds@[k]) < headers@.len(),
        forall|m: int, k: int|
            0 <= m < header_deps@.len() && 0 <= k < header_deps@[m]@.len() ==> (
            #[trigger] header_deps@[m]@[k]) < headers@.len(),
    ensures
        is_effective_time(r, own, adj_of(header_deps@), int_seq(seeds@), headers@),
{
    let h = headers.len();
    let ghost gh = adj_of(header_deps@);
    let ghost gseeds = int_seq(seeds@);
    let mut visited: Vec<bool> = Vec::new();
    let mut z: usize = 0;
    while z < h
        invariant
            visited@.len() == z,
            z <= h,
            forall|t: int| 0 <= t < z ==> !(#[trigger] visited@[t]),
        decreases h - z,
    {
        visited.push(false);
        z = z + 1;
    }
    let mut visited_count: usize = 0;
    let mut maxt: u64 = own;
    let mut stack: Vec<usize> = Vec::new();
    push_all(&mut stack, seeds);
    proof {
        lemma_count_trues_le(visited@);
        assert(count_trues(visited@) == 0) by {
            lemma_count_all_false(visited@);
        }
        assert forall|p: int| 0 <= p < stack@.len() implies reachable(
            gh,
            gseeds,
            stack@[p] as int,
        ) by {
            assert(gseeds[p] == stack@[p] as int);
            lemma_reach_seed(gh, gseeds, stack@[p] as int);
        }
    }
    while stack.len() > 0
        invariant
            headers@.len() == h,
            header_deps@.len() == h,
            gh == adj_of(header_deps@),
            gseeds == int_seq(seeds@),
            gh.len() == h,
            forall|k: int| 0 <= k < seeds@.len() ==> (#[trigger] seeds@[k]) < h,
            forall|m: int, k: int|
                0 <= m < h && 0 <= k < header_deps@[m]@.len() ==> (
                #[trigger] header_deps@[m]@[k]) < h,
            visited@.len() == h,
            visited_count == count_trues(visited@),
            visited_count <= h,
            forall|p: int| 0 <= p < stack@.len() ==> (#[trigger] stack@[p]) < h,
            forall|p: int|
                0 <= p < stack@.len() ==> reachable(gh, gseeds, (#[trigger] stack@[p]) as int),
            forall|t: int| 0 <= t < h && visited@[t] ==> reachable(gh, gseeds, t),
            forall|k: int|
                0 <= k < seeds@.len() ==> visited@[(#[trigger] seeds@[k]) as int]
                    || stack@.contains(seeds@[k]),
            forall|m: int, k: int|
                0 <= m < h && visited@[m] && 0 <= k < header_deps@[m]@.len() ==> visited@[(
                #[trigger] header_deps@[m]@[k]) as int] || stack@.contains(header_deps@[m]@[k]),
            maxt >= own,
            forall|t: int| 0 <= t < h && visited@[t] ==> maxt >= (#[trigger] headers@[t].modified),
            maxt == own || exists|t: int|
                0 <= t < h && (#[trigger] visited@[t]) && maxt == headers@[t].modified,
        decreases h - visited_count, stack@.len(),
    {
        let ghost old_stack = stack@;
        let ghost old_vis = visited@;
        let j = stack.pop().unwrap();
        proof {
            assert(old_stack == stack@.push(j));
            assert(j < h);
        }
        if !visited[j] {
            proof {
                lemma_count_trues_update(visited@, j as int);
            }
            visited.set(j, true);
            proof {
                lemma_count_trues_le(visited@);
            }
            visited_count = visited_count + 1;
            let ghost old_maxt = maxt;
            if headers[j].modified > maxt {
                maxt = headers[j].modified;
            }
            proof {
                assert(maxt == own || exists|t: int|
                    0 <= t < h && (#[trigger] visited@[t]) && maxt == headers@[t].modified) by {
                    if maxt == headers@[j as int].modified {
                        assert(0 <= j < h && visited@[j as int]);
                    } else if old_maxt != own {
                        let t = choose|t: int|
                            0 <= t < h && (#[trigger] old_vis[t]) && old_maxt == headers@[t].modified;
                        assert(visited@[t]);
                    }
                }
            }
            let ghost mid_stack = stack@;
            push_all(&mut stack, &header_deps[j]);
            proof {
                let deps = header_deps@[j as int]@;
                assert(stack@ == mid_stack + deps);
                // every pushed dependency is an edge of a reachable node
                assert forall|p: int| 0 <= p < stack@.len() implies reachable(
                    gh,
                    gseeds,
                    (#[trigger] stack@[p]) as int,
                ) by {
                    if p < mid_stack.len() {
                        assert(old_stack[p] == stack@[p]);
                    } else {
                        let t = deps[p - mid_stack.len()];
                        assert(stack@[p] == t);
                        assert(gh[j as int] == int_seq(deps));
                        assert(int_seq(deps)[p - mid_stack.len()] == t as int);
                        assert(gh[j as int].contains(t as int));
                        lemma_reach_step(gh, gseeds, j as int, t as int);
                    }
                }
                assert forall|p: int| 0 <= p < stack@.len() implies (#[trigger] stack@[p]) < h by {
                    if p < mid_stack.len() {
                        assert(old_stack[p] == stack@[p]);
                    } else {
                        assert(stack@[p] == deps[p - mid_stack.len()]);
                    }
                }
                // seeds stay covered
                assert forall|k: int| 0 <= k < seeds@.len() implies visited@[(
                #[trigger] seeds@[k]) as int] || stack@.contains(seeds@[k]) by {
                    let x = seeds@[k];
                    if x == j {
                    } else if !old_vis[x as int] {
                        let p = choose|p: int| 0 <= p < old_stack.len() && old_stack[p] == x;
                        assert(p < mid_stack.len());
                        assert(stack@[p] == x);
                    }
                }
                // the closure front moves from j to its dependencies
                assert forall|m: int, k: int|
                    0 <= m < h && visited@[m] && 0 <= k < header_deps@[m]@.len() implies visited@[(
                #[trigger] header_deps@[m]@[k]) as int] || stack@.contains(
                    header_deps@[m]@[k],
                ) by {
                    let t = header_deps@[m]@[k];
                    if m == j as int {
                        assert(stack@[mid_stack.len() + k] == deps[k]);
                    } else {
                        assert(old_vis[m]);
                        if t as int == j as int {
                        } else if !old_vis[t as int] {
                            let p = choose|p: int| 0 <= p < old_stack.len() && old_stack[p] == t;
                            assert(p < mid_stack.len());
                            assert(stack@[p] == t);
                        }
                    }
                }
            }
        } else {
            proof {
                // dropping one copy of an already visited node keeps everything
                assert forall|k: int| 0 <= k < seeds@.len() implies visited@[(
                #[trigger] seeds@[k]) as int] || stack@.contains(seeds@[k]) by {
                    let x = seeds@[k];
                    if !visited@[x as int] {
                        let p = choose|p: int| 0 <= p < old_stack.len() && old_stack[p] == x;
                        assert(x != j);
                        assert(p < stack@.len());
                        assert(stack@[p] == x);
                    }
                }
                assert forall|m: int, k: int|
                    0 <= m < h && visited@[m] && 0 <= k < header_deps@[m]@.len() implies visited@[(
                #[trigger] header_deps@[m]@[k]) as int] || stack@.contains(
                    header_deps@[m]@[k],
                ) by {
                    let t = header_deps@[m]@[k];
                    if !visited@[t as int] {
                        let p = choose|p: int| 0 <= p < old_stack.len() && old_stack[p] == t;
                        assert(t != j);
                        assert(p < stack@.len());
                        assert(stack@[p] == t);
                    }
                }
            }
        }
    }
    proof {
        assert forall|x: int| gseeds.contains(x) implies 0 <= x < visited@.len() && visited@[x] by {
            let k = choose|k: int| 0 <= k < gseeds.len() && gseeds[k] == x;
            assert(gseeds[k] == seeds@[k] as int);
            assert(!stack@.contains(seeds@[k]));
        }
        assert forall|m: int, t: int|
            0 <= m < gh.len() && visited@[m] && #[trigger] gh[m].contains(t) implies 0 <= t
            < visited@.len() && visited@[t] by {
            let deps = header_deps@[m]@;
            assert(gh[m] == int_seq(deps));
            let k = choose|k: int| 0 <= k < int_seq(deps).len() && int_seq(deps)[k] == t;
            assert(deps[k] as int == t);
            assert(!stack@.contains(deps[k]));
        }
        assert forall|j: int|
            0 <= j < headers@.len() && reachable(gh, gseeds, j) implies maxt >= (
        #[trigger] headers@[j].modified) by {
            let k = choose|k: nat| reach_n(gh, gseeds, j, k);
            lemma_reach_in_visited(gh, gseeds, visited@, j, k);
        }
    }
    maxt
}

proof fn lemma_count_all_false(s: Seq<bool>)
    requires
        forall|t: int| 0 <= t < s.len() ==> !(#[trigger] s[t]),
    ensures
        count_trues(s) == 0,
    decreases s.len(),
{
    if s.len() > 0 {
        lemma_count_all_false(s.drop_last());
    }
}

/// Rewrites every source's modification time to its effective modification
/// time under the dependency graph. Paths are kept; only times change.
pub fn effective_sources(
    sources: &Vec<Artifact>,
    headers: &Vec<Artifact>,
    g: &DepGraph,
) -> (r: Vec<Artifact>)
    requires
        g.wf(sources@.len() as int, headers@.len() as int),
    ensures
        r@.len() == sources@.len(),
        forall|i: int| 0 <= i < sources@.len() ==> (#[trigger] r@[i]).path == sources@[i].path,
        forall|i: int|
            0 <= i < sources@.len() ==> is_effective_time(
                (#[trigger] r@[i]).modified,
                sources@[i].modified,
                adj_of(g.header_deps@),
                int_seq(g.source_deps@[i]@),
                headers@,
            ),
{
    let mut r: Vec<Artifact> = Vec::new();
    let mut i: usize = 0;
    while i < sources.len()
        invariant
            i <= sources@.len(),
            g.wf(sources@.len() as int, headers@.len() as int),
            r@.len() == i,
            forall|y: int| 0 <= y < i ==> (#[trigger] r@[y]).path == sources@[y].path,
            forall|y: int|
                0 <= y < i ==> is_effective_time(
                    (#[trigger] r@[y]).modified,
                    sources@[y].modified,
                    adj_of(g.header_deps@),
                    int_seq(g.source_deps@[y]@),
                    headers@,
                ),
        decreases sources@.len() - i,
    {
        let e = effective_time(sources[i].modified, &g.source_deps[i], &g.header_deps, headers);
        r.push(Artifact { path: sources[i].path.clone(), modified: e });
        i = i + 1;
    }
    r
}

/// The sources whose modification time strictly exceeds `t`, in order.
pub open spec fn stale_of(list: Seq<Artifact>, t: u64) -> Seq<Artifact>
    decreases list.len(),
{
    if list.len() == 0 {
        Seq::empty()
    } else {
        let rest = stale_of(list.drop_last(), t);
        if list.last().modified > t {
            rest.push(list.last())
        } else {
            rest
        }
    }
}

/// Keeps the sources whose (effective) modification time strictly exceeds
/// the last successful build's time: those are the stale ones.
pub fn filter_stale(list: &Vec<Artifact>, last_time: u64) -> (r: Vec<Artifact>)
    ensures
        r@ == stale_of(list@, last_time),
{
    let mut r: Vec<Artifact> = Vec::new();
    let mut i: usize = 0;
    while i < list.len()
        invariant
            i <= list@.len(),
            r@ == stale_of(list@.subrange(0, i as int), last_time),
        decreases list@.len() - i,
    {
        if list[i].modified > last_time {
            r.push(Artifact { path: list[i].path.clone(), modified: list[i].modified });
            proof {
                assert(Artifact { path: list@[i as int].path, modified: list@[i as int].modified }
                    == list@[i as int]);
            }
        }
        proof {
            assert(list@.subrange(0, i + 1).drop_last() =~= list@.subrange(0, i as int));
            assert(list@.subrange(0, i + 1).last() == list@[i as int]);
        }
        i = i + 1;
    }
    proof {
        assert(list@.subrange(0, list@.len() as int) =~= list@);
    }
    r
}

/// If nothing's effective time exceeds `t`, nothing is stale.
pub proof fn lemma_stale_of_empty(list: Seq<Artifact>, t: u64)
    requires
        forall|i: int| 0 <= i < list.len() ==> (#[trigger] list[i].modified) <= t,
    ensures
        stale_of(list, t) == Seq::<Artifact>::empty(),
    decreases list.len(),
{
    if list.len() > 0 {
        assert forall|i: int|
            0 <= i < list.drop_last().len() implies (#[trigger] list.drop_last()[i].modified)
            <= t by {
            assert(list.drop_last()[i] == list[i]);
        }
        lemma_stale_of_empty(list.drop_last(), t);
        assert(list.last().modified <= t);
    }
}

/// Law: a header quoted directly by a source propagates its timestamp.
/// If header `j` is one of the source's direct dependencies and was touched
/// after the last build (`t`), the source's effective time exceeds `t`, so
/// the source is recompiled even though its own text is untouched.
pub proof fn lemma_header_propagation(
    e: u64,
    own: u64,
    h: Seq<Seq<int>>,
    seeds: Seq<int>,
    headers: Seq<Artifact>,
    j: int,
    t: u64,
)
    requires
        is_effective_time(e, own, h, seeds, headers),
        0 <= j < headers.len(),
        seeds.contains(j),
        headers[j].modified > t,
    ensures
        e > t,
{
    lemma_reach_seed(h, seeds, j);
}

/// Law: propagation is transitive. Any header reachable through the quoted
/// header graph — however many hops away — that was touched after the last
/// build (`t`) makes the source's effective time exceed `t`.
pub proof fn lemma_transitive_propagation(
    e: u64,
    own: u64,
    h: Seq<Seq<int>>,
    seeds: Seq<int>,
    headers: Seq<Artifact>,
    j: int,
    t: u64,
)
    requires
        is_effective_time(e, own, h, seeds, headers),
        0 <= j < headers.len(),
        reachable(h, seeds, j),
        headers[j].modified > t,
    ensures
        e > t,
{
}

} // verus!
