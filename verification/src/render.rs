//! The renderer: a depth-first walk of the graph that writes one line for
//! each node it comes to.

use vstd::prelude::*;
use crate::duplicates::{find_duplicates, is_duplicate, law_sorted_list_is_unique, strictly_sorted};
use crate::exposure::{ExposureStatus, PackageReport};
use crate::format::{
    decimal, decimal_text, expand, format_node, line_prefix, prefix_text, Charset, Prefix,
};
use crate::graph::{DependencyGraph, Edge};
use crate::identity::{identities, IdentityView, PackageIdentity};

verus! {

/// How a graph is rendered.
#[derive(Debug)]
pub struct RenderOptions {
    /// Walk the edges backwards: from a package to those that depend on it.
    pub invert: bool,
    /// Expand a package wherever the walk comes to it, and not only where it
    /// comes to it first.
    pub show_all: bool,
    pub prefix: Prefix,
    pub charset: Charset,
    /// The template of a node, see [`crate::format::expand`].
    pub format: String,
    /// Walk from each duplicate package in place of the root.
    pub duplicates_only: bool,
}

/// What a status reads as in a line: the count in decimal, or `!` where the
/// analysis of the package failed.
pub open spec fn status_text(status: ExposureStatus) -> Seq<char> {
    match status {
        ExposureStatus::Counted(count) => decimal_text(count as nat),
        ExposureStatus::ParseError(_) => seq!['!'],
    }
}

/// What the reports from `i` on say of the exposure of `id`: the status of the
/// first report on it, or `?` where there is none.
pub open spec fn count_text_from(reports: Seq<PackageReport>, i: int, id: IdentityView) -> Seq<char>
    decreases reports.len() - i,
{
    if i < 0 || i >= reports.len() {
        seq!['?']
    } else if reports[i].package@ == id {
        status_text(reports[i].status)
    } else {
        count_text_from(reports, i + 1, id)
    }
}

/// What the reports say of the exposure of `id`.
pub open spec fn count_text(reports: Seq<PackageReport>, id: IdentityView) -> Seq<char> {
    count_text_from(reports, 0, id)
}

/// Writes what the reports say of the exposure of `id`.
pub fn exposure_text(reports: &Vec<PackageReport>, id: &PackageIdentity) -> (text: String)
    ensures
        text@ == count_text(reports@, id@),
{
    proof {
        reveal_strlit("!");
        reveal_strlit("?");
    }
    let mut i: usize = 0;
    while i < reports.len()
        invariant
            i <= reports.len(),
            "!"@ == seq!['!'],
            count_text_from(reports@, i as int, id@) == count_text(reports@, id@),
        decreases reports.len() - i,
    {
        if reports[i].package.same(id) {
            return match &reports[i].status {
                ExposureStatus::Counted(count) => decimal(*count),
                ExposureStatus::ParseError(_) => "!".to_owned(),
            };
        }
        i += 1;
    }
    "?".to_owned()
}

/// The nodes that the walk goes on to from `h`, in the order of the edges:
/// the nodes that `h` depends on, or, walking backwards, those that depend on
/// `h`.
pub open spec fn children(edges: Seq<Edge>, h: int, invert: bool) -> Seq<int>
    decreases edges.len(),
{
    if edges.len() == 0 {
        Seq::empty()
    } else {
        let front = children(edges.drop_last(), h, invert);
        let edge = edges.last();
        if !invert && edge.from == h {
            front.push(edge.to as int)
        } else if invert && edge.to == h {
            front.push(edge.from as int)
        } else {
            front
        }
    }
}

/// What a list of handles says, as numbers.
pub open spec fn handles(list: Seq<usize>) -> Seq<int> {
    list.map_values(|h: usize| h as int)
}

/// The nodes that the walk goes on to from `h`.
pub fn child_handles(graph: &DependencyGraph, h: usize, invert: bool) -> (kids: Vec<usize>)
    ensures
        handles(kids@) == children(graph.edge_list(), h as int, invert),
        forall|k: int| 0 <= k < kids.len() ==> (#[trigger] kids[k]) < graph.node_ids().len(),
{
    let edges = graph.edges();
    let mut kids: Vec<usize> = Vec::new();
    let mut i: usize = 0;
    assert(edges@.take(0) =~= Seq::<Edge>::empty());
    assert(handles(kids@) =~= Seq::<int>::empty());
    while i < edges.len()
        invariant
            i <= edges.len(),
            edges@ == graph.edge_list(),
            forall|k: int|
                0 <= k < edges.len() ==> (#[trigger] edges[k]).from < graph.node_ids().len()
                    && edges[k].to < graph.node_ids().len(),
            handles(kids@) == children(edges@.take(i as int), h as int, invert),
            forall|k: int| 0 <= k < kids.len() ==> (#[trigger] kids[k]) < graph.node_ids().len(),
        decreases edges.len() - i,
    {
        let ghost before = kids@;
        let edge = edges[i];
        proof {
            let next = edges@.take(i + 1);
            assert(next.drop_last() =~= edges@.take(i as int));
            assert(next.last() == edges@[i as int]);
        }
        if !invert && edge.from == h {
            kids.push(edge.to);
            assert(handles(kids@) =~= handles(before).push(edge.to as int));
        } else if invert && edge.to == h {
            kids.push(edge.from);
            assert(handles(kids@) =~= handles(before).push(edge.from as int));
        }
        i += 1;
    }
    assert(edges@.take(i as int) =~= edges@);
    kids
}

/// The line of the node `h`. A node that the walk has come to before is
/// marked with a star.
pub open spec fn line_text(
    graph: DependencyGraph,
    reports: Seq<PackageReport>,
    options: RenderOptions,
    h: int,
    levels: Seq<bool>,
    repeated: bool,
) -> Seq<char> {
    let id = graph.node_ids()[h];
    prefix_text(options.prefix, levels, options.charset) + expand(
        options.format@,
        id,
        count_text(reports, id),
    ) + if repeated {
        seq![' ', '(', '*', ')']
    } else {
        Seq::empty()
    }
}

/// What a walk has written, and which nodes it holds as visited.
pub ghost struct Walk {
    pub lines: Seq<Seq<char>>,
    pub visited: Seq<bool>,
}

/// The walk from the node `h`: its line, and below it the walks from its
/// children, unless the node is held as visited or the walk is `depth` levels
/// deep already. Where every occurrence is to be shown, the visited nodes are
/// those on the way from the root of the walk to the node, so that only a
/// cycle is cut short; else they are all the nodes that were written before.
pub open spec fn walk_node(
    graph: DependencyGraph,
    reports: Seq<PackageReport>,
    options: RenderOptions,
    h: int,
    levels: Seq<bool>,
    visited: Seq<bool>,
    depth: nat,
) -> Walk
    decreases depth, 0nat,
{
    let line = line_text(graph, reports, options, h, levels, visited[h]);
    if visited[h] || depth == 0 {
        Walk { lines: seq![line], visited }
    } else {
        let below = walk_children(
            graph,
            reports,
            options,
            children(graph.edge_list(), h, options.invert),
            0,
            levels,
            visited.update(h, true),
            (depth - 1) as nat,
        );
        Walk {
            lines: seq![line] + below.lines,
            visited: if options.show_all {
                visited
            } else {
                below.visited
            },
        }
    }
}

/// The walks from the children from the `k`-th on, one after the other.
pub open spec fn walk_children(
    graph: DependencyGraph,
    reports: Seq<PackageReport>,
    options: RenderOptions,
    kids: Seq<int>,
    k: int,
    levels: Seq<bool>,
    visited: Seq<bool>,
    depth: nat,
) -> Walk
    decreases depth, 1 + kids.len() - k,
{
    if k < 0 || k >= kids.len() {
        Walk { lines: Seq::empty(), visited }
    } else {
        let first = walk_node(
            graph,
            reports,
            options,
            kids[k],
            levels.push(k + 1 < kids.len()),
            visited,
            depth,
        );
        let rest = walk_children(graph, reports, options, kids, k + 1, levels, first.visited, depth);
        Walk { lines: first.lines + rest.lines, visited: rest.visited }
    }
}

/// What a list of lines says, line by line.
pub open spec fn texts(lines: Seq<String>) -> Seq<Seq<char>> {
    lines.map_values(|line: String| line@)
}

/// Walks from the node `h` and adds the lines to `out`.
fn write_node(
    graph: &DependencyGraph,
    reports: &Vec<PackageReport>,
    options: &RenderOptions,
    h: usize,
    levels: &mut Vec<bool>,
    visited: &mut Vec<bool>,
    depth: usize,
    out: &mut Vec<String>,
)
    requires
        h < graph.node_ids().len(),
        old(visited).len() == graph.node_ids().len(),
    ensures
        final(levels)@ == old(levels)@,
        final(visited).len() == old(visited).len(),
        final(visited)@ == walk_node(
            *graph,
            reports@,
            *options,
            h as int,
            old(levels)@,
            old(visited)@,
            depth as nat,
        ).visited,
        texts(final(out)@) == texts(old(out)@) + walk_node(
            *graph,
            reports@,
            *options,
            h as int,
            old(levels)@,
            old(visited)@,
            depth as nat,
        ).lines,
    decreases depth, 0nat,
{
    proof {
        reveal_strlit(" (*)");
    }
    let ghost out_before = texts(out@);
    let ghost visited_before = visited@;
    let nodes = graph.nodes();
    let id = &nodes[h];
    assert(identities(nodes@)[h as int] == id@);
    let repeated = visited[h];
    let count = exposure_text(reports, id);
    let mut line = line_prefix(options.prefix, levels, options.charset);
    let node = format_node(options.format.as_str(), id, count.as_str());
    line.append(node.as_str());
    if repeated {
        line.append(" (*)");
    }
    proof {
        assert(line@ =~= line_text(*graph, reports@, *options, h as int, levels@, repeated));
    }
    let ghost written = line@;
    out.push(line);
    proof {
        assert(texts(out@) =~= out_before + seq![written]);
    }
    if !repeated && depth > 0 {
        visited.set(h, true);
        let kids = child_handles(graph, h, options.invert);
        write_children(graph, reports, options, &kids, 0, levels, visited, depth - 1, out);
        if options.show_all {
            proof {
                lemma_show_all_restores(
                    *graph,
                    reports@,
                    *options,
                    handles(kids@),
                    0,
                    levels@,
                    visited_before.update(h as int, true),
                    (depth - 1) as nat,
                );
            }
            visited.set(h, false);
            assert(visited@ =~= visited_before);
        }
        proof {
            let below = walk_children(
                *graph,
                reports@,
                *options,
                handles(kids@),
                0,
                levels@,
                visited_before.update(h as int, true),
                (depth - 1) as nat,
            );
            assert(texts(out@) =~= out_before + (seq![written] + below.lines));
        }
    }
}

/// Walks from the children from the `k`-th on and adds the lines to `out`.
fn write_children(
    graph: &DependencyGraph,
    reports: &Vec<PackageReport>,
    options: &RenderOptions,
    kids: &Vec<usize>,
    k: usize,
    levels: &mut Vec<bool>,
    visited: &mut Vec<bool>,
    depth: usize,
    out: &mut Vec<String>,
)
    requires
        k <= kids.len(),
        forall|j: int| 0 <= j < kids.len() ==> (#[trigger] kids[j]) < graph.node_ids().len(),
        old(visited).len() == graph.node_ids().len(),
    ensures
        final(levels)@ == old(levels)@,
        final(visited).len() == old(visited).len(),
        final(visited)@ == walk_children(
            *graph,
            reports@,
            *options,
            handles(kids@),
            k as int,
            old(levels)@,
            old(visited)@,
            depth as nat,
        ).visited,
        texts(final(out)@) == texts(old(out)@) + walk_children(
            *graph,
            reports@,
            *options,
            handles(kids@),
            k as int,
            old(levels)@,
            old(visited)@,
            depth as nat,
        ).lines,
    decreases depth, 1 + kids.len() - k,
{
    let ghost out_before = texts(out@);
    let ghost levels_before = levels@;
    let ghost visited_before = visited@;
    if k < kids.len() {
        levels.push(k + 1 < kids.len());
        write_node(graph, reports, options, kids[k], levels, visited, depth, out);
        levels.pop();
        assert(levels@ =~= levels_before);
        let ghost out_mid = texts(out@);
        write_children(graph, reports, options, kids, k + 1, levels, visited, depth, out);
        proof {
            let first = walk_node(
                *graph,
                reports@,
                *options,
                handles(kids@)[k as int],
                levels_before.push(k + 1 < kids.len()),
                visited_before,
                depth as nat,
            );
            let rest = walk_children(
                *graph,
                reports@,
                *options,
                handles(kids@),
                k + 1,
                levels_before,
                first.visited,
                depth as nat,
            );
            assert(texts(out@) =~= out_before + (first.lines + rest.lines));
        }
    } else {
        assert(texts(out@) =~= out_before + Seq::<Seq<char>>::empty());
    }
}

/// Where every occurrence is shown, the walks from the children leave the
/// visited nodes as they found them.
proof fn lemma_show_all_restores(
    graph: DependencyGraph,
    reports: Seq<PackageReport>,
    options: RenderOptions,
    kids: Seq<int>,
    k: int,
    levels: Seq<bool>,
    visited: Seq<bool>,
    depth: nat,
)
    requires
        options.show_all,
    ensures
        walk_children(graph, reports, options, kids, k, levels, visited, depth).visited == visited,
    decreases kids.len() - k,
{
    if 0 <= k < kids.len() {
        let first = walk_node(
            graph,
            reports,
            options,
            kids[k],
            levels.push(k + 1 < kids.len()),
            visited,
            depth,
        );
        assert(first.visited == visited);
        lemma_show_all_restores(graph, reports, options, kids, k + 1, levels, visited, depth);
    }
}

/// The duplicates of a list of identities in the order of identities.
pub open spec fn sorted_duplicates(ids: Seq<IdentityView>) -> Seq<IdentityView> {
    choose|list: Seq<IdentityView>|
        strictly_sorted(list) && forall|id: IdentityView|
            list.contains(id) <==> is_duplicate(ids, id)
}

/// The nodes that the walks start from: the first node, which is the root of
/// a graph that was built from one; or each duplicate in the order of
/// identities.
pub open spec fn seeds(graph: DependencyGraph, options: RenderOptions) -> Seq<int> {
    let ids = graph.node_ids();
    if options.duplicates_only {
        sorted_duplicates(ids).map_values(|id: IdentityView| ids.index_of(id))
    } else if ids.len() > 0 {
        seq![0int]
    } else {
        Seq::empty()
    }
}

/// The lines of the walks from the seeds from the `k`-th on. Each walk starts
/// with no node visited, and goes no deeper than the graph has nodes.
pub open spec fn walks_from(
    graph: DependencyGraph,
    reports: Seq<PackageReport>,
    options: RenderOptions,
    starts: Seq<int>,
    k: int,
) -> Seq<Seq<char>>
    decreases starts.len() - k,
{
    if k < 0 || k >= starts.len() {
        Seq::empty()
    } else {
        let n = graph.node_ids().len();
        walk_node(
            graph,
            reports,
            options,
            starts[k],
            Seq::empty(),
            Seq::new(n, |i: int| false),
            n,
        ).lines + walks_from(graph, reports, options, starts, k + 1)
    }
}

/// The lines of the rendering.
pub open spec fn rendered_lines(
    graph: DependencyGraph,
    reports: Seq<PackageReport>,
    options: RenderOptions,
) -> Seq<Seq<char>> {
    walks_from(graph, reports, options, seeds(graph, options), 0)
}

/// The lines as one text, each ended by a line feed.
pub open spec fn join_lines(lines: Seq<Seq<char>>) -> Seq<char>
    decreases lines.len(),
{
    if lines.len() == 0 {
        Seq::empty()
    } else {
        join_lines(lines.drop_last()) + lines.last() + seq!['\n']
    }
}

/// The nodes that the walks start from.
pub fn seed_handles(graph: &DependencyGraph, options: &RenderOptions) -> (starts: Vec<usize>)
    ensures
        handles(starts@) == seeds(*graph, *options),
        forall|k: int| 0 <= k < starts.len() ==> (#[trigger] starts[k]) < graph.node_ids().len(),
{
    let nodes = graph.nodes();
    let ghost ids = graph.node_ids();
    let mut starts: Vec<usize> = Vec::new();
    if options.duplicates_only {
        let duplicates = find_duplicates(graph);
        let ghost list = identities(duplicates@);
        proof {
            law_sorted_list_is_unique(list, sorted_duplicates(ids));
        }
        let mut k: usize = 0;
        assert(handles(starts@) =~= list.take(0).map_values(|id: IdentityView| ids.index_of(id)));
        while k < duplicates.len()
            invariant
                k <= duplicates.len(),
                ids == graph.node_ids(),
                ids.no_duplicates(),
                list == identities(duplicates@),
                forall|id: IdentityView| list.contains(id) <==> is_duplicate(ids, id),
                handles(starts@) == list.take(k as int).map_values(
                    |id: IdentityView| ids.index_of(id),
                ),
                forall|j: int| 0 <= j < starts.len() ==> (#[trigger] starts[j]) < ids.len(),
            decreases duplicates.len() - k,
        {
            let ghost before = starts@;
            proof {
                assert(list.contains(list[k as int]));
                assert(is_duplicate(ids, list[k as int]));
            }
            match graph.find_node(&duplicates[k]) {
                Some(h) => {
                    starts.push(h);
                    proof {
                        let id = list[k as int];
                        let chosen = ids.index_of(id);
                        assert(ids[h as int] == id);
                        assert(chosen == h);
                        assert(handles(starts@) =~= handles(before).push(h as int));
                        assert(list.take(k + 1).map_values(|id: IdentityView| ids.index_of(id))
                            =~= list.take(k as int).map_values(
                            |id: IdentityView| ids.index_of(id),
                        ).push(chosen));
                    }
                },
                None => {
                    proof {
                        let h = choose|h: int|
                            0 <= h < ids.len() && #[trigger] ids[h] == list[k as int]
                                && crate::duplicates::shares_name(ids, h);
                        assert(ids.contains(list[k as int]));
                        assert(false);
                    }
                },
            }
            k += 1;
        }
        assert(list.take(k as int) =~= list);
    } else if nodes.len() > 0 {
        starts.push(0);
        assert(handles(starts@) =~= seq![0int]);
    } else {
        assert(handles(starts@) =~= Seq::<int>::empty());
    }
    starts
}

/// Renders the graph line by line: the walk from the root, or, where only
/// duplicates are asked for, the walks from each of them.
pub fn render_lines(graph: &DependencyGraph, counts: &Vec<PackageReport>, options: &RenderOptions) -> (lines:
    Vec<String>)
    ensures
        texts(lines@) == rendered_lines(*graph, counts@, *options),
{
    let starts = seed_handles(graph, options);
    let n = graph.nodes().len();
    let mut lines: Vec<String> = Vec::new();
    assert(texts(lines@) =~= Seq::<Seq<char>>::empty());
    let mut done: usize = 0;
    while done < starts.len()
        invariant
            done <= starts.len(),
            n == graph.node_ids().len(),
            handles(starts@) == seeds(*graph, *options),
            forall|j: int| 0 <= j < starts.len() ==> (#[trigger] starts[j]) < graph.node_ids().len(),
            texts(lines@) + walks_from(*graph, counts@, *options, handles(starts@), done as int)
                == rendered_lines(*graph, counts@, *options),
        decreases starts.len() - done,
    {
        let ghost before = texts(lines@);
        let ghost rest = walks_from(*graph, counts@, *options, handles(starts@), done as int);
        let mut visited: Vec<bool> = vec![false; n];
        let mut levels: Vec<bool> = Vec::new();
        assert(visited@ =~= Seq::new(n as nat, |i: int| false));
        assert(levels@ =~= Seq::<bool>::empty());
        write_node(graph, counts, options, starts[done], &mut levels, &mut visited, n, &mut lines);
        proof {
            let walk = walk_node(
                *graph,
                counts@,
                *options,
                handles(starts@)[done as int],
                Seq::empty(),
                Seq::new(n as nat, |i: int| false),
                n as nat,
            );
            let after = walks_from(*graph, counts@, *options, handles(starts@), done + 1);
            assert(rest == walk.lines + after);
            assert((before + walk.lines) + after =~= before + rest);
        }
        done += 1;
    }
    assert(texts(lines@) + Seq::<Seq<char>>::empty() =~= texts(lines@));
    lines
}

/// Renders the graph as one text, each line ended by a line feed.
pub fn render(graph: &DependencyGraph, counts: &Vec<PackageReport>, options: &RenderOptions) -> (text:
    String)
    ensures
        text@ == join_lines(rendered_lines(*graph, counts@, *options)),
{
    proof {
        reveal_strlit("\n");
    }
    let lines = render_lines(graph, counts, options);
    let mut text = String::new();
    let mut i: usize = 0;
    assert(texts(lines@).take(0) =~= Seq::<Seq<char>>::empty());
    while i < lines.len()
        invariant
            i <= lines.len(),
            "\n"@ == seq!['\n'],
            text@ == join_lines(texts(lines@).take(i as int)),
        decreases lines.len() - i,
    {
        let ghost before = text@;
        text.append(lines[i].as_str());
        text.append("\n");
        proof {
            let next = texts(lines@).take(i + 1);
            assert(next.drop_last() =~= texts(lines@).take(i as int));
            assert(next.last() == lines@[i as int]@);
            assert(text@ =~= before + lines@[i as int]@ + seq!['\n']);
        }
        i += 1;
    }
    assert(texts(lines@).take(i as int) =~= texts(lines@));
    text
}

/// The number of nodes that are not held as visited.
pub open spec fn unvisited(visited: Seq<bool>) -> nat
    decreases visited.len(),
{
    if visited.len() == 0 {
        0
    } else {
        unvisited(visited.drop_last()) + if visited.last() {
            0nat
        } else {
            1nat
        }
    }
}

/// Visiting a node that was not visited leaves one node less to visit.
proof fn lemma_unvisited_after_visit(visited: Seq<bool>, h: int)
    requires
        0 <= h < visited.len(),
        !visited[h],
    ensures
        unvisited(visited.update(h, true)) + 1 == unvisited(visited),
    decreases visited.len(),
{
    let after = visited.update(h, true);
    if h == visited.len() - 1 {
        assert(after.drop_last() =~= visited.drop_last());
    } else {
        assert(after.drop_last() =~= visited.drop_last().update(h, true));
        lemma_unvisited_after_visit(visited.drop_last(), h);
    }
}

/// Where every visited node stays visited, no more nodes are left to visit.
proof fn lemma_unvisited_shrinks(before: Seq<bool>, after: Seq<bool>)
    requires
        before.len() == after.len(),
        forall|i: int| 0 <= i < before.len() && before[i] ==> after[i],
    ensures
        unvisited(after) <= unvisited(before),
    decreases before.len(),
{
    if before.len() > 0 {
        lemma_unvisited_shrinks(before.drop_last(), after.drop_last());
    }
}

/// The children of a node of a well-formed graph are nodes of the graph.
proof fn lemma_children_are_nodes(edges: Seq<Edge>, h: int, invert: bool, n: nat)
    requires
        forall|k: int|
            0 <= k < edges.len() ==> (#[trigger] edges[k]).from < n && edges[k].to < n,
    ensures
        forall|k: int|
            0 <= k < children(edges, h, invert).len() ==> 0 <= #[trigger] children(
                edges,
                h,
                invert,
            )[k] < n,
    decreases edges.len(),
{
    if edges.len() > 0 {
        let front = edges.drop_last();
        assert forall|k: int| 0 <= k < front.len() implies (#[trigger] front[k]).from < n
            && front[k].to < n by {
            assert(front[k] == edges[k]);
        }
        lemma_children_are_nodes(front, h, invert, n);
        let edge = edges[edges.len() - 1];
        assert(edges.last() == edge);
        assert(edge.from < n && edge.to < n);
        let before = children(front, h, invert);
        let all = children(edges, h, invert);
        assert forall|k: int| 0 <= k < all.len() implies 0 <= #[trigger] all[k] < n by {
            if k < before.len() {
                assert(all[k] == before[k]);
            }
        }
    }
}

/// A walk that may go as deep as there are nodes left to visit is the walk
/// that may go deeper: the bound on the depth is never what ends a walk. The
/// walk leaves every visited node visited.
pub proof fn law_depth_bound_is_not_reached(
    graph: DependencyGraph,
    reports: Seq<PackageReport>,
    options: RenderOptions,
    h: int,
    levels: Seq<bool>,
    visited: Seq<bool>,
    depth: nat,
    deeper: nat,
)
    requires
        graph.well_formed(),
        0 <= h < graph.node_ids().len(),
        visited.len() == graph.node_ids().len(),
        unvisited(visited) <= depth <= deeper,
    ensures
        walk_node(graph, reports, options, h, levels, visited, depth) == walk_node(
            graph,
            reports,
            options,
            h,
            levels,
            visited,
            deeper,
        ),
        walk_node(graph, reports, options, h, levels, visited, depth).visited.len()
            == visited.len(),
        forall|i: int|
            0 <= i < visited.len() && visited[i] ==> walk_node(
                graph,
                reports,
                options,
                h,
                levels,
                visited,
                depth,
            ).visited[i],
    decreases depth, 0nat,
{
    if !visited[h] {
        lemma_unvisited_after_visit(visited, h);
        graph.law_edges_join_nodes();
        let kids = children(graph.edge_list(), h, options.invert);
        lemma_children_are_nodes(graph.edge_list(), h, options.invert, graph.node_ids().len());
        let marked = visited.update(h, true);
        lemma_children_bound_is_not_reached(
            graph,
            reports,
            options,
            kids,
            0,
            levels,
            marked,
            (depth - 1) as nat,
            (deeper - 1) as nat,
        );
        let below = walk_children(
            graph,
            reports,
            options,
            kids,
            0,
            levels,
            marked,
            (depth - 1) as nat,
        );
        let walk = walk_node(graph, reports, options, h, levels, visited, depth);
        assert(walk.visited == if options.show_all {
            visited
        } else {
            below.visited
        });
        assert forall|i: int| 0 <= i < visited.len() && visited[i] implies walk.visited[i] by {
            assert(marked[i]);
        }
    }
}

/// The walks from the children likewise.
proof fn lemma_children_bound_is_not_reached(
    graph: DependencyGraph,
    reports: Seq<PackageReport>,
    options: RenderOptions,
    kids: Seq<int>,
    k: int,
    levels: Seq<bool>,
    visited: Seq<bool>,
    depth: nat,
    deeper: nat,
)
    requires
        graph.well_formed(),
        forall|j: int| 0 <= j < kids.len() ==> 0 <= #[trigger] kids[j] < graph.node_ids().len(),
        visited.len() == graph.node_ids().len(),
        unvisited(visited) <= depth <= deeper,
    ensures
        walk_children(graph, reports, options, kids, k, levels, visited, depth) == walk_children(
            graph,
            reports,
            options,
            kids,
            k,
            levels,
            visited,
            deeper,
        ),
        walk_children(graph, reports, options, kids, k, levels, visited, depth).visited.len()
            == visited.len(),
        forall|i: int|
            0 <= i < visited.len() && visited[i] ==> walk_children(
                graph,
                reports,
                options,
                kids,
                k,
                levels,
                visited,
                depth,
            ).visited[i],
    decreases depth, 1 + kids.len() - k,
{
    if 0 <= k < kids.len() {
        let inner = levels.push(k + 1 < kids.len());
        law_depth_bound_is_not_reached(
            graph,
            reports,
            options,
            kids[k],
            inner,
            visited,
            depth,
            deeper,
        );
        let first = walk_node(graph, reports, options, kids[k], inner, visited, depth);
        lemma_unvisited_shrinks(visited, first.visited);
        lemma_children_bound_is_not_reached(
            graph,
            reports,
            options,
            kids,
            k + 1,
            levels,
            first.visited,
            depth,
            deeper,
        );
    }
}

/// With no node visited, as many nodes are left to visit as there are.
proof fn lemma_unvisited_at_start(n: nat)
    ensures
        unvisited(Seq::new(n, |i: int| false)) == n,
    decreases n,
{
    if n > 0 {
        let all = Seq::new(n, |i: int| false);
        assert(all.drop_last() =~= Seq::new((n - 1) as nat, |i: int| false));
        lemma_unvisited_at_start((n - 1) as nat);
    }
}

/// The walks of a rendering are not cut short by their bound: a walk that
/// starts with no node visited and may go as deep as the graph has nodes is
/// the walk that may go deeper.
pub proof fn law_rendering_is_not_cut(
    graph: DependencyGraph,
    reports: Seq<PackageReport>,
    options: RenderOptions,
    h: int,
    deeper: nat,
)
    requires
        graph.well_formed(),
        0 <= h < graph.node_ids().len(),
        graph.node_ids().len() <= deeper,
    ensures
        walk_node(
            graph,
            reports,
            options,
            h,
            Seq::empty(),
            Seq::new(graph.node_ids().len(), |i: int| false),
            graph.node_ids().len(),
        ) == walk_node(
            graph,
            reports,
            options,
            h,
            Seq::empty(),
            Seq::new(graph.node_ids().len(), |i: int| false),
            deeper,
        ),
{
    let n = graph.node_ids().len();
    lemma_unvisited_at_start(n);
    law_depth_bound_is_not_reached(
        graph,
        reports,
        options,
        h,
        Seq::empty(),
        Seq::new(n, |i: int| false),
        n,
        deeper,
    );
}

} // verus!
