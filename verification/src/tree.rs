//! Thread assembler: reconstruction of the nested reply forest from the flat
//! row set, using an in-memory adjacency graph from parent ids to ordered
//! child ids.
use vstd::prelude::*;
use vstd::string::*;

use petgraph::graphmap::DiGraphMap;

use crate::author::{count_votes, display_author_spec, get_author, votes_spec};
use crate::comments::{printed_rowv, wf_rowv, PrintedComment, RowV};
use crate::errors::ErrorKind;
use crate::hash::opt_view;
use crate::store::{uri_tid, CommentStore};

verus! {

#[verifier::external_type_specification]
#[verifier::external_body]
#[verifier::reject_recursive_types(N)]
#[verifier::reject_recursive_types(E)]
#[verifier::reject_recursive_types(Ty)]
#[verifier::reject_recursive_types(S)]
pub struct ExGraphMap<N, E, Ty, S>(petgraph::graphmap::GraphMap<N, E, Ty, S>) where
    S: std::hash::BuildHasher;

#[verifier::external_type_specification]
#[verifier::external_body]
pub struct ExDirected(petgraph::Directed);

/// A directed graph over comment ids with unweighted edges.
pub type CommentGraph = DiGraphMap<i32, ()>;

/// The adjacency the graph holds: for every node, the sequence of its
/// outgoing neighbors in edge insertion order.
pub uninterp spec fn graph_children(g: CommentGraph) -> Map<int, Seq<int>>;

/// The outgoing neighbor list of a node, empty for an absent node.
pub open spec fn glookup(m: Map<int, Seq<int>>, pid: int) -> Seq<int> {
    if m.dom().contains(pid) {
        m[pid]
    } else {
        Seq::empty()
    }
}

/// Relies on GraphMap::with_capacity: an empty graph with room for the
/// given number of nodes and edges.
#[verifier::external_body]
fn graph_new(nodes: usize, edges: usize) -> (r: CommentGraph)
    ensures
        graph_children(r).dom() == Set::<int>::empty(),
{
    DiGraphMap::with_capacity(nodes, edges)
}

/// Relies on GraphMap::add_node: a missing node is added with no outgoing
/// edges; an existing node is left as it is.
#[verifier::external_body]
fn graph_add_node(g: &mut CommentGraph, n: i32)
    ensures
        graph_children(*final(g)) == if graph_children(*old(g)).dom().contains(n as int) {
            graph_children(*old(g))
        } else {
            graph_children(*old(g)).insert(n as int, Seq::empty())
        },
{
    g.add_node(n);
}

/// Relies on GraphMap::add_edge: a new directed edge appends the target to
/// the source's outgoing list and adds either endpoint that was missing; the
/// target's own outgoing list is untouched.
#[verifier::external_body]
fn graph_add_edge(g: &mut CommentGraph, a: i32, b: i32)
    requires
        a != b,
        !glookup(graph_children(*old(g)), a as int).contains(b as int),
    ensures
        ({
            let m0 = graph_children(*old(g));
            let m1 = m0.insert(a as int, glookup(m0, a as int).push(b as int));
            graph_children(*final(g)) == if m1.dom().contains(b as int) {
                m1
            } else {
                m1.insert(b as int, Seq::empty())
            }
        }),
{
    g.add_edge(a, b, ());
}

/// Relies on GraphMap::neighbors: the outgoing neighbors of a node, in edge
/// insertion order; an absent node has none.
#[verifier::external_body]
fn graph_neighbors(g: &CommentGraph, a: i32) -> (r: Vec<i32>)
    ensures
        r@.map_values(|x: i32| x as int) == glookup(graph_children(*g), a as int),
{
    g.neighbors(a).collect()
}

/// Whether some row carries the given id.
pub open spec fn rhas_id(s: Seq<RowV>, id: int) -> bool {
    exists|i: int| 0 <= i < s.len() && (#[trigger] s[i].id) == id
}

/// The index of the row carrying the given id (unique under `wf_rowv`).
pub open spec fn rid_index(s: Seq<RowV>, id: int) -> int {
    choose|i: int| 0 <= i < s.len() && (#[trigger] s[i].id) == id
}

/// Under well-formedness, the row found at an index is the row `rid_index`
/// names for its id.
pub proof fn rlemma_id_index(s: Seq<RowV>, i: int)
    requires
        wf_rowv(s),
        0 <= i < s.len(),
    ensures
        rhas_id(s, s[i].id),
        rid_index(s, s[i].id) == i,
{
    assert(rhas_id(s, s[i].id));
    let j = rid_index(s, s[i].id);
    if j < i {
        assert(s[j].id < s[i].id);
    }
    if i < j {
        assert(s[i].id < s[j].id);
    }
}

/// The ids of the rows whose parent is the given id, in row order.
pub open spec fn children_ids(s: Seq<RowV>, pid: int) -> Seq<int>
    decreases s.len(),
{
    if s.len() == 0 {
        Seq::empty()
    } else if s.last().parent == Some(pid) {
        children_ids(s.drop_last(), pid) + seq![s.last().id]
    } else {
        children_ids(s.drop_last(), pid)
    }
}

/// The ids of the rows with no parent, in row order.
pub open spec fn root_ids(s: Seq<RowV>) -> Seq<int>
    decreases s.len(),
{
    if s.len() == 0 {
        Seq::empty()
    } else if s.last().parent is None {
        root_ids(s.drop_last()) + seq![s.last().id]
    } else {
        root_ids(s.drop_last())
    }
}

/// Every child id names a row whose parent is the given id.
pub proof fn lemma_children_element(s: Seq<RowV>, pid: int, k: int)
    requires
        0 <= k < children_ids(s, pid).len(),
    ensures
        exists|m: int|
            0 <= m < s.len() && (#[trigger] s[m].id) == children_ids(s, pid)[k] && s[m].parent
                == Some(pid),
    decreases s.len(),
{
    let cs = children_ids(s, pid);
    if s.len() > 0 {
        let dl = s.drop_last();
        let prev = children_ids(dl, pid);
        if s.last().parent == Some(pid) && k == cs.len() - 1 {
            assert(s[s.len() - 1].id == cs[k]);
        } else {
            assert(cs[k] == prev[k]);
            lemma_children_element(dl, pid, k);
            let m = choose|m: int|
                0 <= m < dl.len() && (#[trigger] dl[m].id) == prev[k] && dl[m].parent == Some(pid);
            assert(dl[m] == s[m]);
        }
    }
}

/// Every root id names a row with no parent.
pub proof fn lemma_root_element(s: Seq<RowV>, k: int)
    requires
        0 <= k < root_ids(s).len(),
    ensures
        exists|m: int|
            0 <= m < s.len() && (#[trigger] s[m].id) == root_ids(s)[k] && s[m].parent is None,
    decreases s.len(),
{
    let rs = root_ids(s);
    if s.len() > 0 {
        let dl = s.drop_last();
        let prev = root_ids(dl);
        if s.last().parent is None && k == rs.len() - 1 {
            assert(s[s.len() - 1].id == rs[k]);
        } else {
            assert(rs[k] == prev[k]);
            lemma_root_element(dl, k);
            let m = choose|m: int|
                0 <= m < dl.len() && (#[trigger] dl[m].id) == prev[k] && dl[m].parent is None;
            assert(dl[m] == s[m]);
        }
    }
}

/// The vote total of a row view.
pub open spec fn rv_votes(row: RowV) -> int {
    (match row.likes {
        Some(v) => v,
        None => 0,
    }) - (match row.dislikes {
        Some(v) => v,
        None => 0,
    })
}

/// Whether the node renders the child row carrying id `cid`: that row comes
/// after the parent's row at `i`, and the node renders its whole subtree.
pub open spec fn child_matches(s: Seq<RowV>, i: int, cid: int, n: NestedComment) -> bool
    decreases s.len() - i, 1nat,
{
    i < rid_index(s, cid) < s.len() && node_matches(s, rid_index(s, cid), n)
}

/// Whether the node faithfully renders the row at index `i` and, recursively,
/// its whole subtree: the node's children render, in order, exactly the rows
/// naming this row as parent.
pub open spec fn node_matches(s: Seq<RowV>, i: int, n: NestedComment) -> bool
    decreases s.len() - i, 2nat,
{
    if 0 <= i < s.len() {
        let row = s[i];
        let cids = children_ids(s, row.id);
        &&& n.id as int == row.id
        &&& n.text@ == row.text
        &&& opt_view(n.author) == display_author_spec(row.author, row.email, row.url)
        &&& n.hash@ == row.hash
        &&& n.created as int == row.created
        &&& n.votes as int == rv_votes(row)
        &&& n.children@.len() == cids.len()
        &&& (forall|k: int|
            0 <= k < cids.len() ==> child_matches(s, i, cids[k], #[trigger] n.children@[k]))
    } else {
        false
    }
}

/// Subset of the comments table which is nested and sent to the frontend.
#[derive(Debug)]
pub struct NestedComment {
    /// Primary key.
    pub id: i32,
    /// The comment text.
    pub text: String,
    /// Display author, if any.
    pub author: Option<String>,
    /// Identity hash of the commenter.
    pub hash: String,
    /// Timestamp of creation, seconds since the epoch.
    pub created: i64,
    /// Comment children.
    pub children: Vec<NestedComment>,
    /// Total number of votes: likes minus dislikes.
    pub votes: i32,
}

impl NestedComment {
    /// Creates a nested comment from a stored row and a set of precalculated
    /// children.
    pub fn new(comment: &PrintedComment, children: Vec<NestedComment>) -> (r: NestedComment)
        requires
            match comment.likes {
                Some(v) => v >= 0,
                None => true,
            },
            match comment.dislikes {
                Some(v) => v >= 0,
                None => true,
            },
        ensures
            r.id == comment.id,
            r.text@ == comment.text@,
            opt_view(r.author) == display_author_spec(
                opt_view(comment.author),
                opt_view(comment.email),
                opt_view(comment.url),
            ),
            r.hash@ == comment.hash@,
            r.created == comment.created,
            r.children == children,
            r.votes == votes_spec(comment.likes, comment.dislikes),
    {
        let author = get_author(&comment.author, &comment.email, &comment.url);
        let votes = count_votes(comment.likes, comment.dislikes);
        NestedComment {
            id: comment.id,
            text: comment.text.clone(),
            author,
            hash: comment.hash.clone(),
            created: comment.created,
            children,
            votes,
        }
    }
}

/// Finds the position of the row with the given id.
fn find_printed(comments: &Vec<PrintedComment>, id: i32) -> (r: Option<usize>)
    ensures
        match r {
            Some(i) => i < comments@.len() && comments@[i as int].id == id,
            None => !rhas_id(comments@.map_values(|p: PrintedComment| printed_rowv(p)), id as int),
        },
{
    let n = comments.len();
    let mut i: usize = 0;
    while i < n
        invariant
            i <= n,
            n == comments@.len(),
            forall|k: int| 0 <= k < i ==> (#[trigger] comments@[k].id) != id,
        decreases n - i,
    {
        if comments[i].id == id {
            return Some(i);
        }
        i += 1;
    }
    proof {
        let s = comments@.map_values(|p: PrintedComment| printed_rowv(p));
        if rhas_id(s, id as int) {
            let j = choose|j: int| 0 <= j < s.len() && (#[trigger] s[j].id) == id;
            assert(s[j] == printed_rowv(comments@[j]));
            assert(comments@[j].id != id);
        }
    }
    None
}

/// Constructs the nested comment tree rooted at the row with the given id,
/// from the flat indexed data and the adjacency graph built over it.
#[verifier::rlimit(100)]
fn build_tree(graph: &CommentGraph, id: i32, comments: &Vec<PrintedComment>) -> (n:
    NestedComment)
    requires
        wf_rowv(comments@.map_values(|p: PrintedComment| printed_rowv(p))),
        forall|pid: int|
            #[trigger] glookup(graph_children(*graph), pid) == children_ids(
                comments@.map_values(|p: PrintedComment| printed_rowv(p)),
                pid,
            ),
        rhas_id(comments@.map_values(|p: PrintedComment| printed_rowv(p)), id as int),
    ensures
        node_matches(
            comments@.map_values(|p: PrintedComment| printed_rowv(p)),
            rid_index(comments@.map_values(|p: PrintedComment| printed_rowv(p)), id as int),
            n,
        ),
    decreases comments@.len() - rid_index(
        comments@.map_values(|p: PrintedComment| printed_rowv(p)),
        id as int,
    ),
{
    let ghost s = comments@.map_values(|p: PrintedComment| printed_rowv(p));
    let ghost i = rid_index(s, id as int);
    proof {
        assert(0 <= i < s.len() && s[i].id == id);
    }
    let child_ids = graph_neighbors(graph, id);
    let ghost cids = children_ids(s, id as int);
    proof {
        assert(child_ids@.map_values(|x: i32| x as int) == cids);
    }
    let mut children: Vec<NestedComment> = Vec::new();
    let nc = child_ids.len();
    let mut k: usize = 0;
    while k < nc
        invariant
            k <= nc,
            nc == child_ids@.len(),
            s == comments@.map_values(|p: PrintedComment| printed_rowv(p)),
            wf_rowv(s),
            forall|pid: int|
                #[trigger] glookup(graph_children(*graph), pid) == children_ids(s, pid),
            child_ids@.map_values(|x: i32| x as int) == cids,
            cids == children_ids(s, id as int),
            0 <= i < s.len(),
            s[i].id == id,
            rid_index(s, id as int) == i,
            children@.len() == k,
            forall|m: int|
                0 <= m < k ==> child_matches(s, i, cids[m], #[trigger] children@[m]),
        decreases nc - k,
    {
        let cid = child_ids[k];
        proof {
            assert(cids[k as int] == cid as int);
            lemma_children_element(s, id as int, k as int);
            let m = choose|m: int|
                0 <= m < s.len() && (#[trigger] s[m].id) == cids[k as int] && s[m].parent == Some(
                    id as int,
                );
            rlemma_id_index(s, m);
            assert(rid_index(s, cid as int) == m);
            assert(s[m].parent == Some(id as int));
            // a child's id exceeds its parent's, so its row comes later
            assert(s[i].id < s[m].id);
            if m < i {
                assert(s[m].id < s[i].id);
            }
            if m == i {
                assert(s[m].id == s[i].id);
            }
            assert(i < m);
        }
        let ghost children0 = children@;
        let child = build_tree(graph, cid, comments);
        children.push(child);
        proof {
            assert(children@ == children0.push(child));
            assert(child_matches(s, i, cids[k as int], child));
            assert forall|m: int|
                0 <= m < k + 1 implies child_matches(s, i, cids[m], #[trigger] children@[m]) by {
                if m < k {
                    assert(children@[m] == children0[m]);
                } else {
                    assert(children@[m] == child);
                }
            }
        }
        k += 1;
    }
    let idx = match find_printed(comments, id) {
        Some(idx) => idx,
        None => {
            proof {
                assert(false);
            }
            let c0 = &comments[0];
            return NestedComment::new(c0, children);
        },
    };
    proof {
        assert(printed_rowv(comments@[idx as int]) == s[idx as int]);
        rlemma_id_index(s, idx as int);
        assert(idx as int == i);
    }
    let c = &comments[idx];
    let node = NestedComment::new(c, children);
    proof {
        let row = s[i];
        assert(row == printed_rowv(comments@[idx as int]));
        assert(node.votes as int == rv_votes(row)) by {
            match comments@[idx as int].likes {
                Some(_) => {},
                None => {},
            }
            match comments@[idx as int].dislikes {
                Some(_) => {},
                None => {},
            }
        }
        assert(node.children@.len() == cids.len());
        assert forall|m: int|
            0 <= m < cids.len() implies child_matches(s, i, cids[m], #[trigger] node.children@[m]) by {
            assert(node.children@[m] == children@[m]);
        }
        assert(node_matches(s, i, node));
    }
    node
}

impl NestedComment {
    /// Returns the nested comment forest for the post denoted by `path`: one
    /// tree per root comment, children in ascending id order, with pending
    /// comments excluded and an unknown path yielding an empty forest.
    #[verifier::rlimit(100)]
    pub fn list(store: &CommentStore, path: &str) -> (r: Result<Vec<NestedComment>, ErrorKind>)
        requires
            store.wf(),
        ensures
            r is Ok,
            r matches Ok(v) ==> ({
                let s = match uri_tid(store.threads@, path@) {
                    None => Seq::<RowV>::empty(),
                    Some(t) => crate::comments::listed_rows(store.comments@, t).map_values(
                        |c: crate::store::Comment| crate::comments::comment_rowv(c),
                    ),
                };
                &&& v@.len() == root_ids(s).len()
                &&& (forall|k: int|
                    0 <= k < root_ids(s).len() ==> node_matches(
                        s,
                        rid_index(s, root_ids(s)[k]),
                        #[trigger] v@[k],
                    ))
            }),
    {
        let comments = match PrintedComment::list(store, path) {
            Ok(v) => v,
            Err(e) => {
                proof {
                    assert(false);
                }
                return Err(e);
            },
        };
        let ghost s = comments@.map_values(|p: PrintedComment| printed_rowv(p));
        let mut graph = graph_new(comments.len(), comments.len());
        let mut top_level_ids: Vec<i32> = Vec::new();
        let n = comments.len();
        let mut i: usize = 0;
        proof {
            assert(s.subrange(0, 0) =~= Seq::<RowV>::empty());
            assert forall|pid: int| #[trigger] glookup(graph_children(graph), pid) == children_ids(
                s.subrange(0, 0),
                pid,
            ) by {
                assert(children_ids(s.subrange(0, 0), pid) =~= Seq::<int>::empty());
            }
            assert(top_level_ids@.map_values(|x: i32| x as int) =~= root_ids(s.subrange(0, 0)));
        }
        while i < n
            invariant
                i <= n,
                n == comments@.len(),
                s == comments@.map_values(|p: PrintedComment| printed_rowv(p)),
                wf_rowv(s),
                forall|pid: int|
                    #[trigger] glookup(graph_children(graph), pid) == children_ids(
                        s.subrange(0, i as int),
                        pid,
                    ),
                top_level_ids@.map_values(|x: i32| x as int) == root_ids(s.subrange(0, i as int)),
            decreases n - i,
        {
            let ghost pre = s.subrange(0, i as int);
            let ghost cur = s.subrange(0, i as int + 1);
            proof {
                assert(cur.drop_last() =~= pre);
                assert(cur.last() == s[i as int]);
                assert(s[i as int] == printed_rowv(comments@[i as int]));
            }
            let c = &comments[i];
            let ghost g0 = graph_children(graph);
            graph_add_node(&mut graph, c.id);
            proof {
                assert forall|pid: int| #[trigger] glookup(graph_children(graph), pid)
                    == children_ids(pre, pid) by {
                    assert(glookup(g0, pid) == children_ids(pre, pid));
                }
            }
            match c.parent {
                Some(parent_id) => {
                    let ghost g1 = graph_children(graph);
                    graph_add_node(&mut graph, parent_id);
                    proof {
                        assert forall|pid: int| #[trigger] glookup(graph_children(graph), pid)
                            == children_ids(pre, pid) by {
                            assert(glookup(g1, pid) == children_ids(pre, pid));
                        }
                        // the new child id is larger than every id of the
                        // prefix, so the edge cannot exist yet
                        assert(glookup(graph_children(graph), parent_id as int)
                            == children_ids(pre, parent_id as int)) by {
                            assert(glookup(g1, parent_id as int) == children_ids(
                                pre,
                                parent_id as int,
                            ));
                        }
                        assert(!glookup(graph_children(graph), parent_id as int).contains(
                            c.id as int,
                        )) by {
                            let cp = children_ids(pre, parent_id as int);
                            if cp.contains(c.id as int) {
                                let k = choose|k: int| 0 <= k < cp.len() && cp[k] == c.id as int;
                                lemma_children_element(pre, parent_id as int, k);
                                let m = choose|m: int|
                                    0 <= m < pre.len() && (#[trigger] pre[m].id) == cp[k]
                                        && pre[m].parent == Some(parent_id as int);
                                assert(pre[m] == s[m]);
                                assert(s[m].id < s[i as int].id);
                            }
                        }
                        assert(parent_id != c.id) by {
                            assert(s[i as int].parent == Some(parent_id as int));
                        }
                    }
                    let ghost g2 = graph_children(graph);
                    graph_add_edge(&mut graph, parent_id, c.id);
                    proof {
                        assert forall|pid: int| #[trigger] glookup(graph_children(graph), pid)
                            == children_ids(cur, pid) by {
                            assert(glookup(g2, pid) == children_ids(pre, pid));
                            assert(glookup(g2, parent_id as int) == children_ids(
                                pre,
                                parent_id as int,
                            ));
                            if pid == parent_id as int {
                                assert(children_ids(cur, pid) =~= children_ids(pre, pid).push(
                                    s[i as int].id,
                                ));
                            } else {
                                assert(children_ids(cur, pid) =~= children_ids(pre, pid));
                            }
                        }
                        assert(top_level_ids@.map_values(|x: i32| x as int) =~= root_ids(cur));
                    }
                },
                None => {
                    let ghost tl0 = top_level_ids@;
                    top_level_ids.push(c.id);
                    proof {
                        assert(root_ids(cur) =~= root_ids(pre) + seq![s[i as int].id]);
                        assert(top_level_ids@.map_values(|x: i32| x as int) =~= tl0.map_values(
                            |x: i32| x as int,
                        ).push(c.id as int));
                        assert forall|pid: int| #[trigger] glookup(graph_children(graph), pid)
                            == children_ids(cur, pid) by {
                            assert(glookup(g0, pid) == children_ids(pre, pid));
                            assert(children_ids(cur, pid) =~= children_ids(pre, pid));
                        }
                    }
                },
            }
            i += 1;
        }
        proof {
            assert(s.subrange(0, n as int) =~= s);
        }
        let mut out: Vec<NestedComment> = Vec::new();
        let nr = top_level_ids.len();
        let mut k: usize = 0;
        while k < nr
            invariant
                k <= nr,
                nr == top_level_ids@.len(),
                s == comments@.map_values(|p: PrintedComment| printed_rowv(p)),
                wf_rowv(s),
                forall|pid: int|
                    #[trigger] glookup(graph_children(graph), pid) == children_ids(s, pid),
                top_level_ids@.map_values(|x: i32| x as int) == root_ids(s),
                out@.len() == k,
                forall|m: int|
                    0 <= m < k ==> node_matches(
                        s,
                        rid_index(s, root_ids(s)[m]),
                        #[trigger] out@[m],
                    ),
            decreases nr - k,
        {
            let rid = top_level_ids[k];
            proof {
                assert(root_ids(s)[k as int] == rid as int);
                lemma_root_element(s, k as int);
                let m = choose|m: int|
                    0 <= m < s.len() && (#[trigger] s[m].id) == root_ids(s)[k as int]
                        && s[m].parent is None;
                rlemma_id_index(s, m);
                assert(rhas_id(s, rid as int));
            }
            let tree = build_tree(&graph, rid, &comments);
            out.push(tree);
            k += 1;
        }
        Ok(out)
    }
}

} // verus!
