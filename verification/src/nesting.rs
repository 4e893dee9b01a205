//! Nesting policy enforcer: ancestor depth of a comment and resolution of the
//! effective parent of a new reply, flattening replies beyond the configured
//! depth.
use vstd::prelude::*;

use crate::store::{
    find_index, has_id, id_index, lemma_id_index, lemma_idx_order, lemma_len_bound, wf_rows,
    Comment, CommentStore,
};

verus! {

/// The ancestor depth of the row at index `i`: the number of chain entries
/// walked from the row up to a root, counting the row itself, and counting a
/// dangling parent reference as one final step.
pub open spec fn depth_at(rows: Seq<Comment>, i: int) -> nat
    decreases i,
{
    if 0 <= i < rows.len() {
        match rows[i].parent {
            None => 1,
            Some(p) => {
                let j = id_index(rows, p as int);
                if 0 <= j < i && rows[j].id == p {
                    1 + depth_at(rows, j)
                } else {
                    2
                }
            },
        }
    } else {
        0
    }
}

/// Whether the row at index `anc` is a (strict) ancestor of the row at index
/// `des`, following parent links.
pub open spec fn is_ancestor_of(rows: Seq<Comment>, anc: int, des: int) -> bool
    decreases des,
{
    if 0 <= des < rows.len() {
        match rows[des].parent {
            None => false,
            Some(p) => {
                let j = id_index(rows, p as int);
                if 0 <= j < des && rows[j].id == p {
                    j == anc || is_ancestor_of(rows, anc, j)
                } else {
                    false
                }
            },
        }
    } else {
        false
    }
}

/// An ancestor always sits at a smaller index than its descendant.
pub proof fn lemma_ancestor_smaller(rows: Seq<Comment>, anc: int, des: int)
    requires
        is_ancestor_of(rows, anc, des),
    ensures
        anc < des,
    decreases des,
{
    let p = rows[des].parent->0;
    let j = id_index(rows, p as int);
    if j != anc {
        lemma_ancestor_smaller(rows, anc, j);
    }
}

/// Acyclicity: no comment is its own ancestor, whatever sequence of inserts
/// and deletes produced the rows.
pub proof fn lemma_not_own_ancestor(rows: Seq<Comment>, i: int)
    ensures
        !is_ancestor_of(rows, i, i),
{
    if is_ancestor_of(rows, i, i) {
        lemma_ancestor_smaller(rows, i, i);
    }
}

/// Bounded ancestor walk: following parent links from any row reaches a root
/// within the number of rows stored.
pub proof fn lemma_depth_bounded(rows: Seq<Comment>, i: int)
    requires
        0 <= i < rows.len(),
    ensures
        depth_at(rows, i) <= i + 2,
        depth_at(rows, i) <= rows.len() + 1,
    decreases i,
{
    match rows[i].parent {
        None => {},
        Some(p) => {
            let j = id_index(rows, p as int);
            if 0 <= j < i && rows[j].id == p {
                lemma_depth_bounded(rows, j);
            }
        },
    }
}

/// Appending a row does not change the ancestor depth of the rows already
/// stored.
pub proof fn lemma_depth_push(rows: Seq<Comment>, c: Comment, i: int)
    requires
        wf_rows(rows),
        wf_rows(rows.push(c)),
        0 <= i < rows.len(),
    ensures
        depth_at(rows.push(c), i) == depth_at(rows, i),
    decreases i,
{
    let rp = rows.push(c);
    assert(rp[i] == rows[i]);
    match rows[i].parent {
        None => {},
        Some(p) => {
            let j1 = id_index(rows, p as int);
            let j2 = id_index(rp, p as int);
            if 0 <= j1 < i && rows[j1].id == p {
                assert(rp[j1] == rows[j1]);
                lemma_id_index(rp, j1);
                assert(j2 == j1);
                lemma_depth_push(rows, c, j1);
            } else {
                if 0 <= j2 < i && rp[j2].id == p {
                    assert(rp[j2] == rows[j2]);
                    lemma_id_index(rows, j2);
                    assert(false);
                }
            }
        },
    }
}

/// The effective parent of a new reply: an absent request stays absent; a
/// parent that is not stored is kept unchanged; a stored parent within the
/// nesting limit is kept; one beyond the limit is replaced by its own parent.
pub open spec fn resolve_parent_spec(rows: Seq<Comment>, parent: Option<i32>, limit: u32) -> Option<
    i32,
> {
    match parent {
        None => None,
        Some(p) => {
            if !has_id(rows, p as int) {
                Some(p)
            } else if depth_at(rows, id_index(rows, p as int)) <= limit {
                Some(p)
            } else {
                rows[id_index(rows, p as int)].parent
            }
        },
    }
}

/// Depth bound of the nesting policy: as long as every stored row sits at
/// depth at most `limit + 1`, the effective parent the policy resolves sits
/// at depth at most `limit`, so a reply to it sits at depth at most
/// `limit + 1` again.
pub proof fn lemma_resolved_parent_depth(rows: Seq<Comment>, parent: Option<i32>, limit: u32)
    requires
        wf_rows(rows),
        forall|i: int| 0 <= i < rows.len() ==> #[trigger] depth_at(rows, i) <= limit + 1,
    ensures
        match resolve_parent_spec(rows, parent, limit) {
            None => true,
            Some(p) => has_id(rows, p as int) ==> depth_at(rows, id_index(rows, p as int))
                <= limit,
        },
{
    match parent {
        None => {},
        Some(p) => {
            if has_id(rows, p as int) {
                let i = id_index(rows, p as int);
                assert(0 <= i < rows.len());
                if depth_at(rows, i) <= limit {
                } else {
                    // the requested parent sits exactly at depth limit + 1,
                    // so its own parent sits at depth limit
                    assert(depth_at(rows, i) == limit + 1);
                    match rows[i].parent {
                        None => {
                            assert(depth_at(rows, i) == 1);
                        },
                        Some(q) => {
                            let j = id_index(rows, q as int);
                            if 0 <= j < i && rows[j].id == q {
                                assert(depth_at(rows, i) == 1 + depth_at(rows, j));
                                lemma_id_index(rows, j);
                            } else {
                                assert(depth_at(rows, i) == 2);
                                assert(limit + 1 == 2);
                                if has_id(rows, q as int) {
                                    let jj = id_index(rows, q as int);
                                    assert(rows[jj].id == q);
                                    assert(rows[i].id > q);
                                    lemma_idx_order(rows, jj, i);
                                }
                            }
                        },
                    }
                }
            }
        },
    }
}

/// The ancestor depth of the row at `idx`, computed by walking parent links.
pub fn ancestor_depth(store: &CommentStore, idx: usize) -> (d: usize)
    requires
        store.wf(),
        idx < store.comments@.len(),
    ensures
        d == depth_at(store.comments@, idx as int),
{
    let rows = &store.comments;
    let ghost rseq = rows@;
    let mut j = idx;
    let mut d: usize = 1;
    proof {
        lemma_len_bound(rseq);
    }
    loop
        invariant
            store.wf(),
            rseq == rows@,
            rseq == store.comments@,
            j < rseq.len(),
            rseq.len() <= 0x7fff_ffff,
            1 <= d,
            d + j <= idx + 1,
            idx < rseq.len(),
            depth_at(rseq, idx as int) == (d - 1) + depth_at(rseq, j as int),
        decreases j,
    {
        match rows[j].parent {
            None => {
                return d;
            },
            Some(p) => {
                match find_index(rows, p) {
                    None => {
                        proof {
                            // the parent reference dangles: the spec walk
                            // counts it as one final step
                            let jj = id_index(rseq, p as int);
                            if 0 <= jj < j as int && rseq[jj].id == p {
                                assert(has_id(rseq, p as int));
                            }
                            assert(depth_at(rseq, j as int) == 2);
                        }
                        return d + 1;
                    },
                    Some(j2) => {
                        proof {
                            lemma_id_index(rseq, j2 as int);
                            assert(rseq[j2 as int].id == p);
                            assert(p < rseq[j as int].id);
                            lemma_idx_order(rseq, j2 as int, j as int);
                        }
                        d = d + 1;
                        j = j2;
                    },
                }
            },
        }
    }
}

/// Resolves the effective parent of a new reply against the configured
/// nesting limit, flattening a reply whose requested parent already sits too
/// deep onto that parent's own parent.
pub fn nesting_check(store: &CommentStore, parent: Option<i32>, nesting_limit: u32) -> (r: Option<
    i32,
>)
    requires
        store.wf(),
    ensures
        r == resolve_parent_spec(store.comments@, parent, nesting_limit),
{
    match parent {
        None => None,
        Some(pid) => {
            match find_index(&store.comments, pid) {
                None => Some(pid),
                Some(idx) => {
                    proof {
                        lemma_id_index(store.comments@, idx as int);
                    }
                    let d = ancestor_depth(store, idx);
                    if d <= nesting_limit as usize {
                        Some(pid)
                    } else {
                        store.comments[idx].parent
                    }
                },
            }
        },
    }
}

} // verus!
