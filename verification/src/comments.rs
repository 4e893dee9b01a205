//! Comment store operations: counting, projections of stored rows for the
//! frontend, and edit authorization.
use vstd::prelude::*;
use vstd::string::*;

use crate::author::{display_author_spec, get_author};
use crate::clock::now_timestamp;
use crate::errors::ErrorKind;
use crate::hash::{gen_hash, hash_spec, opt_view};
use crate::nesting::{depth_at, lemma_depth_push, lemma_resolved_parent_depth, nesting_check,
    resolve_parent_spec};
use crate::store::{
    counters_ok, find_index, find_thread, has_id, id_index, lemma_id_index, lemma_len_bound,
    parent_ok, str_eq, uri_tid, wf_rows, Comment, CommentStore, FormEdit, FormInput, Mode,
};
use crate::voters::{
    bloom_bytes_elems, bloom_bytes_ok, bloom_check_and_set, bloom_elems, bloom_from_slice,
    bloom_new, bloom_set, bloom_to_bytes, bloom_usable, VOTER_BITMAP_BYTES, VOTER_CAPACITY,
};

verus! {

/// Clones an optional string.
pub fn clone_opt(o: &Option<String>) -> (r: Option<String>)
    ensures
        opt_view(r) == opt_view(*o),
{
    match o {
        Some(s) => Some(s.clone()),
        None => None,
    }
}

/// The view of an optional byte vector.
pub open spec fn opt_bytes_view(o: Option<Vec<u8>>) -> Option<Seq<u8>> {
    match o {
        Some(b) => Some(b@),
        None => None,
    }
}

/// Clones an optional byte vector.
pub fn clone_opt_bytes(o: &Option<Vec<u8>>) -> (r: Option<Vec<u8>>)
    ensures
        opt_bytes_view(r) == opt_bytes_view(*o),
{
    match o {
        Some(b) => Some(vstd::slice::slice_to_vec(b.as_slice())),
        None => None,
    }
}

/// Replaces the row at the given position.
pub fn set_row(rows: &mut Vec<Comment>, i: usize, c: Comment)
    requires
        i < old(rows)@.len(),
    ensures
        final(rows)@ == old(rows)@.update(i as int, c),
{
    rows.remove(i);
    rows.insert(i, c);
    proof {
        assert(rows@ =~= old(rows)@.update(i as int, c));
    }
}

/// The display-relevant data of one stored comment, as mathematical values.
pub ghost struct RowV {
    /// Primary key.
    pub id: int,
    /// Parent comment, if any.
    pub parent: Option<int>,
    /// The comment text.
    pub text: Seq<char>,
    /// Author name, if given.
    pub author: Option<Seq<char>>,
    /// Author email, if given.
    pub email: Option<Seq<char>>,
    /// Author website, if given.
    pub url: Option<Seq<char>>,
    /// Identity hash.
    pub hash: Seq<char>,
    /// Creation time.
    pub created: int,
    /// Likes, absent meaning zero.
    pub likes: Option<int>,
    /// Dislikes, absent meaning zero.
    pub dislikes: Option<int>,
}

/// The display-relevant view of a stored row.
pub open spec fn comment_rowv(c: Comment) -> RowV {
    RowV {
        id: c.id as int,
        parent: match c.parent {
            Some(p) => Some(p as int),
            None => None,
        },
        text: c.text@,
        author: opt_view(c.author),
        email: opt_view(c.email),
        url: opt_view(c.website),
        hash: c.hash@,
        created: c.created as int,
        likes: match c.likes {
            Some(v) => Some(v as int),
            None => None,
        },
        dislikes: match c.dislikes {
            Some(v) => Some(v as int),
            None => None,
        },
    }
}

/// Whether a row belongs to the thread and is shown: visible and tombstoned
/// comments are displayed, pending ones are not.
pub open spec fn displayable(c: Comment, tid: int) -> bool {
    c.tid == tid && (c.mode == Mode::Visible || c.mode == Mode::Tombstoned)
}

/// The rows of the given thread that are shown, in stored (ascending id)
/// order.
pub open spec fn listed_rows(rows: Seq<Comment>, tid: int) -> Seq<Comment>
    decreases rows.len(),
{
    if rows.len() == 0 {
        Seq::empty()
    } else if displayable(rows.last(), tid) {
        listed_rows(rows.drop_last(), tid) + seq![rows.last()]
    } else {
        listed_rows(rows.drop_last(), tid)
    }
}

/// Number of comments attached to the thread in any non-pending mode.
pub open spec fn count_in(rows: Seq<Comment>, tid: int) -> int
    decreases rows.len(),
{
    if rows.len() == 0 {
        0
    } else {
        count_in(rows.drop_last(), tid) + if rows.last().tid == tid && rows.last().mode
            != Mode::Pending {
            1int
        } else {
            0int
        }
    }
}

/// The comment count a URI resolves to: zero when the thread is unknown.
pub open spec fn count_spec(rows: Seq<Comment>, threads: Seq<crate::store::Thread>, uri: Seq<char>) -> int {
    match uri_tid(threads, uri) {
        None => 0,
        Some(t) => count_in(rows, t),
    }
}

/// The listed rows keep the stored order: their ids strictly increase.
proof fn lemma_listed_increasing(rows: Seq<Comment>, tid: int)
    requires
        wf_rows(rows),
    ensures
        forall|a: int, b: int|
            0 <= a < b < listed_rows(rows, tid).len() ==> (#[trigger] listed_rows(
                rows,
                tid,
            )[a].id) < (#[trigger] listed_rows(rows, tid)[b].id),
    decreases rows.len(),
{
    let lr = listed_rows(rows, tid);
    if rows.len() > 0 {
        let dl = rows.drop_last();
        assert(wf_rows(dl)) by {
            assert(forall|k: int| 0 <= k < dl.len() ==> dl[k] == rows[k]);
        }
        lemma_listed_increasing(dl, tid);
        let prev = listed_rows(dl, tid);
        assert forall|a: int, b: int| 0 <= a < b < lr.len() implies (#[trigger] lr[a].id) < (
        #[trigger] lr[b].id) by {
            if b < prev.len() {
                assert(lr[a] == prev[a] && lr[b] == prev[b]);
            } else {
                assert(lr[a] == prev[a]);
                assert(lr[b] == rows[rows.len() - 1]);
                lemma_listed_element(dl, tid, a);
                let i = choose|i: int|
                    0 <= i < dl.len() && prev[a] == dl[i] && displayable(dl[i], tid);
                assert(dl[i] == rows[i]);
                assert(rows[i].id < rows[rows.len() - 1].id);
            }
        }
    }
}

/// Subset of the comments table which is to be sent to the frontend.
#[derive(Debug)]
pub struct PrintedComment {
    /// Primary key.
    pub id: i32,
    /// Parent comment.
    pub parent: Option<i32>,
    /// The comment text.
    pub text: String,
    /// Author name, if given.
    pub author: Option<String>,
    /// Author email, if given.
    pub email: Option<String>,
    /// Author website, if given.
    pub url: Option<String>,
    /// Identity hash of the commenter.
    pub hash: String,
    /// Timestamp of creation.
    pub created: i64,
    /// Likes received; absent means zero.
    pub likes: Option<i32>,
    /// Dislikes received; absent means zero.
    pub dislikes: Option<i32>,
}

/// The view of a printed comment, in the same shape as a stored row's view.
pub open spec fn printed_rowv(p: PrintedComment) -> RowV {
    RowV {
        id: p.id as int,
        parent: match p.parent {
            Some(q) => Some(q as int),
            None => None,
        },
        text: p.text@,
        author: opt_view(p.author),
        email: opt_view(p.email),
        url: opt_view(p.url),
        hash: p.hash@,
        created: p.created as int,
        likes: match p.likes {
            Some(v) => Some(v as int),
            None => None,
        },
        dislikes: match p.dislikes {
            Some(v) => Some(v as int),
            None => None,
        },
    }
}

/// Well-formedness carried over to a sequence of row views: ids at least 1
/// and strictly increasing, parent links pointing backwards, counters
/// non-negative.
pub open spec fn wf_rowv(s: Seq<RowV>) -> bool {
    &&& forall|i: int| 0 <= i < s.len() ==> (#[trigger] s[i].id) >= 1
    &&& forall|i: int, j: int| 0 <= i < j < s.len() ==> (#[trigger] s[i].id) < (#[trigger] s[j].id)
    &&& forall|i: int|
        0 <= i < s.len() ==> match (#[trigger] s[i]).parent {
            Some(p) => p < s[i].id,
            None => true,
        }
    &&& forall|i: int|
        0 <= i < s.len() ==> (match (#[trigger] s[i]).likes {
            Some(v) => v >= 0,
            None => true,
        } && match s[i].dislikes {
            Some(v) => v >= 0,
            None => true,
        })
}

/// Every listed row is one of the stored rows.
proof fn lemma_listed_element(rows: Seq<Comment>, tid: int, k: int)
    requires
        0 <= k < listed_rows(rows, tid).len(),
    ensures
        exists|i: int|
            0 <= i < rows.len() && listed_rows(rows, tid)[k] == rows[i] && displayable(
                rows[i],
                tid,
            ),
    decreases rows.len(),
{
    let lr = listed_rows(rows, tid);
    if rows.len() > 0 {
        let prev = listed_rows(rows.drop_last(), tid);
        if displayable(rows.last(), tid) && k == lr.len() - 1 {
            assert(lr[k] == rows[rows.len() - 1]);
        } else {
            assert(lr[k] == prev[k]);
            lemma_listed_element(rows.drop_last(), tid, k);
            let i = choose|i: int|
                0 <= i < rows.drop_last().len() && prev[k] == rows.drop_last()[i] && displayable(
                    rows.drop_last()[i],
                    tid,
                );
            assert(rows.drop_last()[i] == rows[i]);
        }
    }
}

/// Whether an edit is authorized against the stored row's data at a given
/// moment: the claimed hash must equal the stored one, and less than
/// `offset` seconds may have passed since the last change (the later of
/// creation and modification).
pub open spec fn authorize_spec(
    stored_hash: Seq<char>,
    claimed_hash: Seq<char>,
    created: i64,
    modified: Option<i64>,
    now: i64,
    offset: i64,
) -> bool {
    let last: int = match modified {
        Some(m) => if m > created {
            m as int
        } else {
            created as int
        },
        None => created as int,
    };
    stored_hash == claimed_hash && now - last < offset
}

/// Permits an edit only if the claimed hash equals the stored one and the
/// edit window has not elapsed at the given moment. Both conditions must
/// hold.
pub fn authorize_edit(
    stored_hash: &str,
    claimed_hash: &str,
    created: i64,
    modified: Option<i64>,
    now: i64,
    offset: i64,
) -> (r: Result<(), ErrorKind>)
    ensures
        r == if authorize_spec(stored_hash@, claimed_hash@, created, modified, now, offset) {
            Ok::<(), ErrorKind>(())
        } else {
            Err::<(), ErrorKind>(ErrorKind::Unauthorized)
        },
{
    let last: i64 = match modified {
        Some(m) => if m > created {
            m
        } else {
            created
        },
        None => created,
    };
    let within = (now as i128) - (last as i128) < (offset as i128);
    if str_eq(stored_hash, claimed_hash) && within {
        Ok(())
    } else {
        Err(ErrorKind::Unauthorized)
    }
}

/// Checks whether the caller may edit the stored comment right now: the
/// claimed hash must match the stored one and the edit window must still be
/// open. The moment is read from the wall clock, so only the time-free part
/// of the outcome is pinned; `authorize_edit` decides exactly for a given
/// moment.
pub fn update_authorised(store: &CommentStore, claimed_hash: &str, id: i32, offset: i64) -> (r:
    Result<(), ErrorKind>)
    requires
        store.wf(),
    ensures
        !has_id(store.comments@, id as int) ==> r == Err::<(), ErrorKind>(ErrorKind::StorageRead),
        has_id(store.comments@, id as int) ==> {
            let c = store.comments@[id_index(store.comments@, id as int)];
            &&& (r is Ok ==> c.hash@ == claimed_hash@)
            &&& (c.hash@ != claimed_hash@ ==> r == Err::<(), ErrorKind>(ErrorKind::Unauthorized))
            &&& (r is Err ==> r == Err::<(), ErrorKind>(ErrorKind::Unauthorized))
        },
{
    match find_index(&store.comments, id) {
        None => Err(ErrorKind::StorageRead),
        Some(i) => {
            proof {
                lemma_id_index(store.comments@, i as int);
            }
            let c = &store.comments[i];
            let now = now_timestamp();
            authorize_edit(c.hash.as_str(), claimed_hash, c.created, c.modified, now, offset)
        },
    }
}

/// The id the next inserted row receives: past `next_id` and past every id
/// the effective parent references.
pub open spec fn spec_insert_id(next_id: int, eff: Option<i32>) -> int {
    match eff {
        Some(p) => if p >= next_id {
            p + 1
        } else {
            next_id
        },
        None => next_id,
    }
}

/// The freshly inserted row, field by field: visible, unmodified, with no
/// votes and no ledger, stamped with the given moment, its identity hash
/// derived from the submitted profile fields and the remote IP.
pub open spec fn fresh_row(
    c: Comment,
    id: int,
    tid: i32,
    parent: Option<i32>,
    now: i64,
    ip: Seq<char>,
    name: Option<Seq<char>>,
    mail: Option<Seq<char>>,
    site: Option<Seq<char>>,
    text: Seq<char>,
) -> bool {
    &&& c.id == id
    &&& c.tid == tid
    &&& c.parent == parent
    &&& c.created == now
    &&& c.modified is None
    &&& c.mode == Mode::Visible
    &&& opt_view(c.remote_addr) == (if ip.len() == 0 {
        None::<Seq<char>>
    } else {
        Some(ip)
    })
    &&& c.text@ == text
    &&& opt_view(c.author) == name
    &&& opt_view(c.email) == mail
    &&& opt_view(c.website) == site
    &&& c.hash@ == hash_spec(name, mail, site, Some(ip))
    &&& c.likes is None
    &&& c.dislikes is None
    &&& c.voters is None
}

/// The row after an edit, field by field: text, profile fields and identity
/// hash rewritten, the modification stamp set, everything else kept.
pub open spec fn edited_row(
    c2: Comment,
    c1: Comment,
    name: Option<Seq<char>>,
    mail: Option<Seq<char>>,
    site: Option<Seq<char>>,
    text: Seq<char>,
    ip: Seq<char>,
    now: i64,
) -> bool {
    &&& c2.id == c1.id
    &&& c2.tid == c1.tid
    &&& c2.parent == c1.parent
    &&& c2.created == c1.created
    &&& c2.modified == Some(now)
    &&& c2.mode == c1.mode
    &&& opt_view(c2.remote_addr) == opt_view(c1.remote_addr)
    &&& c2.text@ == text
    &&& opt_view(c2.author) == name
    &&& opt_view(c2.email) == mail
    &&& opt_view(c2.website) == site
    &&& c2.hash@ == hash_spec(name, mail, site, Some(ip))
    &&& c2.likes == c1.likes
    &&& c2.dislikes == c1.dislikes
    &&& opt_bytes_view(c2.voters) == opt_bytes_view(c1.voters)
}

/// Subset of the comment which was just inserted, needed to populate the
/// frontend without a complete refresh.
#[derive(Debug)]
pub struct InsertedComment {
    /// Primary key.
    pub id: i32,
    /// Parent comment.
    pub parent: Option<i32>,
    /// Display author.
    pub author: Option<String>,
}

impl InsertedComment {
    /// Creates the minimal projection of a freshly read row.
    pub fn new(comment: &PrintedComment) -> (r: InsertedComment)
        ensures
            r.id == comment.id,
            r.parent == comment.parent,
            opt_view(r.author) == display_author_spec(
                opt_view(comment.author),
                opt_view(comment.email),
                opt_view(comment.url),
            ),
    {
        let author = get_author(&comment.author, &comment.email, &comment.url);
        InsertedComment { id: comment.id, parent: comment.parent, author }
    }
}

/// Subset of the comment which was just edited, needed to populate the
/// frontend without a complete refresh.
#[derive(Debug)]
pub struct CommentEdits {
    /// Primary key.
    pub id: i32,
    /// Display author.
    pub author: Option<String>,
    /// The comment text.
    pub text: String,
    /// Identity hash of the commenter.
    pub hash: String,
}

impl CommentEdits {
    /// Creates the minimal projection of a freshly edited row.
    pub fn new(comment: &PrintedComment) -> (r: CommentEdits)
        ensures
            r.id == comment.id,
            r.text@ == comment.text@,
            r.hash@ == comment.hash@,
            opt_view(r.author) == display_author_spec(
                opt_view(comment.author),
                opt_view(comment.email),
                opt_view(comment.url),
            ),
    {
        let author = get_author(&comment.author, &comment.email, &comment.url);
        CommentEdits {
            id: comment.id,
            author,
            text: comment.text.clone(),
            hash: comment.hash.clone(),
        }
    }
}

impl Comment {
    /// Returns the number of comments for the post denoted by `path`:
    /// comments of that thread in any non-pending mode.
    pub fn count(store: &CommentStore, path: &str) -> (r: Result<i64, ErrorKind>)
        requires
            store.wf(),
        ensures
            r == Ok::<i64, ErrorKind>(count_spec(store.comments@, store.threads@, path@) as i64),
    {
        match find_thread(&store.threads, path) {
            None => Ok(0),
            Some(t) => {
                proof {
                    lemma_len_bound(store.comments@);
                }
                let rows = &store.comments;
                let n = rows.len();
                let mut c: i64 = 0;
                let mut i: usize = 0;
                proof {
                    assert(rows@.subrange(0, 0) =~= Seq::<Comment>::empty());
                }
                while i < n
                    invariant
                        i <= n,
                        n == rows@.len(),
                        n <= 0x7fff_ffff,
                        c == count_in(rows@.subrange(0, i as int), t as int),
                        0 <= c <= i,
                    decreases n - i,
                {
                    proof {
                        let pre = rows@.subrange(0, i as int);
                        let cur = rows@.subrange(0, i as int + 1);
                        assert(cur.drop_last() =~= pre);
                        assert(cur.last() == rows@[i as int]);
                    }
                    let keep = rows[i].tid == t && !(rows[i].mode == Mode::Pending);
                    if keep {
                        c = c + 1;
                    }
                    i += 1;
                }
                proof {
                    assert(rows@.subrange(0, n as int) =~= rows@);
                }
                Ok(c)
            },
        }
    }

    /// Stores a new comment at the given moment: the effective parent is
    /// resolved against the nesting limit, the identity hash derived, and a
    /// fresh visible row appended under a fresh id. Fails only when the id
    /// space is exhausted.
    pub fn insert_at(
        store: &mut CommentStore,
        tid: i32,
        form: &FormInput,
        ip_addr: &str,
        nesting_limit: u32,
        now: i64,
    ) -> (r: Result<InsertedComment, ErrorKind>)
        requires
            old(store).wf(),
        ensures
            final(store).wf(),
            final(store).threads == old(store).threads,
            ({
                let eff = resolve_parent_spec(old(store).comments@, form.parent, nesting_limit);
                let nid = spec_insert_id(old(store).next_id as int, eff);
                &&& (r is Err <==> nid > 0x7fff_fffe)
                &&& match r {
                    Err(e) => e == ErrorKind::StorageWrite && final(store).comments == old(
                        store,
                    ).comments && final(store).next_id == old(store).next_id,
                    Ok(ic) => {
                        &&& final(store).comments@.len() == old(store).comments@.len() + 1
                        &&& final(store).comments@.drop_last() == old(store).comments@
                        &&& fresh_row(
                            final(store).comments@.last(),
                            nid,
                            tid,
                            eff,
                            now,
                            ip_addr@,
                            opt_view(form.name),
                            opt_view(form.email),
                            opt_view(form.url),
                            form.comment@,
                        )
                        &&& final(store).next_id == nid + 1
                        &&& ic.id == nid
                        &&& ic.parent == eff
                        &&& opt_view(ic.author) == display_author_spec(
                            opt_view(form.name),
                            opt_view(form.email),
                            opt_view(form.url),
                        )
                    },
                }
            }),
            ((forall|i: int|
                0 <= i < old(store).comments@.len() ==> #[trigger] depth_at(
                    old(store).comments@,
                    i,
                ) <= nesting_limit + 1) && (match form.parent {
                Some(p) => has_id(old(store).comments@, p as int) || nesting_limit >= 1,
                None => true,
            })) ==> forall|i: int|
                0 <= i < final(store).comments@.len() ==> #[trigger] depth_at(
                    final(store).comments@,
                    i,
                ) <= nesting_limit + 1,
    {
        let ghost oldrows = store.comments@;
        let parent_id = nesting_check(store, form.parent, nesting_limit);
        let hash = gen_hash(&form.name, &form.email, &form.url, Some(ip_addr));
        let nid: i32;
        match parent_id {
            Some(p) => {
                if p >= store.next_id {
                    if p >= 0x7fff_fffe {
                        return Err(ErrorKind::StorageWrite);
                    }
                    nid = p + 1;
                } else {
                    if store.next_id >= 0x7fff_ffff {
                        return Err(ErrorKind::StorageWrite);
                    }
                    nid = store.next_id;
                }
            },
            None => {
                if store.next_id >= 0x7fff_ffff {
                    return Err(ErrorKind::StorageWrite);
                }
                nid = store.next_id;
            },
        }
        let ip = if ip_addr.is_empty() {
            None
        } else {
            Some(ip_addr.to_owned())
        };
        let c = Comment {
            id: nid,
            tid,
            parent: parent_id,
            created: now,
            modified: None,
            mode: Mode::Visible,
            remote_addr: ip,
            text: form.comment.clone(),
            author: clone_opt(&form.name),
            email: clone_opt(&form.email),
            website: clone_opt(&form.url),
            hash,
            likes: None,
            dislikes: None,
            voters: None,
        };
        store.next_id = nid + 1;
        store.comments.push(c);
        proof {
            let rp = store.comments@;
            let n = oldrows.len();
            assert(rp.drop_last() =~= oldrows);
            assert forall|i: int, j: int| 0 <= i < j < rp.len() implies (#[trigger] rp[i].id)
                < (#[trigger] rp[j].id) by {
                if j < n {
                    assert(rp[i] == oldrows[i] && rp[j] == oldrows[j]);
                } else {
                    if i < n {
                        assert(rp[i] == oldrows[i]);
                        assert(oldrows[i].id < old(store).next_id);
                    }
                }
            }
            assert forall|i: int| 0 <= i < rp.len() implies parent_ok(#[trigger] rp[i]) by {
                if i < n {
                    assert(rp[i] == oldrows[i]);
                }
            }
            assert forall|i: int| 0 <= i < rp.len() implies (#[trigger] rp[i].id) >= 1 by {
                if i < n {
                    assert(rp[i] == oldrows[i]);
                }
            }
            assert forall|i: int| 0 <= i < rp.len() implies counters_ok(#[trigger] rp[i]) by {
                if i < n {
                    assert(rp[i] == oldrows[i]);
                }
            }
            assert forall|i: int| 0 <= i < rp.len() implies (#[trigger] rp[i].id)
                < store.next_id by {
                if i < n {
                    assert(rp[i] == oldrows[i]);
                    assert(oldrows[i].id < old(store).next_id);
                }
            }
            lemma_id_index(rp, n as int);
        }
        let printed = match PrintedComment::get(store, nid) {
            Ok(p) => p,
            Err(_) => {
                proof {
                    assert(false);
                }
                return Err(ErrorKind::StorageRead);
            },
        };
        let ic = InsertedComment::new(&printed);
        proof {
            let rp = store.comments@;
            let n = oldrows.len();
            let eff = resolve_parent_spec(oldrows, form.parent, nesting_limit);
            assert(printed_rowv(printed) == comment_rowv(rp[n as int]));
            assert(ic.parent == rp[n as int].parent) by {
                let pv = printed_rowv(printed).parent;
                match (printed.parent, rp[n as int].parent) {
                    (Some(a), Some(b)) => {
                        assert(pv == Some(a as int) && pv == Some(b as int));
                    },
                    _ => {},
                }
            }
            // depth preservation under the stated conditions
            if (forall|i: int|
                0 <= i < oldrows.len() ==> #[trigger] depth_at(oldrows, i) <= nesting_limit + 1)
                && (match form.parent {
                Some(p) => has_id(oldrows, p as int) || nesting_limit >= 1,
                None => true,
            }) {
                assert forall|i: int| 0 <= i < rp.len() implies #[trigger] depth_at(rp, i)
                    <= nesting_limit + 1 by {
                    assert(rp =~= oldrows.push(rp[n as int]));
                    let c_new = rp[n as int];
                    if i < n {
                        lemma_depth_push(oldrows, c_new, i);
                    } else {
                        lemma_resolved_parent_depth(oldrows, form.parent, nesting_limit);
                        match c_new.parent {
                            None => {
                                assert(depth_at(rp, i) == 1);
                            },
                            Some(p) => {
                                let j = id_index(rp, p as int);
                                if 0 <= j < i && rp[j].id == p {
                                    assert(rp[j] == oldrows[j]);
                                    lemma_id_index(oldrows, j);
                                    assert(has_id(oldrows, p as int));
                                    assert(id_index(oldrows, p as int) == j);
                                    assert(depth_at(oldrows, j) <= nesting_limit);
                                    lemma_depth_push(oldrows, c_new, j);
                                    assert(depth_at(rp, i) == 1 + depth_at(rp, j));
                                } else {
                                    assert(depth_at(rp, i) == 2);
                                    // a kept dangling parent implies the
                                    // requested parent was not stored, so the
                                    // limit is at least 1 here
                                    if has_id(oldrows, p as int) {
                                        let w = id_index(oldrows, p as int);
                                        assert(oldrows[w].id == p);
                                        assert(rp[w] == oldrows[w]);
                                        lemma_id_index(rp, w);
                                        assert(false);
                                    }
                                    assert(match form.parent {
                                        Some(q) => !has_id(oldrows, q as int) || depth_at(
                                            oldrows,
                                            id_index(oldrows, q as int),
                                        ) > nesting_limit,
                                        None => false,
                                    } || eff != form.parent);
                                    assert(nesting_limit >= 1);
                                }
                            },
                        }
                    }
                }
            }
        }
        Ok(ic)
    }

    /// Stores a new comment, stamped with the current time.
    pub fn insert(
        store: &mut CommentStore,
        tid: i32,
        form: &FormInput,
        ip_addr: &str,
        nesting_limit: u32,
    ) -> (r: Result<InsertedComment, ErrorKind>)
        requires
            old(store).wf(),
        ensures
            final(store).wf(),
            final(store).threads == old(store).threads,
            ({
                let eff = resolve_parent_spec(old(store).comments@, form.parent, nesting_limit);
                let nid = spec_insert_id(old(store).next_id as int, eff);
                &&& (r is Err <==> nid > 0x7fff_fffe)
                &&& match r {
                    Err(e) => e == ErrorKind::StorageWrite && final(store).comments == old(
                        store,
                    ).comments && final(store).next_id == old(store).next_id,
                    Ok(ic) => {
                        &&& final(store).comments@.len() == old(store).comments@.len() + 1
                        &&& final(store).comments@.drop_last() == old(store).comments@
                        &&& exists|t: i64|
                            fresh_row(
                                final(store).comments@.last(),
                                nid,
                                tid,
                                eff,
                                t,
                                ip_addr@,
                                opt_view(form.name),
                                opt_view(form.email),
                                opt_view(form.url),
                                form.comment@,
                            )
                        &&& final(store).next_id == nid + 1
                        &&& ic.id == nid
                        &&& ic.parent == eff
                        &&& opt_view(ic.author) == display_author_spec(
                            opt_view(form.name),
                            opt_view(form.email),
                            opt_view(form.url),
                        )
                    },
                }
            }),
    {
        let now = now_timestamp();
        let r = Self::insert_at(store, tid, form, ip_addr, nesting_limit, now);
        proof {
            if r is Ok {
                let eff = resolve_parent_spec(old(store).comments@, form.parent, nesting_limit);
                let nid = spec_insert_id(old(store).next_id as int, eff);
                assert(fresh_row(
                    store.comments@.last(),
                    nid,
                    tid,
                    eff,
                    now,
                    ip_addr@,
                    opt_view(form.name),
                    opt_view(form.email),
                    opt_view(form.url),
                    form.comment@,
                ));
            }
        }
        r
    }

    /// Rewrites a comment's text, profile fields and identity hash at the
    /// given moment, setting the modification stamp. Authorization is the
    /// caller's responsibility via `update_authorised`.
    pub fn update_at(
        store: &mut CommentStore,
        id: i32,
        data: &FormEdit,
        ip_addr: &str,
        now: i64,
    ) -> (r: Result<CommentEdits, ErrorKind>)
        requires
            old(store).wf(),
        ensures
            final(store).wf(),
            final(store).threads == old(store).threads,
            final(store).next_id == old(store).next_id,
            !has_id(old(store).comments@, id as int) ==> r == Err::<CommentEdits, ErrorKind>(
                ErrorKind::StorageRead,
            ) && final(store).comments == old(store).comments,
            has_id(old(store).comments@, id as int) ==> ({
                let j = id_index(old(store).comments@, id as int);
                &&& r is Ok
                &&& final(store).comments@.len() == old(store).comments@.len()
                &&& (forall|k: int|
                    0 <= k < old(store).comments@.len() && k != j ==> final(store).comments@[k]
                        == old(store).comments@[k])
                &&& edited_row(
                    final(store).comments@[j],
                    old(store).comments@[j],
                    opt_view(data.name),
                    opt_view(data.email),
                    opt_view(data.url),
                    data.comment@,
                    ip_addr@,
                    now,
                )
                &&& match r {
                    Ok(ce) => ce.id == id && ce.text@ == data.comment@ && ce.hash@ == hash_spec(
                        opt_view(data.name),
                        opt_view(data.email),
                        opt_view(data.url),
                        Some(ip_addr@),
                    ) && opt_view(ce.author) == display_author_spec(
                        opt_view(data.name),
                        opt_view(data.email),
                        opt_view(data.url),
                    ),
                    Err(_) => false,
                }
            }),
    {
        let ghost oldrows = store.comments@;
        let jdx = match find_index(&store.comments, id) {
            None => {
                return Err(ErrorKind::StorageRead);
            },
            Some(j) => j,
        };
        proof {
            lemma_id_index(oldrows, jdx as int);
        }
        let hash = gen_hash(&data.name, &data.email, &data.url, Some(ip_addr));
        let c = &store.comments[jdx];
        let newrow = Comment {
            id: c.id,
            tid: c.tid,
            parent: c.parent,
            created: c.created,
            modified: Some(now),
            mode: c.mode,
            remote_addr: clone_opt(&c.remote_addr),
            text: data.comment.clone(),
            author: clone_opt(&data.name),
            email: clone_opt(&data.email),
            website: clone_opt(&data.url),
            hash,
            likes: c.likes,
            dislikes: c.dislikes,
            voters: clone_opt_bytes(&c.voters),
        };
        set_row(&mut store.comments, jdx, newrow);
        proof {
            let rp = store.comments@;
            assert forall|i: int, j: int| 0 <= i < j < rp.len() implies (#[trigger] rp[i].id)
                < (#[trigger] rp[j].id) by {
                assert(oldrows[i].id < oldrows[j].id);
            }
            assert forall|i: int| 0 <= i < rp.len() implies parent_ok(#[trigger] rp[i])
                && counters_ok(rp[i]) && rp[i].id >= 1 && rp[i].id < store.next_id by {
                assert(parent_ok(oldrows[i]) && counters_ok(oldrows[i]));
                assert(oldrows[i].id < old(store).next_id);
            }
            lemma_id_index(rp, jdx as int);
        }
        let printed = match PrintedComment::get(store, id) {
            Ok(p) => p,
            Err(_) => {
                proof {
                    assert(false);
                }
                return Err(ErrorKind::StorageRead);
            },
        };
        Ok(CommentEdits::new(&printed))
    }

    /// Rewrites a comment's text, profile fields and identity hash, with the
    /// modification stamp read from the wall clock.
    pub fn update(store: &mut CommentStore, id: i32, data: &FormEdit, ip_addr: &str) -> (r: Result<
        CommentEdits,
        ErrorKind,
    >)
        requires
            old(store).wf(),
        ensures
            final(store).wf(),
            final(store).threads == old(store).threads,
            final(store).next_id == old(store).next_id,
            !has_id(old(store).comments@, id as int) ==> r == Err::<CommentEdits, ErrorKind>(
                ErrorKind::StorageRead,
            ) && final(store).comments == old(store).comments,
            has_id(old(store).comments@, id as int) ==> ({
                let j = id_index(old(store).comments@, id as int);
                &&& r is Ok
                &&& final(store).comments@.len() == old(store).comments@.len()
                &&& (forall|k: int|
                    0 <= k < old(store).comments@.len() && k != j ==> final(store).comments@[k]
                        == old(store).comments@[k])
                &&& exists|t: i64|
                    edited_row(
                        final(store).comments@[j],
                        old(store).comments@[j],
                        opt_view(data.name),
                        opt_view(data.email),
                        opt_view(data.url),
                        data.comment@,
                        ip_addr@,
                        t,
                    )
                &&& match r {
                    Ok(ce) => ce.id == id && ce.text@ == data.comment@ && ce.hash@ == hash_spec(
                        opt_view(data.name),
                        opt_view(data.email),
                        opt_view(data.url),
                        Some(ip_addr@),
                    ) && opt_view(ce.author) == display_author_spec(
                        opt_view(data.name),
                        opt_view(data.email),
                        opt_view(data.url),
                    ),
                    Err(_) => false,
                }
            }),
    {
        let now = now_timestamp();
        let r = Self::update_at(store, id, data, ip_addr, now);
        proof {
            if has_id(old(store).comments@, id as int) {
                let j = id_index(old(store).comments@, id as int);
                assert(edited_row(
                    store.comments@[j],
                    old(store).comments@[j],
                    opt_view(data.name),
                    opt_view(data.email),
                    opt_view(data.url),
                    data.comment@,
                    ip_addr@,
                    now,
                ));
            }
        }
        r
    }
}


/// The set of voter texts a row's serialized ledger records as having voted
/// (more precisely: as testing positive).
pub open spec fn row_voters_elems(c: Comment) -> Set<Seq<char>> {
    match c.voters {
        Some(b) => if bloom_bytes_ok(b@) {
            bloom_bytes_elems(b@)
        } else {
            Set::empty()
        },
        None => Set::empty(),
    }
}

/// A row's like count, absent meaning zero.
pub open spec fn likes_of(c: Comment) -> int {
    match c.likes {
        Some(v) => v as int,
        None => 0,
    }
}

/// A row's dislike count, absent meaning zero.
pub open spec fn dislikes_of(c: Comment) -> int {
    match c.dislikes {
        Some(v) => v as int,
        None => 0,
    }
}

/// The voted-on row: the chosen counter one higher (saturating at the column
/// limit), the ledger rewritten so that it records the voter and everything
/// it recorded before, everything else kept.
pub open spec fn voted_row_update(
    pre: Seq<Comment>,
    post: Seq<Comment>,
    j: int,
    ip: Seq<char>,
    upvote: bool,
) -> bool {
    &&& post.len() == pre.len()
    &&& (forall|k: int| 0 <= k < pre.len() && k != j ==> post[k] == pre[k])
    &&& post[j].id == pre[j].id
    &&& post[j].tid == pre[j].tid
    &&& post[j].parent == pre[j].parent
    &&& post[j].created == pre[j].created
    &&& post[j].modified == pre[j].modified
    &&& post[j].mode == pre[j].mode
    &&& opt_view(post[j].remote_addr) == opt_view(pre[j].remote_addr)
    &&& post[j].text@ == pre[j].text@
    &&& opt_view(post[j].author) == opt_view(pre[j].author)
    &&& opt_view(post[j].email) == opt_view(pre[j].email)
    &&& opt_view(post[j].website) == opt_view(pre[j].website)
    &&& post[j].hash@ == pre[j].hash@
    &&& (post[j].voters matches Some(b2) && bloom_bytes_ok(b2@) && b2@.len() > 45
        && row_voters_elems(pre[j]).insert(ip).subset_of(bloom_bytes_elems(b2@)))
    &&& (if upvote {
        likes_of(post[j]) == (if likes_of(pre[j]) < 0x7fff_ffff {
            likes_of(pre[j]) + 1
        } else {
            likes_of(pre[j])
        }) && post[j].dislikes == pre[j].dislikes
    } else {
        dislikes_of(post[j]) == (if dislikes_of(pre[j]) < 0x7fff_ffff {
            dislikes_of(pre[j]) + 1
        } else {
            dislikes_of(pre[j])
        }) && post[j].likes == pre[j].likes
    })
}

/// Everything a vote call can do to the rows, by case: a missing row fails
/// the read; an undecodable or header-only ledger fails deserialization; a
/// voter the ledger records is turned away with `AlreadyVoted` and nothing
/// changes; otherwise the vote counts, except that creating a fresh ledger
/// can fail for want of randomness.
pub open spec fn vote_post(
    pre: Seq<Comment>,
    post: Seq<Comment>,
    id: i32,
    ip: Seq<char>,
    upvote: bool,
    r: Result<(), ErrorKind>,
) -> bool {
    if !has_id(pre, id as int) {
        r == Err::<(), ErrorKind>(ErrorKind::StorageRead) && post == pre
    } else {
        let j = id_index(pre, id as int);
        match pre[j].voters {
            Some(b) => {
                if !bloom_bytes_ok(b@) || b@.len() <= 45 {
                    r == Err::<(), ErrorKind>(ErrorKind::SerializationFailed) && post == pre
                } else if bloom_bytes_elems(b@).contains(ip) {
                    r == Err::<(), ErrorKind>(ErrorKind::AlreadyVoted) && post == pre
                } else {
                    r == Ok::<(), ErrorKind>(()) && voted_row_update(pre, post, j, ip, upvote)
                }
            },
            None => (r == Ok::<(), ErrorKind>(()) && voted_row_update(pre, post, j, ip, upvote))
                || (r == Err::<(), ErrorKind>(ErrorKind::StorageWrite) && post == pre),
        }
    }
}


/// Vote deduplication: a vote that succeeded leaves the voter recorded in
/// the comment's ledger, so a second vote by the same origin on the same
/// comment is turned away with `AlreadyVoted`, and over the two calls the
/// like counter rises by exactly one, not two.
pub proof fn lemma_vote_dedup(
    s0: Seq<Comment>,
    s1: Seq<Comment>,
    s2: Seq<Comment>,
    id: i32,
    ip: Seq<char>,
    r1: Result<(), ErrorKind>,
    r2: Result<(), ErrorKind>,
)
    requires
        wf_rows(s0),
        has_id(s0, id as int),
        likes_of(s0[id_index(s0, id as int)]) < 0x7fff_ffff,
        vote_post(s0, s1, id, ip, true, r1),
        r1 == Ok::<(), ErrorKind>(()),
        vote_post(s1, s2, id, ip, true, r2),
    ensures
        r2 == Err::<(), ErrorKind>(ErrorKind::AlreadyVoted),
        s2 == s1,
        likes_of(s1[id_index(s1, id as int)]) == likes_of(s0[id_index(s0, id as int)]) + 1,
        likes_of(s2[id_index(s2, id as int)]) == likes_of(s0[id_index(s0, id as int)]) + 1,
{
    let j = id_index(s0, id as int);
    assert(0 <= j < s0.len() && s0[j].id == id);
    assert(voted_row_update(s0, s1, j, ip, true));
    assert(wf_rows(s1)) by {
        assert forall|a: int, b: int| 0 <= a < b < s1.len() implies (#[trigger] s1[a].id) < (
        #[trigger] s1[b].id) by {
            assert(s1[a].id == s0[a].id && s1[b].id == s0[b].id);
            assert(s0[a].id < s0[b].id);
        }
        assert forall|k: int| 0 <= k < s1.len() implies (#[trigger] s1[k].id) >= 1 && parent_ok(
            s1[k],
        ) && counters_ok(s1[k]) by {
            if k != j {
                assert(s1[k] == s0[k]);
            } else {
                assert(s1[k].id == s0[k].id && s1[k].parent == s0[k].parent);
                assert(parent_ok(s0[k]));
                assert(likes_of(s1[j]) == likes_of(s0[j]) + 1);
                match s1[j].likes {
                    Some(v) => {
                        assert(v == likes_of(s0[j]) + 1);
                        assert(match s0[j].likes {
                            Some(w) => w >= 0,
                            None => true,
                        });
                    },
                    None => {
                        assert(likes_of(s1[j]) == 0);
                        assert(likes_of(s0[j]) >= 0);
                    },
                }
                match s1[j].dislikes {
                    Some(v) => {
                        assert(s1[j].dislikes == s0[j].dislikes);
                    },
                    None => {},
                }
            }
        }
    }
    lemma_id_index(s1, j);
    assert(id_index(s1, id as int) == j);
    assert(s1[j].voters matches Some(b2) && bloom_bytes_ok(b2@) && b2@.len() > 45
        && bloom_bytes_elems(b2@).contains(ip));
    assert(has_id(s1, id as int));
}

/// Whether some row names the given id as its parent.
pub open spec fn has_children(rows: Seq<Comment>, id: i32) -> bool {
    exists|k: int| 0 <= k < rows.len() && (#[trigger] rows[k]).parent == Some(id)
}

/// The tombstoned form of a row: the mode set, the personal fields (text,
/// author, email, website, identity hash, remote address) scrubbed together
/// with the counters and the vote ledger, while id, parent, thread and
/// timestamps are preserved so descendants remain addressable.
pub open spec fn scrubbed_row(c2: Comment, c1: Comment) -> bool {
    &&& c2.id == c1.id
    &&& c2.tid == c1.tid
    &&& c2.parent == c1.parent
    &&& c2.created == c1.created
    &&& c2.modified == c1.modified
    &&& c2.mode == Mode::Tombstoned
    &&& c2.remote_addr is None
    &&& c2.text@.len() == 0
    &&& c2.author is None
    &&& c2.email is None
    &&& c2.website is None
    &&& c2.hash@.len() == 0
    &&& c2.likes is None
    &&& c2.dislikes is None
    &&& c2.voters is None
}

/// Whether the sweep keeps a row: every row but a childless tombstone stays.
pub open spec fn keep_in_sweep(c: Comment, all: Seq<Comment>) -> bool {
    c.mode != Mode::Tombstoned || has_children(all, c.id)
}

/// The sweep of a prefix of the rows: the rows the sweep keeps, in order,
/// judging children against the full row set at the time of the call.
pub open spec fn sweep_filter(all: Seq<Comment>, prefix: Seq<Comment>) -> Seq<Comment>
    decreases prefix.len(),
{
    if prefix.len() == 0 {
        Seq::empty()
    } else if keep_in_sweep(prefix.last(), all) {
        sweep_filter(all, prefix.drop_last()) + seq![prefix.last()]
    } else {
        sweep_filter(all, prefix.drop_last())
    }
}

/// The first phase of a delete: a childless target row is removed outright,
/// one with children is tombstoned and scrubbed, a missing id changes
/// nothing.
pub open spec fn phase_a_rel(rows: Seq<Comment>, rows1: Seq<Comment>, id: i32) -> bool {
    if !has_id(rows, id as int) {
        rows1 == rows
    } else {
        let j = id_index(rows, id as int);
        if !has_children(rows, id) {
            rows1 == rows.remove(j)
        } else {
            &&& rows1.len() == rows.len()
            &&& (forall|k: int| 0 <= k < rows.len() && k != j ==> rows1[k] == rows[k])
            &&& scrubbed_row(rows1[j], rows[j])
        }
    }
}

/// Whether the comment is one of the first `upto` rows.
pub open spec fn from_rows(c: Comment, rows: Seq<Comment>, upto: int) -> bool {
    exists|i: int| 0 <= i < upto && c == rows[i]
}

/// Whether the comment appears in the sequence.
pub open spec fn appears(c: Comment, s: Seq<Comment>) -> bool {
    exists|k: int| 0 <= k < s.len() && s[k] == c
}

/// The first phase of a delete keeps the rows well formed, never invents an
/// id, and leaves no row carrying a deleted id behind.
proof fn lemma_phase_a(rows: Seq<Comment>, rows1: Seq<Comment>, id: i32)
    requires
        wf_rows(rows),
        phase_a_rel(rows, rows1, id),
    ensures
        wf_rows(rows1),
        forall|k: int|
            0 <= k < rows1.len() ==> exists|i: int|
                0 <= i < rows.len() && (#[trigger] rows1[k].id) == rows[i].id,
        !has_children(rows, id) ==> forall|k: int|
            0 <= k < rows1.len() ==> (#[trigger] rows1[k].id) != id,
{
    if !has_id(rows, id as int) {
        assert forall|k: int| 0 <= k < rows1.len() implies exists|i: int|
            0 <= i < rows.len() && (#[trigger] rows1[k].id) == rows[i].id by {
            assert(rows1[k].id == rows[k].id);
        }
        assert forall|k: int| 0 <= k < rows1.len() && !has_children(rows, id) implies (
        #[trigger] rows1[k].id) != id by {
            if rows1[k].id == id {
                assert(has_id(rows, id as int));
            }
        }
    } else {
        let j = id_index(rows, id as int);
        assert(0 <= j < rows.len() && rows[j].id == id);
        if !has_children(rows, id) {
            assert(rows1 == rows.remove(j));
            assert forall|a: int, b: int| 0 <= a < b < rows1.len() implies (
            #[trigger] rows1[a].id) < (#[trigger] rows1[b].id) by {
                let a0: int = if a < j {
                    a
                } else {
                    a + 1
                };
                let b0: int = if b < j {
                    b
                } else {
                    b + 1
                };
                assert(rows1[a] == rows[a0] && rows1[b] == rows[b0]);
                assert(rows[a0].id < rows[b0].id);
            }
            assert forall|k: int| 0 <= k < rows1.len() implies (#[trigger] rows1[k].id) >= 1
                && parent_ok(rows1[k]) && counters_ok(rows1[k]) && rows1[k].id != id && exists|
                i: int,
            | 0 <= i < rows.len() && rows1[k].id == rows[i].id by {
                let k0: int = if k < j {
                    k
                } else {
                    k + 1
                };
                assert(rows1[k] == rows[k0]);
                assert(rows[k0].id >= 1 && parent_ok(rows[k0]) && counters_ok(rows[k0]));
                if k0 != j && rows[k0].id == id {
                    lemma_id_index(rows, k0);
                }
            }
        } else {
            assert forall|a: int, b: int| 0 <= a < b < rows1.len() implies (
            #[trigger] rows1[a].id) < (#[trigger] rows1[b].id) by {
                assert(rows1[a].id == rows[a].id && rows1[b].id == rows[b].id);
                assert(rows[a].id < rows[b].id);
            }
            assert forall|k: int| 0 <= k < rows1.len() implies (#[trigger] rows1[k].id) >= 1
                && parent_ok(rows1[k]) && counters_ok(rows1[k]) && exists|i: int|
                0 <= i < rows.len() && rows1[k].id == rows[i].id by {
                assert(rows1[k].id == rows[k].id);
                if k != j {
                    assert(rows1[k] == rows[k]);
                    assert(parent_ok(rows[k]) && counters_ok(rows[k]));
                } else {
                    assert(rows1[k].parent == rows[k].parent && rows1[k].id == rows[k].id);
                    assert(parent_ok(rows[k]));
                }
            }
        }
    }
}

/// What a delete leaves behind: a childless target is gone entirely; a
/// target with children stays as a scrubbed tombstone. `fin` is any
/// well-formed selection of the swept rows that keeps what the sweep keeps.
#[verifier::rlimit(100)]
proof fn lemma_delete_outcome(rows: Seq<Comment>, rows1: Seq<Comment>, fin: Seq<Comment>, id: i32)
    requires
        wf_rows(rows),
        wf_rows(rows1),
        wf_rows(fin),
        phase_a_rel(rows, rows1, id),
        forall|k: int| 0 <= k < fin.len() ==> from_rows(#[trigger] fin[k], rows1, rows1.len() as int),
        forall|i: int|
            0 <= i < rows1.len() && keep_in_sweep(#[trigger] rows1[i], rows1) ==> appears(
                rows1[i],
                fin,
            ),
    ensures
        !has_children(rows, id) ==> !has_id(fin, id as int),
        (has_children(rows, id) && has_id(rows, id as int)) ==> (has_id(fin, id as int)
            && scrubbed_row(
            fin[id_index(fin, id as int)],
            rows[id_index(rows, id as int)],
        )),
{
    lemma_phase_a(rows, rows1, id);
    if !has_children(rows, id) {
        assert forall|k: int| 0 <= k < fin.len() implies (#[trigger] fin[k].id) != id by {
            let i2 = choose|i2: int| 0 <= i2 < rows1.len() && fin[k] == rows1[i2];
            assert(rows1[i2].id != id);
        }
        if has_id(fin, id as int) {
            let w = id_index(fin, id as int);
            assert(fin[w].id != id);
        }
    }
    if has_children(rows, id) && has_id(rows, id as int) {
        let j = id_index(rows, id as int);
        let ch = choose|k: int| 0 <= k < rows.len() && (#[trigger] rows[k]).parent == Some(id);
        assert(parent_ok(rows[ch]));
        assert(rows[ch].id != id) by {
            if rows[ch].id == id {
                lemma_id_index(rows, ch);
            }
        }
        assert(ch != j);
        assert(rows1[ch] == rows[ch]);
        assert(has_children(rows1, id));
        assert(keep_in_sweep(rows1[j], rows1));
        assert(appears(rows1[j], fin));
        let k = choose|k: int| 0 <= k < fin.len() && fin[k] == rows1[j];
        assert(fin[k].id == id);
        lemma_id_index(fin, k);
        assert(scrubbed_row(fin[id_index(fin, id as int)], rows[j]));
    }
}

/// The first phase of a delete: a childless target is removed outright, one
/// with children is tombstoned and scrubbed, a missing id changes nothing.
fn remove_or_scrub(rows: &mut Vec<Comment>, id: i32)
    requires
        wf_rows(old(rows)@),
    ensures
        phase_a_rel(old(rows)@, final(rows)@, id),
        wf_rows(final(rows)@),
        forall|k: int|
            0 <= k < final(rows)@.len() ==> exists|i: int|
                0 <= i < old(rows)@.len() && (#[trigger] final(rows)@[k].id) == old(rows)@[i].id,
{
    let ghost oldrows = rows@;
    let children_exist = has_child(rows, id);
    if !children_exist {
        match find_index(rows, id) {
            Some(idx) => {
                proof {
                    lemma_id_index(oldrows, idx as int);
                }
                rows.remove(idx);
            },
            None => {},
        }
    } else {
        match find_index(rows, id) {
            Some(idx) => {
                proof {
                    lemma_id_index(oldrows, idx as int);
                }
                let c = &rows[idx];
                let scr = Comment {
                    id: c.id,
                    tid: c.tid,
                    parent: c.parent,
                    created: c.created,
                    modified: c.modified,
                    mode: Mode::Tombstoned,
                    remote_addr: None,
                    text: String::new(),
                    author: None,
                    email: None,
                    website: None,
                    hash: String::new(),
                    likes: None,
                    dislikes: None,
                    voters: None,
                };
                set_row(rows, idx, scr);
            },
            None => {},
        }
    }
    proof {
        assert(phase_a_rel(oldrows, rows@, id));
        lemma_phase_a(oldrows, rows@, id);
    }
}

/// One sweep over the current parent references: every tombstoned row whose
/// id no row names as parent is removed; everything else is kept in order.
fn sweep_rows(rows: &mut Vec<Comment>)
    requires
        wf_rows(old(rows)@),
        old(rows)@.len() <= 0x7fff_ffff,
    ensures
        final(rows)@ == sweep_filter(old(rows)@, old(rows)@),
        wf_rows(final(rows)@),
        forall|k: int|
            0 <= k < final(rows)@.len() ==> from_rows(
                #[trigger] final(rows)@[k],
                old(rows)@,
                old(rows)@.len() as int,
            ),
        forall|i: int|
            0 <= i < old(rows)@.len() && keep_in_sweep(#[trigger] old(rows)@[i], old(rows)@)
                ==> appears(old(rows)@[i], final(rows)@),
{
        let ghost rows1 = rows@;
        let n = rows.len();
        let mut keeps: Vec<bool> = Vec::new();
        let mut i: usize = 0;
        while i < n
            invariant
                i <= n,
                n == rows@.len(),
                rows@ == rows1,
                keeps@.len() == i,
                forall|k: int| 0 <= k < i ==> keeps@[k] == keep_in_sweep(rows1[k], rows1),
            decreases n - i,
        {
            let tomb = rows[i].mode == Mode::Tombstoned;
            let keep = if !tomb {
                true
            } else {
                has_child(&rows, rows[i].id)
            };
            keeps.push(keep);
            i += 1;
        }
        let mut kept: Vec<Comment> = Vec::new();
        let mut consumed: usize = 0;
        proof {
            assert(rows1.subrange(0, 0) =~= Seq::<Comment>::empty());
            assert(rows1.subrange(0, rows1.len() as int) =~= rows1);
        }
        while rows.len() > 0
            invariant
                consumed <= rows1.len(),
                rows1.len() <= 0x7fff_ffff,
                consumed + rows@.len() == rows1.len(),
                rows@ == rows1.subrange(consumed as int, rows1.len() as int),
                wf_rows(rows1),
                wf_rows(kept@),
                keeps@.len() == rows1.len(),
                forall|k: int| 0 <= k < rows1.len() ==> keeps@[k] == keep_in_sweep(rows1[k], rows1),
                kept@ == sweep_filter(rows1, rows1.subrange(0, consumed as int)),
                forall|k: int|
                    0 <= k < kept@.len() ==> from_rows(#[trigger] kept@[k], rows1, consumed as int),
                forall|i2: int|
                    0 <= i2 < consumed && keep_in_sweep(#[trigger] rows1[i2], rows1) ==> appears(
                        rows1[i2],
                        kept@,
                    ),
            decreases rows@.len(),
        {
            let ghost kept0 = kept@;
            let c = rows.remove(0);
            proof {
                assert(c == rows1[consumed as int]);
                let pre = rows1.subrange(0, consumed as int);
                let cur = rows1.subrange(0, consumed as int + 1);
                assert(cur.drop_last() =~= pre);
                assert(cur.last() == rows1[consumed as int]);
                assert(rows@ =~= rows1.subrange(
                    consumed as int + 1,
                    rows1.len() as int,
                ));
            }
            if keeps[consumed] {
                kept.push(c);
                proof {
                    let kn = kept@;
                    assert(kn == kept0.push(rows1[consumed as int]));
                    assert forall|a: int, b: int| 0 <= a < b < kn.len() implies (
                    #[trigger] kn[a].id) < (#[trigger] kn[b].id) by {
                        if b < kn.len() - 1 {
                            assert(kn[a] == kept0[a] && kn[b] == kept0[b]);
                        } else {
                            assert(kn[a] == kept0[a]);
                            let i2 = choose|i2: int|
                                0 <= i2 < consumed && kept0[a] == rows1[i2];
                            assert(rows1[i2].id < rows1[consumed as int].id);
                        }
                    }
                    assert forall|k: int| 0 <= k < kn.len() implies (#[trigger] kn[k].id) >= 1
                        && parent_ok(kn[k]) && counters_ok(kn[k]) && from_rows(
                        kn[k],
                        rows1,
                        consumed as int + 1,
                    ) by {
                        if k < kn.len() - 1 {
                            assert(kn[k] == kept0[k]);
                            let i2 = choose|i2: int|
                                0 <= i2 < consumed && kept0[k] == rows1[i2];
                            assert(kn[k] == rows1[i2]);
                        } else {
                            assert(kn[k] == rows1[consumed as int]);
                        }
                    }
                    assert forall|i2: int|
                        0 <= i2 < consumed + 1 && keep_in_sweep(
                            #[trigger] rows1[i2],
                            rows1,
                        ) implies appears(rows1[i2], kn) by {
                        if i2 < consumed {
                            let k = choose|k: int| 0 <= k < kept0.len() && kept0[k] == rows1[i2];
                            assert(kn[k] == rows1[i2]);
                        } else {
                            assert(kn[kn.len() - 1] == rows1[i2]);
                        }
                    }
                }
            } else {
                proof {
                    assert forall|i2: int|
                        0 <= i2 < consumed + 1 && keep_in_sweep(
                            #[trigger] rows1[i2],
                            rows1,
                        ) implies appears(rows1[i2], kept@) by {
                        if i2 < consumed {
                            let k = choose|k: int| 0 <= k < kept0.len() && kept0[k] == rows1[i2];
                            assert(kept@[k] == rows1[i2]);
                        }
                    }
                    assert forall|k: int| 0 <= k < kept@.len() implies from_rows(
                        #[trigger] kept@[k],
                        rows1,
                        consumed as int + 1,
                    ) by {
                        let i2 = choose|i2: int| 0 <= i2 < consumed && kept@[k] == rows1[i2];
                    }
                }
            }
            consumed += 1;
        }
        proof {
            assert(rows1.subrange(0, rows1.len() as int) =~= rows1);
        }
        *rows = kept;
        proof {
            assert forall|k: int| 0 <= k < rows@.len() implies from_rows(
                #[trigger] rows@[k],
                rows1,
                rows1.len() as int,
            ) by {
                let i2 = choose|i2: int| 0 <= i2 < consumed && rows@[k] == rows1[i2];
            }
        }
}

/// Whether any row names the given id as its parent.
pub fn has_child(rows: &Vec<Comment>, id: i32) -> (r: bool)
    ensures
        r == has_children(rows@, id),
{
    let n = rows.len();
    let mut i: usize = 0;
    while i < n
        invariant
            i <= n,
            n == rows@.len(),
            forall|k: int| 0 <= k < i ==> (#[trigger] rows@[k]).parent != Some(id),
        decreases n - i,
    {
        match rows[i].parent {
            Some(p) => {
                if p == id {
                    proof {
                        assert(rows@[i as int].parent == Some(id));
                    }
                    return true;
                }
            },
            None => {},
        }
        i += 1;
    }
    proof {
        if has_children(rows@, id) {
            let k = choose|k: int| 0 <= k < rows@.len() && (#[trigger] rows@[k]).parent == Some(id);
            assert(rows@[k].parent != Some(id));
        }
    }
    false
}

impl Comment {
    /// Updates the vote tally for the given comment, provided this origin
    /// has not voted on it before. The voter's IP is recorded in the
    /// comment's probabilistic ledger, so within the ledger's false-positive
    /// tolerance a repeated vote from the same IP is turned away with
    /// `AlreadyVoted` and changes nothing.
    #[verifier::rlimit(100)]
    pub fn vote(store: &mut CommentStore, id: i32, ip_addr: &str, upvote: bool) -> (r: Result<
        (),
        ErrorKind,
    >)
        requires
            old(store).wf(),
        ensures
            final(store).wf(),
            final(store).threads == old(store).threads,
            final(store).next_id == old(store).next_id,
            vote_post(old(store).comments@, final(store).comments@, id, ip_addr@, upvote, r),
    {
        let ghost oldrows = store.comments@;
        let jdx = match find_index(&store.comments, id) {
            None => {
                return Err(ErrorKind::StorageRead);
            },
            Some(j) => j,
        };
        proof {
            lemma_id_index(oldrows, jdx as int);
        }
        let ip_string = ip_addr.to_owned();
        let has_blob = match &store.comments[jdx].voters {
            Some(_) => true,
            None => false,
        };
        let mut filter;
        if has_blob {
            let blob_len: usize;
            let f = match &store.comments[jdx].voters {
                Some(b) => {
                    blob_len = b.len();
                    match bloom_from_slice(b) {
                        Ok(f) => f,
                        Err(_) => {
                            return Err(ErrorKind::SerializationFailed);
                        },
                    }
                },
                None => {
                    proof {
                        assert(false);
                    }
                    return Err(ErrorKind::StorageRead);
                },
            };
            if blob_len <= 45 {
                return Err(ErrorKind::SerializationFailed);
            }
            filter = f;
            let already = bloom_check_and_set(&mut filter, &ip_string);
            if already {
                return Err(ErrorKind::AlreadyVoted);
            }
        } else {
            let f = match bloom_new(VOTER_BITMAP_BYTES, VOTER_CAPACITY) {
                Ok(f) => f,
                Err(_) => {
                    return Err(ErrorKind::StorageWrite);
                },
            };
            filter = f;
            bloom_set(&mut filter, &ip_string);
        }
        let bytes2 = bloom_to_bytes(&filter);
        let c = &store.comments[jdx];
        let nlikes: Option<i32>;
        let ndislikes: Option<i32>;
        if upvote {
            let cur = match c.likes {
                Some(v) => v,
                None => 0,
            };
            nlikes = Some(
                if cur < 0x7fff_ffff {
                    cur + 1
                } else {
                    cur
                },
            );
            ndislikes = c.dislikes;
        } else {
            let cur = match c.dislikes {
                Some(v) => v,
                None => 0,
            };
            ndislikes = Some(
                if cur < 0x7fff_ffff {
                    cur + 1
                } else {
                    cur
                },
            );
            nlikes = c.likes;
        }
        let newrow = Comment {
            id: c.id,
            tid: c.tid,
            parent: c.parent,
            created: c.created,
            modified: c.modified,
            mode: c.mode,
            remote_addr: clone_opt(&c.remote_addr),
            text: c.text.clone(),
            author: clone_opt(&c.author),
            email: clone_opt(&c.email),
            website: clone_opt(&c.website),
            hash: c.hash.clone(),
            likes: nlikes,
            dislikes: ndislikes,
            voters: Some(bytes2),
        };
        set_row(&mut store.comments, jdx, newrow);
        proof {
            let rp = store.comments@;
            assert forall|a: int, b: int| 0 <= a < b < rp.len() implies (#[trigger] rp[a].id)
                < (#[trigger] rp[b].id) by {
                assert(oldrows[a].id < oldrows[b].id);
            }
            assert forall|i: int| 0 <= i < rp.len() implies parent_ok(#[trigger] rp[i])
                && counters_ok(rp[i]) && rp[i].id >= 1 && rp[i].id < store.next_id by {
                assert(parent_ok(oldrows[i]) && counters_ok(oldrows[i]));
                assert(oldrows[i].id < old(store).next_id);
            }
            assert(voted_row_update(oldrows, rp, jdx as int, ip_addr@, upvote));
        }
        Ok(())
    }

    /// Deletes a comment: removed outright if it has no children, tombstoned
    /// and scrubbed if it has. Afterwards, one sweep over the current parent
    /// references removes every childless tombstone; the sweep does not
    /// iterate to a fixpoint, so chains of tombstones may need further
    /// deletes to collapse fully.
    #[verifier::rlimit(100)]
    pub fn delete(store: &mut CommentStore, id: i32) -> (r: Result<(), ErrorKind>)
        requires
            old(store).wf(),
        ensures
            final(store).wf(),
            final(store).threads == old(store).threads,
            final(store).next_id == old(store).next_id,
            r == Ok::<(), ErrorKind>(()),
            exists|rows1: Seq<Comment>|
                #[trigger] phase_a_rel(old(store).comments@, rows1, id) && final(store).comments@
                    == sweep_filter(rows1, rows1),
            !has_children(old(store).comments@, id) ==> !has_id(final(store).comments@, id as int),
            (has_children(old(store).comments@, id) && has_id(old(store).comments@, id as int))
                ==> (has_id(final(store).comments@, id as int) && scrubbed_row(
                final(store).comments@[id_index(final(store).comments@, id as int)],
                old(store).comments@[id_index(old(store).comments@, id as int)],
            )),
    {
        let ghost oldrows = store.comments@;
        remove_or_scrub(&mut store.comments, id);
        let ghost rows1 = store.comments@;
        proof {
            lemma_len_bound(rows1);
        }
        sweep_rows(&mut store.comments);
        proof {
            let fin = store.comments@;
            assert forall|k: int| 0 <= k < fin.len() implies (#[trigger] fin[k].id)
                < store.next_id by {
                let i2 = choose|i2: int| 0 <= i2 < rows1.len() && fin[k] == rows1[i2];
                let i3 = choose|i3: int|
                    0 <= i3 < oldrows.len() && rows1[i2].id == oldrows[i3].id;
                assert(oldrows[i3].id < old(store).next_id);
            }
            lemma_delete_outcome(oldrows, rows1, fin, id);
        }
        Ok(())
    }
}

impl PrintedComment {

    /// Returns all comments to display for the post denoted by `path`:
    /// visible and tombstoned rows of that thread, in stored (ascending id)
    /// order; an unknown path yields an empty list.
    #[verifier::rlimit(100)]
    pub fn list(store: &CommentStore, path: &str) -> (r: Result<Vec<PrintedComment>, ErrorKind>)
        requires
            store.wf(),
        ensures
            r is Ok,
            r matches Ok(v) ==> {
                &&& v@.map_values(|p: PrintedComment| printed_rowv(p)) == (match uri_tid(
                    store.threads@,
                    path@,
                ) {
                    None => Seq::<RowV>::empty(),
                    Some(t) => listed_rows(store.comments@, t).map_values(
                        |c: Comment| comment_rowv(c),
                    ),
                })
                &&& wf_rowv(v@.map_values(|p: PrintedComment| printed_rowv(p)))
            },
    {
        let mut out: Vec<PrintedComment> = Vec::new();
        let t = match find_thread(&store.threads, path) {
            None => {
                proof {
                    assert(out@.map_values(|p: PrintedComment| printed_rowv(p)) =~= Seq::<
                        RowV,
                    >::empty());
                }
                return Ok(out);
            },
            Some(t) => t,
        };
        let rows = &store.comments;
        let n = rows.len();
        let mut i: usize = 0;
        proof {
            assert(rows@.subrange(0, 0) =~= Seq::<Comment>::empty());
            assert(listed_rows(rows@.subrange(0, 0), t as int).map_values(
                |c: Comment| comment_rowv(c),
            ) =~= out@.map_values(|p: PrintedComment| printed_rowv(p)));
        }
        while i < n
            invariant
                i <= n,
                n == rows@.len(),
                rows@ == store.comments@,
                store.wf(),
                out@.map_values(|p: PrintedComment| printed_rowv(p)) == listed_rows(
                    rows@.subrange(0, i as int),
                    t as int,
                ).map_values(|c: Comment| comment_rowv(c)),
                forall|k: int|
                    0 <= k < out@.len() ==> exists|m: int|
                        0 <= m < i && printed_rowv(#[trigger] out@[k]) == comment_rowv(rows@[m]),
            decreases n - i,
        {
            let ghost pre = rows@.subrange(0, i as int);
            let ghost cur = rows@.subrange(0, i as int + 1);
            proof {
                assert(cur.drop_last() =~= pre);
                assert(cur.last() == rows@[i as int]);
            }
            let c = &rows[i];
            let disp = c.tid == t && (c.mode == Mode::Visible || c.mode == Mode::Tombstoned);
            if disp {
                let ghost out0 = out@;
                let p = PrintedComment {
                    id: c.id,
                    parent: c.parent,
                    text: c.text.clone(),
                    author: clone_opt(&c.author),
                    email: clone_opt(&c.email),
                    url: clone_opt(&c.website),
                    hash: c.hash.clone(),
                    created: c.created,
                    likes: c.likes,
                    dislikes: c.dislikes,
                };
                proof {
                    assert(printed_rowv(p) == comment_rowv(rows@[i as int]));
                }
                out.push(p);
                proof {
                    assert(out@.map_values(|q: PrintedComment| printed_rowv(q)) =~= out0.map_values(
                        |q: PrintedComment| printed_rowv(q),
                    ).push(printed_rowv(p)));
                    assert(listed_rows(cur, t as int) =~= listed_rows(pre, t as int) + seq![
                        rows@[i as int],
                    ]);
                    assert(listed_rows(cur, t as int).map_values(|c2: Comment| comment_rowv(c2))
                        =~= listed_rows(pre, t as int).map_values(
                        |c2: Comment| comment_rowv(c2),
                    ).push(comment_rowv(rows@[i as int])));
                }
            } else {
                proof {
                    assert(listed_rows(cur, t as int) == listed_rows(pre, t as int));
                }
            }
            i += 1;
        }
        proof {
            assert(rows@.subrange(0, n as int) =~= rows@);
            let mv = out@.map_values(|p: PrintedComment| printed_rowv(p));
            lemma_listed_increasing(rows@, t as int);
            assert forall|a: int, b: int| 0 <= a < b < mv.len() implies (#[trigger] mv[a].id) < (
            #[trigger] mv[b].id) by {
                let lr = listed_rows(rows@, t as int);
                assert(mv == lr.map_values(|c2: Comment| comment_rowv(c2)));
                assert(mv[a] == comment_rowv(lr[a]) && mv[b] == comment_rowv(lr[b]));
                assert(lr[a].id < lr[b].id);
            }
            assert forall|k: int| 0 <= k < mv.len() implies (#[trigger] mv[k].id) >= 1 && (match mv[k].parent {
                Some(p2) => p2 < mv[k].id,
                None => true,
            }) && (match mv[k].likes {
                Some(v) => v >= 0,
                None => true,
            }) && (match mv[k].dislikes {
                Some(v) => v >= 0,
                None => true,
            }) by {
                let m = choose|m: int|
                    0 <= m < n && printed_rowv(out@[k]) == comment_rowv(rows@[m]);
                assert(mv[k] == printed_rowv(out@[k]));
                assert(parent_ok(rows@[m]) && counters_ok(rows@[m]) && rows@[m].id >= 1);
            }
        }
        Ok(out)
    }

    /// Returns a comment based on its unique id.
    pub fn get(store: &CommentStore, id: i32) -> (r: Result<PrintedComment, ErrorKind>)
        requires
            store.wf(),
        ensures
            match r {
                Ok(p) => has_id(store.comments@, id as int) && printed_rowv(p) == comment_rowv(
                    store.comments@[id_index(store.comments@, id as int)],
                ),
                Err(e) => e == ErrorKind::StorageRead && !has_id(store.comments@, id as int),
            },
    {
        match find_index(&store.comments, id) {
            None => Err(ErrorKind::StorageRead),
            Some(i) => {
                proof {
                    lemma_id_index(store.comments@, i as int);
                }
                let c = &store.comments[i];
                Ok(
                    PrintedComment {
                        id: c.id,
                        parent: c.parent,
                        text: c.text.clone(),
                        author: clone_opt(&c.author),
                        email: clone_opt(&c.email),
                        url: clone_opt(&c.website),
                        hash: c.hash.clone(),
                        created: c.created,
                        likes: c.likes,
                        dislikes: c.dislikes,
                    },
                )
            },
        }
    }
}

} // verus!
