//! The relational model of the comment service: comment rows, the thread
//! table, and the store that owns them.
use vstd::prelude::*;
use vstd::string::*;

use crate::errors::ErrorKind;

verus! {

/// Moderation state of a comment.
#[derive(Clone, Copy, PartialEq, Eq, Structural, Debug)]
pub enum Mode {
    /// The comment is live.
    Visible,
    /// The comment awaits moderation and is excluded from display. The state
    /// is reachable by construction but the insert path never sets it.
    Pending,
    /// The comment was soft-deleted: its personal fields are scrubbed and the
    /// row is retained only because it has descendants.
    Tombstoned,
}

/// One stored comment row.
#[derive(Debug)]
pub struct Comment {
    /// Primary key, assigned by the store on creation, stable thereafter.
    pub id: i32,
    /// Owning thread.
    pub tid: i32,
    /// Parent comment in the same thread; absent means root.
    pub parent: Option<i32>,
    /// Creation time, seconds since the epoch.
    pub created: i64,
    /// Modification time, if an edit has happened.
    pub modified: Option<i64>,
    /// Moderation state.
    pub mode: Mode,
    /// Remote IP of the submitter, if known.
    pub remote_addr: Option<String>,
    /// The comment text.
    pub text: String,
    /// Author name, if given.
    pub author: Option<String>,
    /// Author email, if given.
    pub email: Option<String>,
    /// Author website, if given.
    pub website: Option<String>,
    /// Identity hash of the commenter.
    pub hash: String,
    /// Likes received; absent means zero.
    pub likes: Option<i32>,
    /// Dislikes received; absent means zero.
    pub dislikes: Option<i32>,
    /// Serialized vote-ledger state, opaque to everything but the ledger.
    pub voters: Option<Vec<u8>>,
}

/// One row of the thread table: a commentable page keyed by URI.
#[derive(Debug)]
pub struct Thread {
    /// Primary key.
    pub id: i32,
    /// The page's URI.
    pub uri: String,
}

/// The comment store: the persisted rows of the service.
#[derive(Debug)]
pub struct CommentStore {
    /// Comment rows, in order of creation (ascending id).
    pub comments: Vec<Comment>,
    /// Thread rows.
    pub threads: Vec<Thread>,
    /// The id the next inserted comment will receive (or exceed).
    pub next_id: i32,
}

/// A comment submission as the HTTP layer hands it over.
#[derive(Debug)]
pub struct FormInput {
    /// Author name, if given.
    pub name: Option<String>,
    /// Author email, if given.
    pub email: Option<String>,
    /// Author website, if given.
    pub url: Option<String>,
    /// The comment text.
    pub comment: String,
    /// Requested parent comment.
    pub parent: Option<i32>,
}

/// An edit of an existing comment.
#[derive(Debug)]
pub struct FormEdit {
    /// Author name, if given.
    pub name: Option<String>,
    /// Author email, if given.
    pub email: Option<String>,
    /// Author website, if given.
    pub url: Option<String>,
    /// The replacement comment text.
    pub comment: String,
}

/// The parent link of a row, when present, names a smaller id than the row's
/// own: parent links can only point backwards in creation order.
pub open spec fn parent_ok(c: Comment) -> bool {
    match c.parent {
        Some(p) => p < c.id,
        None => true,
    }
}

/// The vote counters of a row, when present, are non-negative.
pub open spec fn counters_ok(c: Comment) -> bool {
    &&& match c.likes {
        Some(v) => v >= 0,
        None => true,
    }
    &&& match c.dislikes {
        Some(v) => v >= 0,
        None => true,
    }
}

/// Well-formedness of a sequence of comment rows: ids are at least 1 and
/// strictly increase in row order, parent links point backwards, and vote
/// counters are non-negative. Backwards-pointing parent links make the rows
/// a forest: no chain of parent links can revisit a row.
pub open spec fn wf_rows(rows: Seq<Comment>) -> bool {
    &&& forall|i: int| 0 <= i < rows.len() ==> (#[trigger] rows[i].id) >= 1
    &&& forall|i: int, j: int|
        0 <= i < j < rows.len() ==> (#[trigger] rows[i].id) < (#[trigger] rows[j].id)
    &&& forall|i: int| 0 <= i < rows.len() ==> parent_ok(#[trigger] rows[i])
    &&& forall|i: int| 0 <= i < rows.len() ==> counters_ok(#[trigger] rows[i])
}

/// Well-formedness of the thread table: ids are the positions plus one (hence
/// unique), and no two threads share a URI.
pub open spec fn wf_threads(ts: Seq<Thread>) -> bool {
    &&& ts.len() < 0x7fff_ffff
    &&& forall|i: int| 0 <= i < ts.len() ==> (#[trigger] ts[i].id) == i + 1
    &&& forall|i: int, j: int|
        0 <= i < j < ts.len() ==> (#[trigger] ts[i].uri)@ != (#[trigger] ts[j].uri)@
}

/// Whether some row carries the given id.
pub open spec fn has_id(rows: Seq<Comment>, id: int) -> bool {
    exists|i: int| 0 <= i < rows.len() && (#[trigger] rows[i].id) == id
}

/// The index of the row carrying the given id (meaningful when `has_id`
/// holds; under `wf_rows` it is unique).
pub open spec fn id_index(rows: Seq<Comment>, id: int) -> int {
    choose|i: int| 0 <= i < rows.len() && (#[trigger] rows[i].id) == id
}

/// Under well-formedness, the row found at an index is the row `id_index`
/// names for its id.
pub proof fn lemma_id_index(rows: Seq<Comment>, i: int)
    requires
        wf_rows(rows),
        0 <= i < rows.len(),
    ensures
        has_id(rows, rows[i].id as int),
        id_index(rows, rows[i].id as int) == i,
{
    assert(has_id(rows, rows[i].id as int));
    let j = id_index(rows, rows[i].id as int);
    assert(0 <= j < rows.len() && rows[j].id == rows[i].id);
    if j < i {
        assert(rows[j].id < rows[i].id);
    }
    if i < j {
        assert(rows[i].id < rows[j].id);
    }
}

/// Under well-formedness, row order follows id order.
pub proof fn lemma_idx_order(rows: Seq<Comment>, a: int, b: int)
    requires
        wf_rows(rows),
        0 <= a < rows.len(),
        0 <= b < rows.len(),
        rows[a].id < rows[b].id,
    ensures
        a < b,
{
    if b < a {
        assert(rows[b].id < rows[a].id);
    }
    if a == b {
        assert(rows[a].id == rows[b].id);
    }
}

/// Under well-formedness, the id of a row is at least its position plus one.
pub proof fn lemma_ids_at_least(rows: Seq<Comment>, i: int)
    requires
        wf_rows(rows),
        0 <= i < rows.len(),
    ensures
        rows[i].id >= i + 1,
    decreases i,
{
    if i > 0 {
        lemma_ids_at_least(rows, i - 1);
        assert(rows[i - 1].id < rows[i].id);
    }
}

/// Under well-formedness, ids fit in 31 bits, so the store can hold only so
/// many rows.
pub proof fn lemma_len_bound(rows: Seq<Comment>)
    requires
        wf_rows(rows),
    ensures
        rows.len() <= 0x7fff_ffff,
{
    if rows.len() > 0 {
        lemma_ids_at_least(rows, rows.len() - 1);
    }
}

impl CommentStore {
    /// Well-formedness of the whole store: the rows and the thread table are
    /// well formed and every id already handed out stays below `next_id`.
    pub open spec fn wf(&self) -> bool {
        &&& wf_rows(self.comments@)
        &&& forall|i: int|
            0 <= i < self.comments@.len() ==> (#[trigger] self.comments@[i].id) < self.next_id
        &&& self.next_id >= 1
        &&& wf_threads(self.threads@)
    }

    /// An empty store.
    pub fn new() -> (s: CommentStore)
        ensures
            s.wf(),
            s.comments@.len() == 0,
            s.threads@.len() == 0,
            s.next_id == 1,
    {
        CommentStore { comments: Vec::new(), threads: Vec::new(), next_id: 1 }
    }

    /// Returns the id of the thread with the given URI, creating the thread
    /// if it does not exist yet. Fails only when the thread table is full.
    pub fn resolve_or_create_thread(&mut self, uri: &str) -> (r: Result<i32, ErrorKind>)
        requires
            old(self).wf(),
        ensures
            final(self).wf(),
            final(self).comments == old(self).comments,
            final(self).next_id == old(self).next_id,
            match r {
                Ok(t) => uri_tid(final(self).threads@, uri@) == Some(t as int),
                Err(e) => e == ErrorKind::StorageWrite && final(self).threads == old(self).threads,
            },
            r is Err <==> (!has_uri(old(self).threads@, uri@) && old(self).threads@.len()
                >= 0x7fff_fffe),
            has_uri(old(self).threads@, uri@) ==> final(self).threads == old(self).threads,
            (!has_uri(old(self).threads@, uri@) && r is Ok) ==> (final(self).threads@.len() == old(
                self,
            ).threads@.len() + 1 && final(self).threads@.last().uri@ == uri@ && forall|k: int|
                0 <= k < old(self).threads@.len() ==> final(self).threads@[k] == old(self).threads@[k]),
    {
        match find_thread(&self.threads, uri) {
            Some(t) => Ok(t),
            None => {
                if self.threads.len() >= 0x7fff_fffe {
                    Err(ErrorKind::StorageWrite)
                } else {
                    let id = (self.threads.len() as i32) + 1;
                    let t = Thread { id, uri: uri.to_owned() };
                    self.threads.push(t);
                    proof {
                        let ts = self.threads@;
                        let n = ts.len() - 1;
                        assert(ts[n].uri@ == uri@);
                        assert(has_uri(ts, uri@));
                        let j = uri_index(ts, uri@);
                        assert(0 <= j < ts.len() && ts[j].uri@ == uri@);
                        if j < n {
                            assert(old(self).threads@[j].uri@ != uri@);
                        }
                        assert(uri_tid(ts, uri@) == Some(ts[n].id as int));
                    }
                    Ok(id)
                }
            },
        }
    }
}

/// Whether some thread carries the given URI.
pub open spec fn has_uri(ts: Seq<Thread>, uri: Seq<char>) -> bool {
    exists|i: int| 0 <= i < ts.len() && (#[trigger] ts[i].uri)@ == uri
}

/// The index of the thread carrying the given URI (meaningful when `has_uri`
/// holds; under `wf_threads` it is unique).
pub open spec fn uri_index(ts: Seq<Thread>, uri: Seq<char>) -> int {
    choose|i: int| 0 <= i < ts.len() && (#[trigger] ts[i].uri)@ == uri
}

/// The id of the thread with the given URI, if any.
pub open spec fn uri_tid(ts: Seq<Thread>, uri: Seq<char>) -> Option<int> {
    if has_uri(ts, uri) {
        Some(ts[uri_index(ts, uri)].id as int)
    } else {
        None
    }
}

/// Character-wise string equality, decided without assuming anything of the
/// standard comparison.
pub fn str_eq(a: &str, b: &str) -> (r: bool)
    ensures
        r == (a@ == b@),
{
    let la = a.unicode_len();
    let lb = b.unicode_len();
    if la != lb {
        proof {
            assert(a@ != b@) by {
                if a@ == b@ {
                    assert(a@.len() == b@.len());
                }
            }
        }
        return false;
    }
    let mut i: usize = 0;
    while i < la
        invariant
            i <= la,
            la == a@.len(),
            la == b@.len(),
            forall|k: int| 0 <= k < i ==> a@[k] == b@[k],
        decreases la - i,
    {
        if a.get_char(i) != b.get_char(i) {
            return false;
        }
        i += 1;
    }
    proof {
        assert(a@ =~= b@);
    }
    true
}

/// Finds the thread with the given URI.
pub fn find_thread(ts: &Vec<Thread>, uri: &str) -> (r: Option<i32>)
    requires
        wf_threads(ts@),
    ensures
        match r {
            Some(t) => uri_tid(ts@, uri@) == Some(t as int),
            None => uri_tid(ts@, uri@) is None,
        },
{
    let n = ts.len();
    let mut i: usize = 0;
    while i < n
        invariant
            i <= n,
            n == ts@.len(),
            wf_threads(ts@),
            forall|k: int| 0 <= k < i ==> (#[trigger] ts@[k].uri)@ != uri@,
        decreases n - i,
    {
        if str_eq(ts[i].uri.as_str(), uri) {
            proof {
                assert(has_uri(ts@, uri@));
                let j = uri_index(ts@, uri@);
                if j < i as int {
                    assert(ts@[j].uri@ != uri@);
                }
                if (i as int) < j {
                    assert(ts@[i as int].uri@ != ts@[j].uri@);
                }
            }
            return Some(ts[i].id);
        }
        i += 1;
    }
    proof {
        if has_uri(ts@, uri@) {
            let j = uri_index(ts@, uri@);
            assert(ts@[j].uri@ != uri@);
        }
    }
    None
}

/// Finds the position of the row with the given id.
pub fn find_index(rows: &Vec<Comment>, id: i32) -> (r: Option<usize>)
    ensures
        match r {
            Some(i) => i < rows@.len() && rows@[i as int].id == id,
            None => !has_id(rows@, id as int),
        },
{
    let n = rows.len();
    let mut i: usize = 0;
    while i < n
        invariant
            i <= n,
            n == rows@.len(),
            forall|k: int| 0 <= k < i ==> (#[trigger] rows@[k].id) != id,
        decreases n - i,
    {
        if rows[i].id == id {
            return Some(i);
        }
        i += 1;
    }
    proof {
        if has_id(rows@, id as int) {
            let j = id_index(rows@, id as int);
            assert(rows@[j].id != id);
        }
    }
    None
}

} // verus!
