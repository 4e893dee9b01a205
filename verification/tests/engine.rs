use oration::comments::{CommentEdits, InsertedComment, PrintedComment};
use oration::store::Comment;
use oration::errors::ErrorKind;
use oration::store::{CommentStore, FormEdit, FormInput};
use oration::tree::NestedComment;

fn form(text: &str, parent: Option<i32>) -> FormInput {
    FormInput {
        name: Some("Ann".to_owned()),
        email: None,
        url: None,
        comment: text.to_owned(),
        parent,
    }
}

fn fresh_thread(store: &mut CommentStore, uri: &str) -> i32 {
    store.resolve_or_create_thread(uri).expect("thread")
}

#[test]
fn thread_resolution_is_stable() {
    let mut store = CommentStore::new();
    let a = fresh_thread(&mut store, "/post/one/");
    let b = fresh_thread(&mut store, "/post/two/");
    let a2 = fresh_thread(&mut store, "/post/one/");
    assert_eq!(a, a2);
    assert_ne!(a, b);
}

#[test]
fn count_counts_only_this_thread() {
    let mut store = CommentStore::new();
    let t1 = fresh_thread(&mut store, "/post/one/");
    let t2 = fresh_thread(&mut store, "/post/two/");
    Comment::insert(&mut store, t1, &form("hello", None), "1.2.3.4", 5).unwrap();
    Comment::insert(&mut store, t1, &form("world", None), "1.2.3.4", 5).unwrap();
    Comment::insert(&mut store, t2, &form("elsewhere", None), "1.2.3.4", 5).unwrap();
    assert_eq!(Comment::count(&store, "/post/one/"), Ok(2));
    assert_eq!(Comment::count(&store, "/post/two/"), Ok(1));
    assert_eq!(Comment::count(&store, "/no/such/post/"), Ok(0));
}

#[test]
fn insert_returns_projection() {
    let mut store = CommentStore::new();
    let t = fresh_thread(&mut store, "/post/");
    let ic: InsertedComment = Comment::insert(&mut store, t, &form("hello", None), "1.2.3.4", 5)
        .unwrap();
    assert_eq!(ic.parent, None);
    assert_eq!(ic.author.as_deref(), Some("Ann"));
    let p: PrintedComment = PrintedComment::get(&store, ic.id).unwrap();
    assert_eq!(p.text, "hello");
    assert_eq!(p.likes, None);
    assert_eq!(p.dislikes, None);
}

#[test]
fn nesting_limit_flattens_deep_replies() {
    let mut store = CommentStore::new();
    let t = fresh_thread(&mut store, "/post/");
    let a = Comment::insert(&mut store, t, &form("root", None), "1.2.3.4", 1).unwrap();
    let b = Comment::insert(&mut store, t, &form("child", Some(a.id)), "1.2.3.4", 1).unwrap();
    assert_eq!(b.parent, Some(a.id));
    // b sits at depth 2, beyond the limit of 1: a reply to b lands under a
    let c = Comment::insert(&mut store, t, &form("grandchild", Some(b.id)), "1.2.3.4", 1)
        .unwrap();
    assert_eq!(c.parent, Some(a.id));
    // with a generous limit the requested parent is kept
    let d = Comment::insert(&mut store, t, &form("deep", Some(b.id)), "1.2.3.4", 5).unwrap();
    assert_eq!(d.parent, Some(b.id));
}

#[test]
fn nesting_tolerates_unknown_parent() {
    let mut store = CommentStore::new();
    let t = fresh_thread(&mut store, "/post/");
    let r = Comment::insert(&mut store, t, &form("orphan", Some(999)), "1.2.3.4", 1).unwrap();
    assert_eq!(r.parent, Some(999));
}

#[test]
fn vote_then_vote_again_is_rejected() {
    let mut store = CommentStore::new();
    let t = fresh_thread(&mut store, "/post/");
    let a = Comment::insert(&mut store, t, &form("hello", None), "9.9.9.9", 5).unwrap();
    assert_eq!(Comment::vote(&mut store, a.id, "1.2.3.4", true), Ok(()));
    let forest = NestedComment::list(&store, "/post/").unwrap();
    assert_eq!(forest[0].votes, 1);
    assert_eq!(
        Comment::vote(&mut store, a.id, "1.2.3.4", true),
        Err(ErrorKind::AlreadyVoted)
    );
    let forest = NestedComment::list(&store, "/post/").unwrap();
    assert_eq!(forest[0].votes, 1);
    // a different origin may still vote
    assert_eq!(Comment::vote(&mut store, a.id, "5.6.7.8", true), Ok(()));
    let forest = NestedComment::list(&store, "/post/").unwrap();
    assert_eq!(forest[0].votes, 2);
}

#[test]
fn downvotes_lower_the_tally() {
    let mut store = CommentStore::new();
    let t = fresh_thread(&mut store, "/post/");
    let a = Comment::insert(&mut store, t, &form("hello", None), "9.9.9.9", 5).unwrap();
    assert_eq!(Comment::vote(&mut store, a.id, "1.2.3.4", false), Ok(()));
    let forest = NestedComment::list(&store, "/post/").unwrap();
    assert_eq!(forest[0].votes, -1);
}

#[test]
fn vote_on_missing_comment_fails_the_read() {
    let mut store = CommentStore::new();
    fresh_thread(&mut store, "/post/");
    assert_eq!(
        Comment::vote(&mut store, 42, "1.2.3.4", true),
        Err(ErrorKind::StorageRead)
    );
}

#[test]
fn delete_leaf_removes_the_row() {
    let mut store = CommentStore::new();
    let t = fresh_thread(&mut store, "/post/");
    let a = Comment::insert(&mut store, t, &form("hello", None), "1.2.3.4", 5).unwrap();
    assert_eq!(Comment::delete(&mut store, a.id), Ok(()));
    assert_eq!(Comment::count(&store, "/post/"), Ok(0));
    assert!(PrintedComment::get(&store, a.id).is_err());
}

#[test]
fn delete_with_child_tombstones_then_sweeps() {
    let mut store = CommentStore::new();
    let t = fresh_thread(&mut store, "/post/");
    let a = Comment::insert(&mut store, t, &form("hello", None), "1.2.3.4", 5).unwrap();
    let b = Comment::insert(&mut store, t, &form("hi back", Some(a.id)), "8.8.8.8", 5).unwrap();
    assert_eq!(Comment::delete(&mut store, a.id), Ok(()));
    // the parent stays, scrubbed, and the child still hangs under it
    let scrubbed = PrintedComment::get(&store, a.id).unwrap();
    assert_eq!(scrubbed.text, "");
    assert_eq!(scrubbed.author, None);
    assert_eq!(scrubbed.email, None);
    assert_eq!(scrubbed.url, None);
    assert_eq!(scrubbed.hash, "");
    assert_eq!(scrubbed.parent, None);
    let forest = NestedComment::list(&store, "/post/").unwrap();
    assert_eq!(forest.len(), 1);
    assert_eq!(forest[0].id, a.id);
    assert_eq!(forest[0].children.len(), 1);
    assert_eq!(forest[0].children[0].id, b.id);
    // deleting the child removes it, and the same call sweeps the tombstone
    assert_eq!(Comment::delete(&mut store, b.id), Ok(()));
    assert_eq!(Comment::count(&store, "/post/"), Ok(0));
    assert!(PrintedComment::get(&store, a.id).is_err());
}

#[test]
fn list_builds_the_nested_forest() {
    let mut store = CommentStore::new();
    let t = fresh_thread(&mut store, "/post/");
    let a = Comment::insert(&mut store, t, &form("hello", None), "1.2.3.4", 5).unwrap();
    let b = Comment::insert(&mut store, t, &form("hi back", Some(a.id)), "8.8.8.8", 5).unwrap();
    let forest = NestedComment::list(&store, "/post/").unwrap();
    assert_eq!(forest.len(), 1);
    let root = &forest[0];
    assert_eq!(root.id, a.id);
    assert_eq!(root.text, "hello");
    assert_eq!(root.votes, 0);
    assert_eq!(root.children.len(), 1);
    assert_eq!(root.children[0].id, b.id);
    assert_eq!(root.children[0].text, "hi back");
    assert_eq!(root.children[0].votes, 0);
    assert!(root.children[0].children.is_empty());
    // votes show up in the rendered tree
    assert_eq!(Comment::vote(&mut store, a.id, "1.2.3.4", true), Ok(()));
    let forest = NestedComment::list(&store, "/post/").unwrap();
    assert_eq!(forest[0].votes, 1);
    assert_eq!(
        Comment::vote(&mut store, a.id, "1.2.3.4", true),
        Err(ErrorKind::AlreadyVoted)
    );
    let forest = NestedComment::list(&store, "/post/").unwrap();
    assert_eq!(forest[0].votes, 1);
}

#[test]
fn list_of_unknown_path_is_empty() {
    let store = CommentStore::new();
    let forest = NestedComment::list(&store, "/nowhere/").unwrap();
    assert!(forest.is_empty());
}

#[test]
fn update_rewrites_text_and_stamp() {
    let mut store = CommentStore::new();
    let t = fresh_thread(&mut store, "/post/");
    let a = Comment::insert(&mut store, t, &form("tpyo", None), "1.2.3.4", 5).unwrap();
    let edit = FormEdit {
        name: Some("Ann".to_owned()),
        email: None,
        url: None,
        comment: "typo".to_owned(),
    };
    let ce: CommentEdits = Comment::update(&mut store, a.id, &edit, "1.2.3.4").unwrap();
    assert_eq!(ce.id, a.id);
    assert_eq!(ce.text, "typo");
    let p = PrintedComment::get(&store, a.id).unwrap();
    assert_eq!(p.text, "typo");
    assert!(matches!(
        Comment::update(&mut store, 999, &edit, "1.2.3.4"),
        Err(ErrorKind::StorageRead)
    ));
}
