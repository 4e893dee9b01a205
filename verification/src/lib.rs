//! A self-hosted blog-comment engine: identity hashing, nesting-depth policy,
//! tombstone-based deletion, probabilistic vote deduplication, and
//! flat-to-tree reconstruction of a comment thread.
use vstd::prelude::*;

pub mod author;
pub mod clock;
pub mod comments;
pub mod errors;
pub mod hash;
pub mod nesting;
pub mod store;
pub mod tree;
pub mod voters;

verus! {

/// Path of the index page served while developing; the surrounding web layer
/// opens and serves the file.
pub fn index() -> (r: String)
    ensures
        r@ == "public/index.html"@,
{
    let s: String = "public/index.html".to_owned();
    s
}

} // verus!
