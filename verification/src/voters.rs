//! Vote ledger plumbing: the probabilistic membership filter that records
//! which origins have voted on a comment, and its serialized form.
//!
//! The filter admits false positives (an occasional voter wrongly told they
//! already voted) but no false negatives; `bloom_elems` names the set of
//! texts that currently test positive in a filter.
use vstd::prelude::*;

use bloomfilter::Bloom;
use crate::errors::ErrorKind;

verus! {

#[verifier::external_type_specification]
#[verifier::external_body]
#[verifier::reject_recursive_types(T)]
pub struct ExBloom<T: ?Sized>(Bloom<T>);

/// The texts that test positive in the filter. Membership testing is
/// deterministic in the filter's state, every recorded text tests positive,
/// and a fresh filter holds nothing.
pub uninterp spec fn bloom_elems(b: Bloom<String>) -> Set<Seq<char>>;

/// Whether the filter's bitmap is non-empty, so that testing and recording
/// are defined.
pub uninterp spec fn bloom_usable(b: Bloom<String>) -> bool;

/// Whether the bytes decode as a serialized filter.
pub uninterp spec fn bloom_bytes_ok(bytes: Seq<u8>) -> bool;

/// The texts that test positive in the filter the bytes encode.
pub uninterp spec fn bloom_bytes_elems(bytes: Seq<u8>) -> Set<Seq<char>>;

/// Room for about 150 distinct voters per comment.
pub const VOTER_CAPACITY: usize = 150;

/// Bitmap bytes allocated on first use: sized for `VOTER_CAPACITY` voters at
/// a five-percent false-positive target.
pub const VOTER_BITMAP_BYTES: usize = 117;

/// Relies on Bloom::new: a fresh filter, over a randomly drawn seed, in
/// which no text tests positive; it fails only when no random seed can be
/// drawn. Sizes of zero would make the constructor panic and are excluded.
#[verifier::external_body]
pub fn bloom_new(bitmap_size: usize, items_count: usize) -> (r: Result<
    Bloom<String>,
    &'static str,
>)
    requires
        bitmap_size >= 1,
        items_count >= 1,
    ensures
        r matches Ok(b) ==> bloom_elems(b) == Set::<Seq<char>>::empty() && bloom_usable(b),
{
    Bloom::new(bitmap_size, items_count)
}

/// Relies on Bloom::check_and_set: reports whether the text already tests
/// positive, then records it. The report is a deterministic function of the
/// filter's state; recording never removes a positive.
#[verifier::external_body]
pub fn bloom_check_and_set(b: &mut Bloom<String>, ip: &String) -> (r: bool)
    requires
        bloom_usable(*old(b)),
    ensures
        r == bloom_elems(*old(b)).contains(ip@),
        bloom_elems(*old(b)).insert(ip@).subset_of(bloom_elems(*final(b))),
        bloom_usable(*final(b)),
{
    b.check_and_set(ip)
}

/// Relies on Bloom::set: records the text; everything positive before stays
/// positive, and the text itself tests positive afterwards.
#[verifier::external_body]
pub fn bloom_set(b: &mut Bloom<String>, ip: &String)
    requires
        bloom_usable(*old(b)),
    ensures
        bloom_elems(*old(b)).insert(ip@).subset_of(bloom_elems(*final(b))),
        bloom_usable(*final(b)),
{
    b.set(ip)
}

/// Relies on Bloom::to_bytes: the filter serialized together with its
/// parameters. The bytes decode back to a filter in which exactly the same
/// texts test positive; a usable filter's bitmap makes the bytes longer than
/// the 45-byte header.
#[verifier::external_body]
pub fn bloom_to_bytes(b: &Bloom<String>) -> (r: Vec<u8>)
    ensures
        bloom_bytes_ok(r@),
        bloom_bytes_elems(r@) == bloom_elems(*b),
        bloom_usable(*b) ==> r@.len() > 45,
{
    b.to_bytes()
}

/// Relies on Bloom::from_slice: decodes a serialized filter. It succeeds
/// exactly on bytes that carry a well-formed header, and restores a filter
/// in which exactly the texts encoded by the bytes test positive; bytes
/// longer than the 45-byte header carry a non-empty bitmap.
#[verifier::external_body]
pub fn bloom_from_slice(bytes: &Vec<u8>) -> (r: Result<Bloom<String>, &'static str>)
    ensures
        r is Ok <==> bloom_bytes_ok(bytes@),
        r matches Ok(b) ==> bloom_elems(b) == bloom_bytes_elems(bytes@) && (bytes@.len() > 45
            ==> bloom_usable(b)),
{
    Bloom::from_slice(bytes.as_slice())
}

} // verus!
