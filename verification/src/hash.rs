//! Identity hasher: derives a stable, non-reversible commenter identity from
//! profile fields or, failing those, from the remote IP.
use vstd::prelude::*;

use crypto::digest::Digest;

verus! {

/// The hex digest that the SHA-224 hash of a piece of text yields.
pub uninterp spec fn sha224_hex_of(s: Seq<char>) -> Seq<char>;

/// The given parts joined with the separator between consecutive parts.
pub open spec fn joined_with(parts: Seq<Seq<char>>, sep: Seq<char>) -> Seq<char>
    decreases parts.len(),
{
    if parts.len() == 0 {
        Seq::empty()
    } else if parts.len() == 1 {
        parts[0]
    } else {
        parts[0] + sep + joined_with(parts.drop_first(), sep)
    }
}

/// Relies on crypto's Sha224 (`new`, `input_str`, `result_str`): the 224-bit
/// digest of the text's UTF-8 bytes, rendered as a hex string. The result
/// depends on the input characters alone.
#[verifier::external_body]
fn sha224_hex(s: &str) -> (r: String)
    ensures
        r@ == sha224_hex_of(s@),
{
    let mut hasher = crypto::sha2::Sha224::new();
    hasher.input_str(s);
    hasher.result_str()
}

/// Relies on itertools::join: the items written out with the separator
/// between consecutive items; an empty list yields the empty string.
#[verifier::external_body]
fn join_with(parts: &Vec<String>, sep: &str) -> (r: String)
    ensures
        r@ == joined_with(parts@.map_values(|s: String| s@), sep@),
{
    itertools::join(parts.iter(), sep)
}

/// The view of an optional owned string.
pub open spec fn opt_view(o: Option<String>) -> Option<Seq<char>> {
    match o {
        Some(s) => Some(s@),
        None => None,
    }
}

/// The view of an optional borrowed string.
pub open spec fn opt_str_view(o: Option<&str>) -> Option<Seq<char>> {
    match o {
        Some(s) => Some(s@),
        None => None,
    }
}

/// The profile fields that are present, in the fixed author, email, website
/// order.
pub open spec fn present_fields(
    author: Option<Seq<char>>,
    email: Option<Seq<char>>,
    website: Option<Seq<char>>,
) -> Seq<Seq<char>> {
    let s0 = Seq::<Seq<char>>::empty();
    let s1 = match author {
        Some(x) => s0.push(x),
        None => s0,
    };
    let s2 = match email {
        Some(x) => s1.push(x),
        None => s1,
    };
    match website {
        Some(x) => s2.push(x),
        None => s2,
    }
}

/// The identity hash: the digest of the present profile fields joined with
/// `'b'`; of the IP text alone when no profile field is present; the empty
/// string when there is nothing to hash.
pub open spec fn hash_spec(
    author: Option<Seq<char>>,
    email: Option<Seq<char>>,
    website: Option<Seq<char>>,
    ip: Option<Seq<char>>,
) -> Seq<char> {
    let parts = present_fields(author, email, website);
    if parts.len() > 0 {
        sha224_hex_of(joined_with(parts, seq!['b']))
    } else {
        match ip {
            Some(i) => sha224_hex_of(i),
            None => Seq::empty(),
        }
    }
}

/// Generates the identity hash of the given author details. The result is a
/// function of the arguments alone: identical inputs always yield identical
/// output.
pub fn gen_hash(
    author: &Option<String>,
    email: &Option<String>,
    url: &Option<String>,
    ip_addr: Option<&str>,
) -> (r: String)
    ensures
        r@ == hash_spec(opt_view(*author), opt_view(*email), opt_view(*url), opt_str_view(ip_addr)),
{
    let mut data: Vec<String> = Vec::new();
    if let Some(val) = author {
        data.push(val.clone());
    }
    if let Some(val) = email {
        data.push(val.clone());
    }
    if let Some(val) = url {
        data.push(val.clone());
    }
    proof {
        assert(data@.map_values(|s: String| s@) =~= present_fields(
            opt_view(*author),
            opt_view(*email),
            opt_view(*url),
        ));
    }
    if data.len() > 0 {
        let joined = join_with(&data, "b");
        proof {
            reveal_strlit("b");
            assert("b"@ =~= seq!['b']);
        }
        sha224_hex(joined.as_str())
    } else if let Some(ip) = ip_addr {
        sha224_hex(ip)
    } else {
        String::new()
    }
}

/// With no profile field and no IP there is nothing to hash: the identity
/// hash is the empty string.
pub proof fn lemma_hash_all_absent()
    ensures
        hash_spec(None, None, None, None) == Seq::<char>::empty(),
{
}

/// With no profile field present, the identity hash depends on the IP text
/// alone.
pub proof fn lemma_hash_ip_only(ip: Seq<char>)
    ensures
        hash_spec(None, None, None, Some(ip)) == sha224_hex_of(ip),
{
}

} // verus!
