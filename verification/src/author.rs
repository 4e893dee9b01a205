//! Display-author resolution: the explicit name if present, otherwise an
//! obfuscated form of the email, otherwise the website.
use vstd::prelude::*;
use vstd::string::*;

use crate::hash::opt_view;

verus! {

/// Index of the first occurrence of the character in the text, or the
/// text's length when it does not occur.
pub open spec fn first_pos(s: Seq<char>, c: char) -> int
    decreases s.len(),
{
    if s.len() == 0 {
        0
    } else if s[0] == c {
        0
    } else {
        1 + first_pos(s.drop_first(), c)
    }
}

/// The obfuscated form of an email: the part before the first `'@'`, then
/// `"@****"`, then the domain part from its first `'.'` on, masking the rest
/// of the domain.
pub open spec fn obfuscate_email(e: Seq<char>) -> Seq<char> {
    let at = first_pos(e, '@');
    let user = e.subrange(0, at);
    let domain = e.subrange(at, e.len() as int);
    let dot = first_pos(domain, '.');
    user + "@****"@ + domain.subrange(dot, domain.len() as int)
}

/// The display author, in priority order: the explicit name; otherwise the
/// obfuscated email; otherwise the website, verbatim; otherwise absent.
pub open spec fn display_author_spec(
    author: Option<Seq<char>>,
    email: Option<Seq<char>>,
    website: Option<Seq<char>>,
) -> Option<Seq<char>> {
    match author {
        Some(a) => Some(a),
        None => match email {
            Some(e) => Some(obfuscate_email(e)),
            None => website,
        },
    }
}

/// Finds the position of the first occurrence of the character.
pub fn find_char(s: &str, c: char) -> (r: usize)
    ensures
        r == first_pos(s@, c),
        r <= s@.len(),
{
    let n = s.unicode_len();
    let mut i: usize = 0;
    proof {
        assert(s@.skip(0) =~= s@);
    }
    while i < n
        invariant
            i <= n,
            n == s@.len(),
            first_pos(s@, c) == i + first_pos(s@.skip(i as int), c),
        decreases n - i,
    {
        proof {
            assert(s@.skip(i as int)[0] == s@[i as int]);
        }
        if s.get_char(i) == c {
            proof {
                assert(first_pos(s@.skip(i as int), c) == 0);
            }
            return i;
        }
        proof {
            assert(s@.skip(i as int).drop_first() =~= s@.skip(i as int + 1));
        }
        i += 1;
    }
    proof {
        assert(s@.skip(n as int) =~= Seq::<char>::empty());
    }
    n
}

/// Generates the display author for a comment, keeping the email
/// confidential by masking most of its domain.
pub fn get_author(author: &Option<String>, email: &Option<String>, url: &Option<String>) -> (r:
    Option<String>)
    ensures
        opt_view(r) == display_author_spec(opt_view(*author), opt_view(*email), opt_view(*url)),
{
    if let Some(a) = author {
        Some(a.clone())
    } else if let Some(e) = email {
        let es = e.as_str();
        let n = es.unicode_len();
        let at = find_char(es, '@');
        let user = es.substring_char(0, at);
        let domain = es.substring_char(at, n);
        let dn = domain.unicode_len();
        let dot = find_char(domain, '.');
        let trailing = domain.substring_char(dot, dn);
        let mut out = user.to_owned();
        out.append("@****");
        out.append(trailing);
        proof {
            assert(out@ =~= obfuscate_email(e@));
        }
        Some(out)
    } else if let Some(u) = url {
        Some(u.clone())
    } else {
        None
    }
}

/// The vote total of a comment: likes minus dislikes, a missing counter
/// counted as zero.
pub open spec fn votes_spec(likes: Option<i32>, dislikes: Option<i32>) -> int {
    (match likes {
        Some(v) => v as int,
        None => 0,
    }) - (match dislikes {
        Some(v) => v as int,
        None => 0,
    })
}

/// Calculates the total vote for a comment based on its likes and dislikes.
pub fn count_votes(likes: Option<i32>, dislikes: Option<i32>) -> (r: i32)
    requires
        match likes {
            Some(v) => v >= 0,
            None => true,
        },
        match dislikes {
            Some(v) => v >= 0,
            None => true,
        },
    ensures
        r == votes_spec(likes, dislikes),
{
    let l = match likes {
        Some(v) => v,
        None => 0,
    };
    let d = match dislikes {
        Some(v) => v,
        None => 0,
    };
    l - d
}

} // verus!
