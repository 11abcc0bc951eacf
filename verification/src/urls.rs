//! Reducing a recorded URL to a host name.
//!
//! The input listing carries URLs; the resolver wants bare host names. A
//! listed URL is cleaned by removing every occurrence of `http://`, then of
//! `https://`, then of `/` from its text.

use vstd::prelude::*;

use crate::classify::str_chars;

verus! {

/// `s` with every occurrence of `pat` removed, scanning left to right: at a
/// match the matched characters are dropped, otherwise one character is
/// kept.
pub open spec fn remove_matches(s: Seq<char>, pat: Seq<char>) -> Seq<char>
    decreases s.len(),
{
    if pat.len() == 0 || s.len() < pat.len() {
        s
    } else if s.take(pat.len() as int) == pat {
        remove_matches(s.skip(pat.len() as int), pat)
    } else {
        seq![s[0]] + remove_matches(s.skip(1), pat)
    }
}

/// Whether `cs` carries `pat` starting at position `i`.
fn matches_at(cs: &Vec<char>, pat: &Vec<char>, i: usize) -> (b: bool)
    requires
        i + pat@.len() <= cs@.len(),
    ensures
        b == (cs@.subrange(i as int, i + pat@.len()) == pat@),
{
    let plen = pat.len();
    let clen = cs.len();
    let mut k: usize = 0;
    while k < plen
        invariant
            k <= plen,
            plen == pat@.len(),
            clen == cs@.len(),
            i + plen <= clen,
            forall|t: int| 0 <= t < k ==> cs@[i + t] == pat@[t],
        decreases plen - k,
    {
        if cs[i + k] != pat[k] {
            proof {
                assert(cs@.subrange(i as int, i + pat@.len())[k as int] != pat@[k as int]);
            }
            return false;
        }
        k = k + 1;
    }
    proof {
        assert(cs@.subrange(i as int, i + pat@.len()) =~= pat@);
    }
    true
}

/// Remove every occurrence of `pat` from `cs`, scanning left to right.
fn remove_pattern(cs: &Vec<char>, pat: &Vec<char>) -> (r: Vec<char>)
    requires
        pat@.len() >= 1,
    ensures
        r@ == remove_matches(cs@, pat@),
{
    let n = cs.len();
    let plen = pat.len();
    let mut r: Vec<char> = Vec::new();
    let mut i: usize = 0;
    proof {
        assert(cs@.skip(0) =~= cs@);
        assert(r@ + remove_matches(cs@, pat@) =~= remove_matches(cs@, pat@));
    }
    while i < n
        invariant
            i <= n,
            n == cs@.len(),
            plen == pat@.len(),
            plen >= 1,
            remove_matches(cs@, pat@) == r@ + remove_matches(cs@.skip(i as int), pat@),
        decreases n - i,
    {
        let ghost rem = cs@.skip(i as int);
        if n - i >= plen && matches_at(cs, pat, i) {
            proof {
                assert(rem.take(plen as int) =~= cs@.subrange(i as int, i + plen));
                assert(rem.skip(plen as int) =~= cs@.skip(i + plen));
                assert(remove_matches(rem, pat@) == remove_matches(cs@.skip(i + plen), pat@));
            }
            i = i + plen;
        } else {
            let ghost old_r = r@;
            r.push(cs[i]);
            proof {
                assert(rem[0] == cs@[i as int]);
                assert(rem.skip(1) =~= cs@.skip(i as int + 1));
                if rem.len() < plen {
                    assert(remove_matches(rem, pat@) == rem);
                    assert(remove_matches(rem.skip(1), pat@) == rem.skip(1));
                    assert(old_r + rem =~= r@ + rem.skip(1));
                } else {
                    assert(rem.take(plen as int) =~= cs@.subrange(i as int, i + plen));
                    assert(rem.take(plen as int) != pat@);
                    assert(remove_matches(rem, pat@) == seq![rem[0]] + remove_matches(
                        rem.skip(1),
                        pat@,
                    ));
                    assert(old_r + (seq![rem[0]] + remove_matches(rem.skip(1), pat@)) =~= r@
                        + remove_matches(rem.skip(1), pat@));
                }
            }
            i = i + 1;
        }
    }
    proof {
        assert(cs@.skip(n as int) =~= Seq::<char>::empty());
        assert(remove_matches(Seq::<char>::empty(), pat@) == Seq::<char>::empty());
        assert(r@ + Seq::<char>::empty() =~= r@);
    }
    r
}

/// Relies on `String`'s `FromIterator` over `char`: collecting characters
/// yields the string of exactly those characters, in order.
#[verifier::external_body]
fn chars_to_string(cs: &Vec<char>) -> (r: String)
    ensures
        r@ == cs@,
{
    cs.iter().collect()
}

/// The host part of a recorded URL: the text with every occurrence of
/// `http://`, then of `https://`, then of `/` removed.
pub open spec fn cleaned_url(s: Seq<char>) -> Seq<char> {
    remove_matches(remove_matches(remove_matches(s, "http://"@), "https://"@), "/"@)
}

/// Reduce a recorded URL to the host name handed to the resolver.
pub fn clean_url(url: &str) -> (r: String)
    ensures
        r@ == cleaned_url(url@),
{
    proof {
        reveal_strlit("http://");
        reveal_strlit("https://");
        reveal_strlit("/");
    }
    let cs = str_chars(url);
    let p1 = str_chars("http://");
    let p2 = str_chars("https://");
    let p3 = str_chars("/");
    let a = remove_pattern(&cs, &p1);
    let b = remove_pattern(&a, &p2);
    let c = remove_pattern(&b, &p3);
    chars_to_string(&c)
}

} // verus!
