//! Character-level text helpers: replacement, substring search and prefix
//! handling, each verified against a direct spec.

use vstd::prelude::*;

use crate::json;

verus! {

/// `s` with every occurrence of `from` replaced by `to`.
pub open spec fn replace_char(s: Seq<char>, from: char, to: char) -> Seq<char> {
    Seq::new(
        s.len(),
        |i: int|
            if s[i] == from {
                to
            } else {
                s[i]
            },
    )
}

/// `needle` occurs in `hay` starting at position `k`.
pub open spec fn matches_at(hay: Seq<char>, needle: Seq<char>, k: int) -> bool {
    0 <= k && k + needle.len() <= hay.len() && hay.subrange(k, k + needle.len()) == needle
}

/// `needle` occurs somewhere in `hay`.
pub open spec fn contains_seq(hay: Seq<char>, needle: Seq<char>) -> bool {
    exists|k: int| matches_at(hay, needle, k)
}

/// `p` is a prefix of `s`.
pub open spec fn has_prefix(s: Seq<char>, p: Seq<char>) -> bool {
    p.len() <= s.len() && s.take(p.len() as int) == p
}

/// The characters of `s`, in order.
pub(crate) fn chars_of_str(s: &str) -> (r: Vec<char>)
    ensures
        r@ == s@,
{
    let n: usize = s.unicode_len();
    let mut r: Vec<char> = Vec::new();
    let mut j: usize = 0;
    while j < n
        invariant
            n == s@.len(),
            j <= n,
            r@ == s@.take(j as int),
        decreases n - j,
    {
        r.push(s.get_char(j));
        proof {
            assert(r@ =~= s@.take(j + 1int));
        }
        j = j + 1;
    }
    proof {
        assert(s@.take(n as int) =~= s@);
    }
    r
}

/// `s` with every occurrence of `from` replaced by `to`.
pub fn replace_chars(s: &str, from: char, to: char) -> (r: String)
    ensures
        r@ == replace_char(s@, from, to),
{
    let cs = chars_of_str(s);
    let mut out: Vec<char> = Vec::new();
    let mut j: usize = 0;
    while j < cs.len()
        invariant
            j <= cs@.len(),
            cs@ == s@,
            out@ == replace_char(s@, from, to).take(j as int),
        decreases cs.len() - j,
    {
        let c = cs[j];
        if c == from {
            out.push(to);
        } else {
            out.push(c);
        }
        proof {
            assert(out@ =~= replace_char(s@, from, to).take(j + 1int));
        }
        j = j + 1;
    }
    proof {
        assert(replace_char(s@, from, to).take(s@.len() as int) =~= replace_char(s@, from, to));
    }
    json::chars_to_string(out)
}

/// Whether `needle` occurs in `hay` as a contiguous run of characters.
pub fn str_contains(hay: &str, needle: &str) -> (r: bool)
    ensures
        r == contains_seq(hay@, needle@),
{
    let h = chars_of_str(hay);
    let n = chars_of_str(needle);
    if n.len() > h.len() {
        proof {
            assert forall|k: int| !matches_at(hay@, needle@, k) by {}
        }
        return false;
    }
    let mut i: usize = 0;
    loop
        invariant
            n@.len() <= h@.len(),
            h@ == hay@,
            n@ == needle@,
            i <= h@.len() - n@.len() + 1,
            forall|k: int| 0 <= k < i ==> !matches_at(hay@, needle@, k),
        decreases h@.len() - n@.len() + 1 - i,
    {
        if i > h.len() - n.len() {
            proof {
                assert forall|k: int| !matches_at(hay@, needle@, k) by {
                    if 0 <= k < i {
                    } else {
                    }
                }
            }
            return false;
        }
        let mut j: usize = 0;
        let mut ok = true;
        while j < n.len()
            invariant
                i + n@.len() <= h@.len(),
                h@.len() <= usize::MAX,
                j <= n@.len(),
                h@ == hay@,
                n@ == needle@,
                ok <==> (forall|t: int| 0 <= t < j ==> hay@[i + t] == needle@[t]),
            decreases n.len() - j,
        {
            if h[i + j] != n[j] {
                ok = false;
            }
            j = j + 1;
        }
        if ok {
            proof {
                assert(hay@.subrange(i as int, i + needle@.len()) =~= needle@);
                assert(matches_at(hay@, needle@, i as int));
            }
            return true;
        }
        proof {
            assert(!matches_at(hay@, needle@, i as int)) by {
                let t = choose|t: int| 0 <= t < needle@.len() && hay@[i + t] != needle@[t];
                if matches_at(hay@, needle@, i as int) {
                    assert(hay@.subrange(i as int, i + needle@.len())[t] == hay@[i + t]);
                }
            }
        }
        i = i + 1;
    }
}

/// `s` without the prefix `p`, when `p` is a prefix of `s`.
pub fn strip_prefix_str(s: &str, p: &str) -> (r: Option<String>)
    ensures
        match r {
            Some(t) => has_prefix(s@, p@) && t@ == s@.skip(p@.len() as int),
            None => !has_prefix(s@, p@),
        },
{
    let cs = chars_of_str(s);
    let ps = chars_of_str(p);
    if ps.len() > cs.len() {
        return None;
    }
    let mut j: usize = 0;
    while j < ps.len()
        invariant
            ps@.len() <= cs@.len(),
            j <= ps@.len(),
            cs@ == s@,
            ps@ == p@,
            forall|t: int| 0 <= t < j ==> s@[t] == p@[t],
        decreases ps.len() - j,
    {
        if cs[j] != ps[j] {
            proof {
                assert(s@.take(p@.len() as int)[j as int] == s@[j as int]);
            }
            return None;
        }
        j = j + 1;
    }
    proof {
        assert(s@.take(p@.len() as int) =~= p@);
    }
    let mut out: Vec<char> = Vec::new();
    let mut k: usize = ps.len();
    while k < cs.len()
        invariant
            ps@.len() <= cs@.len(),
            ps@.len() <= k <= cs@.len(),
            cs@ == s@,
            ps@ == p@,
            out@ == s@.subrange(p@.len() as int, k as int),
        decreases cs.len() - k,
    {
        out.push(cs[k]);
        proof {
            assert(out@ =~= s@.subrange(p@.len() as int, k + 1int));
        }
        k = k + 1;
    }
    proof {
        assert(s@.subrange(p@.len() as int, s@.len() as int) =~= s@.skip(p@.len() as int));
    }
    Some(json::chars_to_string(out))
}

/// The concatenation of two pieces of text.
pub fn concat_str(a: &str, b: &str) -> (r: String)
    ensures
        r@ == a@ + b@,
{
    let mut s = String::new();
    s.append(a);
    s.append(b);
    s
}

} // verus!
