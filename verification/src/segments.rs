//! Path-segment arithmetic on strings.
//!
//! Listing links and file URLs are manipulated as sequences of nonempty
//! `/`-separated segments, rather than by substring surgery, so that a
//! marker segment such as `blob` or `tree` is only recognised in its
//! structural position.

use vstd::prelude::*;
use vstd::string::*;

verus! {

/// `p` is a prefix of `s`.
pub open spec fn is_prefix_of(p: Seq<char>, s: Seq<char>) -> bool {
    p.len() <= s.len() && s.subrange(0, p.len() as int) == p
}

/// Helper for `split_slash`: the segments still to be produced from `s`,
/// given that `cur` is the part of the current segment already read.
pub open spec fn split_slash_acc(s: Seq<char>, cur: Seq<char>) -> Seq<Seq<char>>
    decreases s.len(),
{
    if s.len() == 0 {
        if cur.len() == 0 {
            Seq::empty()
        } else {
            seq![cur]
        }
    } else if s[0] == '/' {
        if cur.len() == 0 {
            split_slash_acc(s.drop_first(), Seq::empty())
        } else {
            seq![cur] + split_slash_acc(s.drop_first(), Seq::empty())
        }
    } else {
        split_slash_acc(s.drop_first(), cur.push(s[0]))
    }
}

/// The nonempty `/`-separated segments of `s`, in order.
pub open spec fn split_slash(s: Seq<char>) -> Seq<Seq<char>> {
    split_slash_acc(s, Seq::empty())
}

/// The segments joined back together with a single `/` between them.
pub open spec fn join_slash(segs: Seq<Seq<char>>) -> Seq<char>
    decreases segs.len(),
{
    if segs.len() == 0 {
        Seq::empty()
    } else if segs.len() == 1 {
        segs[0]
    } else {
        join_slash(segs.drop_last()) + seq!['/'] + segs.last()
    }
}

/// Character-for-character equality of two string slices.
pub fn str_eq(a: &str, b: &str) -> (r: bool)
    ensures
        r == (a@ == b@),
{
    let alen = a.unicode_len();
    let blen = b.unicode_len();
    if alen != blen {
        return false;
    }
    let mut i: usize = 0;
    while i < alen
        invariant
            i <= alen,
            alen == a@.len(),
            blen == b@.len(),
            alen == blen,
            forall|j: int| 0 <= j < i ==> a@[j] == b@[j],
        decreases alen - i,
    {
        if a.get_char(i) != b.get_char(i) {
            proof {
                assert(a@[i as int] != b@[i as int]);
            }
            return false;
        }
        i += 1;
    }
    proof {
        assert(a@ =~= b@);
    }
    true
}

/// Whether `s` begins with `p`.
pub fn starts_with_str(s: &str, p: &str) -> (r: bool)
    ensures
        r == is_prefix_of(p@, s@),
{
    let slen = s.unicode_len();
    let plen = p.unicode_len();
    if plen > slen {
        return false;
    }
    let mut i: usize = 0;
    while i < plen
        invariant
            i <= plen,
            plen == p@.len(),
            slen == s@.len(),
            plen <= slen,
            forall|j: int| 0 <= j < i ==> s@[j] == p@[j],
        decreases plen - i,
    {
        if s.get_char(i) != p.get_char(i) {
            proof {
                assert(s@[i as int] != p@[i as int]);
                if is_prefix_of(p@, s@) {
                    assert(s@.subrange(0, p@.len() as int)[i as int] == s@[i as int]);
                }
            }
            return false;
        }
        i += 1;
    }
    proof {
        assert(s@.subrange(0, p@.len() as int) =~= p@);
    }
    true
}

/// Split `s` into its nonempty `/`-separated segments.
pub fn split_path(s: &str) -> (segs: Vec<String>)
    ensures
        segs.deep_view() == split_slash(s@),
{
    let n = s.unicode_len();
    let mut segs: Vec<String> = Vec::new();
    let mut start: usize = 0;
    let mut i: usize = 0;
    proof {
        assert(segs.deep_view() =~= Seq::<Seq<char>>::empty());
        assert(s@.skip(0) =~= s@);
        assert(s@.subrange(0, 0) =~= Seq::<char>::empty());
        assert(Seq::<Seq<char>>::empty() + split_slash_acc(s@, Seq::empty())
            =~= split_slash_acc(s@, Seq::empty()));
    }
    while i < n
        invariant
            start <= i <= n,
            n == s@.len(),
            split_slash(s@) == segs.deep_view() + split_slash_acc(
                s@.skip(i as int),
                s@.subrange(start as int, i as int),
            ),
        decreases n - i,
    {
        let ghost rest = s@.skip(i as int);
        let ghost cur = s@.subrange(start as int, i as int);
        proof {
            assert(rest.len() > 0);
            assert(rest[0] == s@[i as int]);
            assert(rest.drop_first() =~= s@.skip(i as int + 1));
        }
        let c = s.get_char(i);
        if c == '/' {
            if start < i {
                let seg = s.substring_char(start, i).to_owned();
                let ghost old_dv = segs.deep_view();
                segs.push(seg);
                proof {
                    assert(segs.deep_view() =~= old_dv + seq![cur]);
                    assert(old_dv + split_slash_acc(rest, cur)
                        =~= (old_dv + seq![cur]) + split_slash_acc(rest.drop_first(), Seq::empty()));
                }
            }
            start = i + 1;
            proof {
                assert(s@.subrange(start as int, i as int + 1) =~= Seq::<char>::empty());
            }
        } else {
            proof {
                assert(cur.push(s@[i as int]) =~= s@.subrange(start as int, i as int + 1));
            }
        }
        i += 1;
    }
    let ghost cur = s@.subrange(start as int, n as int);
    proof {
        assert(s@.skip(n as int) =~= Seq::<char>::empty());
    }
    if start < n {
        let seg = s.substring_char(start, n).to_owned();
        let ghost old_dv = segs.deep_view();
        segs.push(seg);
        proof {
            assert(segs.deep_view() =~= old_dv + seq![cur]);
        }
    } else {
        proof {
            assert(segs.deep_view() + Seq::<Seq<char>>::empty() =~= segs.deep_view());
        }
    }
    segs
}

/// Join segments with a single `/` between them.
pub fn join_path(segs: &Vec<String>) -> (r: String)
    ensures
        r@ == join_slash(segs.deep_view()),
{
    let mut r = String::new();
    let mut i: usize = 0;
    while i < segs.len()
        invariant
            i <= segs.len(),
            r@ == join_slash(segs.deep_view().take(i as int)),
        decreases segs.len() - i,
    {
        let ghost dv = segs.deep_view();
        proof {
            assert(dv.take(i as int + 1).drop_last() =~= dv.take(i as int));
            assert(dv.take(i as int + 1).last() == dv[i as int]);
        }
        if i > 0 {
            r.append("/");
            proof {
                reveal_strlit("/");
                assert("/"@ =~= seq!['/']);
            }
        } else {
            proof {
                assert(dv.take(1) =~= seq![dv[0]]);
                assert(Seq::<char>::empty() + dv[0] =~= dv[0]);
            }
        }
        r.append(segs[i].as_str());
        i += 1;
    }
    proof {
        assert(segs.deep_view().take(segs.len() as int) =~= segs.deep_view());
    }
    r
}

/// Whether some element of `v` reads as `x`.
pub fn contains_str(v: &Vec<String>, x: &str) -> (r: bool)
    ensures
        r == v.deep_view().contains(x@),
{
    let mut i: usize = 0;
    while i < v.len()
        invariant
            i <= v.len(),
            forall|j: int| 0 <= j < i ==> v.deep_view()[j] != x@,
        decreases v.len() - i,
    {
        if str_eq(v[i].as_str(), x) {
            proof {
                assert(v.deep_view()[i as int] == x@);
            }
            return true;
        }
        i += 1;
    }
    false
}

} // verus!
