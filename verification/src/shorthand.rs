//! Parsing the `<account>/<repository>` shorthand argument.

use vstd::prelude::*;
use vstd::string::*;

verus! {

/// A character allowed in an account name.
pub open spec fn is_word_char(c: char) -> bool {
    ||| 'a' <= c && c <= 'z'
    ||| 'A' <= c && c <= 'Z'
    ||| '0' <= c && c <= '9'
    ||| c == '_'
}

/// A character allowed in a repository name.
pub open spec fn is_repo_char(c: char) -> bool {
    is_word_char(c) || c == '-'
}

/// The position of the first `/` of `s`, or `s.len()` when there is none.
pub open spec fn first_slash(s: Seq<char>) -> int
    decreases s.len(),
{
    if s.len() == 0 {
        0
    } else if s[0] == '/' {
        0
    } else {
        1 + first_slash(s.drop_first())
    }
}

/// `s` reads `<account>/<repository>`: one separating slash, a nonempty
/// account of word characters before it, a nonempty repository of word or
/// dash characters after it.
pub open spec fn valid_shorthand(s: Seq<char>) -> bool {
    let k = first_slash(s);
    &&& 1 <= k
    &&& k + 1 < s.len()
    &&& forall|i: int| 0 <= i < k ==> is_word_char(#[trigger] s[i])
    &&& forall|i: int| k < i < s.len() ==> is_repo_char(#[trigger] s[i])
}

pub proof fn lemma_first_slash_at(s: Seq<char>, k: int)
    requires
        0 <= k <= s.len(),
        forall|i: int| 0 <= i < k ==> s[i] != '/',
        k < s.len() ==> s[k] == '/',
        k == s.len() ==> forall|i: int| 0 <= i < s.len() ==> s[i] != '/',
    ensures
        first_slash(s) == k,
    decreases s.len(),
{
    if s.len() == 0 {
    } else if s[0] == '/' {
        assert(k == 0);
    } else {
        assert(k >= 1);
        let t = s.drop_first();
        assert forall|i: int| 0 <= i < k - 1 implies t[i] != '/' by {
            assert(t[i] == s[i + 1]);
        }
        if k - 1 < t.len() {
            assert(t[k - 1] == s[k]);
        }
        if k - 1 == t.len() {
            assert forall|i: int| 0 <= i < t.len() implies t[i] != '/' by {
                assert(t[i] == s[i + 1]);
            }
        }
        lemma_first_slash_at(t, k - 1);
    }
}

/// Whether `c` may stand in an account name.
pub fn word_char(c: char) -> (r: bool)
    ensures
        r == is_word_char(c),
{
    ('a' <= c && c <= 'z') || ('A' <= c && c <= 'Z') || ('0' <= c && c <= '9') || c == '_'
}

/// Whether `c` may stand in a repository name.
pub fn repo_char(c: char) -> (r: bool)
    ensures
        r == is_repo_char(c),
{
    word_char(c) || c == '-'
}

/// Parse an `<account>/<repository>` shorthand. Returns the two names
/// when the argument matches the shorthand shape, and nothing otherwise.
pub fn parse_shorthand(arg: &str) -> (r: Option<(String, String)>)
    ensures
        r is Some <==> valid_shorthand(arg@),
        r matches Some(p) ==> {
            &&& p.0@ == arg@.subrange(0, first_slash(arg@))
            &&& p.1@ == arg@.subrange(first_slash(arg@) + 1, arg@.len() as int)
        },
{
    let n = arg.unicode_len();
    let mut k: usize = 0;
    while k < n && arg.get_char(k) != '/'
        invariant
            k <= n,
            n == arg@.len(),
            forall|i: int| 0 <= i < k ==> arg@[i] != '/',
        decreases n - k,
    {
        k += 1;
    }
    proof {
        lemma_first_slash_at(arg@, k as int);
    }
    if k == 0 || k >= n || k + 1 >= n {
        return None;
    }
    let mut i: usize = 0;
    while i < k
        invariant
            i <= k,
            k < n,
            n == arg@.len(),
            first_slash(arg@) == k as int,
            forall|j: int| 0 <= j < i ==> is_word_char(#[trigger] arg@[j]),
        decreases k - i,
    {
        if !word_char(arg.get_char(i)) {
            return None;
        }
        i += 1;
    }
    let mut j: usize = k + 1;
    while j < n
        invariant
            k + 1 <= j <= n,
            n == arg@.len(),
            first_slash(arg@) == k as int,
            forall|t: int| k < t < j ==> is_repo_char(#[trigger] arg@[t]),
        decreases n - j,
    {
        if !repo_char(arg.get_char(j)) {
            return None;
        }
        j += 1;
    }
    let account = arg.substring_char(0, k).to_owned();
    let repository = arg.substring_char(k + 1, n).to_owned();
    Some((account, repository))
}

} // verus!
