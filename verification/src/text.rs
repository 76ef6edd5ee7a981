//! Character-level operations on tokens.

use vstd::prelude::*;
use vstd::std_specs::iter::IteratorSpec;

verus! {

/// The length of the run of hyphens that `s` begins with.
pub open spec fn hyphen_run(s: Seq<char>) -> nat
    decreases s.len(),
{
    if s.len() > 0 && s[0] == '-' {
        1 + hyphen_run(s.drop_first())
    } else {
        0
    }
}

/// `n` hyphens.
pub open spec fn hyphens(n: nat) -> Seq<char> {
    Seq::new(n, |i: int| '-')
}

/// The hyphen run of `s` is the one prefix of `s` that is made of hyphens and
/// is not followed by another.
pub proof fn lemma_hyphen_run(s: Seq<char>)
    ensures
        hyphen_run(s) <= s.len(),
        forall|i: int| 0 <= i < hyphen_run(s) ==> s[i] == '-',
        hyphen_run(s) < s.len() ==> s[hyphen_run(s) as int] != '-',
        s.take(hyphen_run(s) as int) == hyphens(hyphen_run(s)),
    decreases s.len(),
{
    if s.len() > 0 && s[0] == '-' {
        let t = s.drop_first();
        lemma_hyphen_run(t);
        assert forall|i: int| 0 <= i < hyphen_run(s) implies s[i] == '-' by {
            if i > 0 {
                assert(s[i] == t[i - 1]);
            }
        }
        if hyphen_run(s) < s.len() {
            assert(s[hyphen_run(s) as int] == t[hyphen_run(t) as int]);
        }
    }
    assert(s.take(hyphen_run(s) as int) =~= hyphens(hyphen_run(s)));
}

/// A prefix of hyphens that stops short of the end, or before a character
/// that is no hyphen, is the hyphen run.
pub proof fn lemma_hyphen_run_unique(s: Seq<char>, n: nat)
    requires
        n <= s.len(),
        forall|i: int| 0 <= i < n ==> s[i] == '-',
        n < s.len() ==> s[n as int] != '-',
    ensures
        hyphen_run(s) == n,
    decreases n,
{
    if n > 0 {
        let t = s.drop_first();
        assert forall|i: int| 0 <= i < n - 1 implies t[i] == '-' by {
            assert(t[i] == s[i + 1]);
        }
        lemma_hyphen_run_unique(t, (n - 1) as nat);
    }
}

/// In front of a text, `n` hyphens lengthen its hyphen run by `n`.
pub proof fn lemma_hyphen_run_prepend(n: nat, t: Seq<char>)
    ensures
        hyphen_run(hyphens(n) + t) == n + hyphen_run(t),
        (hyphens(n) + t).skip((n + hyphen_run(t)) as int) == t.skip(hyphen_run(t) as int),
{
    let s = hyphens(n) + t;
    let m = n + hyphen_run(t);
    lemma_hyphen_run(t);
    assert forall|i: int| 0 <= i < m implies s[i] == '-' by {
        if i >= n {
            assert(s[i] == t[i - n]);
        }
    }
    if m < s.len() {
        assert(s[m as int] == t[hyphen_run(t) as int]);
    }
    lemma_hyphen_run_unique(s, m);
    assert(s.skip(m as int) =~= t.skip(hyphen_run(t) as int));
}

/// The number of hyphens that `s` begins with.
pub fn leading_hyphens(s: &str) -> (n: usize)
    ensures
        n == hyphen_run(s@),
{
    let len = s.unicode_len();
    let mut chars = s.chars();
    let mut n: usize = 0;
    loop
        invariant_except_break
            chars.remaining() == s@.skip(n as int),
        invariant
            len == s@.len(),
            n <= len,
            chars.obeys_prophetic_iter_laws(),
            chars.decrease() is Some,
            forall|i: int| 0 <= i < n ==> s@[i] == '-',
        ensures
            n < len ==> s@[n as int] != '-',
        decreases chars.decrease()->0,
    {
        match chars.next() {
            Some(c) => {
                if c != '-' {
                    break;
                }
                assert(s@.skip(n as int).drop_first() == s@.skip(n + 1));
                n = n + 1;
            },
            None => {
                break;
            },
        }
    }
    proof {
        lemma_hyphen_run_unique(s@, n as nat);
    }
    n
}

/// The first character of `s`, if it has one.
pub fn first_char(s: &str) -> (c: Option<char>)
    ensures
        c == (if s@.len() > 0 {
            Some(s@[0])
        } else {
            None
        }),
{
    let mut chars = s.chars();
    chars.next()
}

/// Whether `s` begins with `prefix`.
pub fn starts_with(s: &str, prefix: &str) -> (r: bool)
    ensures
        r == prefix@.is_prefix_of(s@),
{
    let mut rest = s.chars();
    let mut wanted = prefix.chars();
    let ghost mut n: nat = 0;
    let mut r = true;
    loop
        invariant_except_break
            r,
            rest.remaining() == s@.skip(n as int),
            wanted.remaining() == prefix@.skip(n as int),
        invariant
            n <= s@.len(),
            n <= prefix@.len(),
            rest.obeys_prophetic_iter_laws(),
            wanted.obeys_prophetic_iter_laws(),
            wanted.decrease() is Some,
            forall|i: int| 0 <= i < n ==> s@[i] == prefix@[i],
        ensures
            r == prefix@.is_prefix_of(s@),
        decreases wanted.decrease()->0,
    {
        match wanted.next() {
            None => {
                assert(prefix@ =~= s@.subrange(0, prefix@.len() as int));
                break;
            },
            Some(p) => {
                match rest.next() {
                    None => {
                        r = false;
                        break;
                    },
                    Some(c) => {
                        if c != p {
                            assert(prefix@.len() <= s@.len() ==> s@.subrange(
                                0,
                                prefix@.len() as int,
                            )[n as int] == s@[n as int]);
                            r = false;
                            break;
                        }
                        assert(s@.skip(n as int).drop_first() == s@.skip(n as int + 1));
                        assert(prefix@.skip(n as int).drop_first() == prefix@.skip(n as int + 1));
                        proof {
                            n = n + 1;
                        }
                    },
                }
            },
        }
    }
    r
}

/// Whether `a` and `b` are the same text.
pub fn same_text(a: &str, b: &str) -> (r: bool)
    ensures
        r == (a@ == b@),
{
    let r = starts_with(a, b) && starts_with(b, a);
    proof {
        if r {
            assert(a@ =~= b@);
        }
    }
    r
}

} // verus!
