//! What each extraction, each pass and each scan keeps: the inductions that
//! the laws of matching rest on.

use vstd::prelude::*;
use crate::arg::ArgSpec;
use crate::matching::{
    lemma_extract_shrinks, lemma_probe_shrinks, occurrences, occurs_nowhere, probe, scan, Scan,
};
use crate::remainder::{
    is_remainder, is_remainder_at, lemma_remainder_of_remainder, lemma_remainder_remove,
    lemma_remainder_whole,
};

verus! {

/// A definition that occurs nowhere in a sequence occurs nowhere in a
/// remainder of it.
pub proof fn lemma_nowhere_in_remainder(def: ArgSpec, rest: Seq<Seq<char>>, full: Seq<Seq<char>>)
    requires
        is_remainder(rest, full),
        occurs_nowhere(def, full),
    ensures
        occurs_nowhere(def, rest),
{
    let at = choose|at: Seq<int>| is_remainder_at(rest, full, at);
    assert forall|j: int| 0 <= j < rest.len() implies (#[trigger] def.occurrence(rest[j])) is None by {
        assert(rest[j] == full[at[j]]);
    }
}

/// A definition with no occurrence among the tokens occurs nowhere in them.
pub proof fn lemma_no_occurrences(def: ArgSpec, tokens: Seq<Seq<char>>)
    ensures
        occurrences(def, tokens) == 0 <==> occurs_nowhere(def, tokens),
    decreases tokens.len(),
{
    if tokens.len() > 0 {
        let front = tokens.drop_last();
        lemma_no_occurrences(def, front);
        if occurs_nowhere(def, tokens) {
            assert forall|j: int| 0 <= j < front.len() implies (#[trigger] def.occurrence(
                front[j],
            )) is None by {
                assert(front[j] == tokens[j]);
            }
            assert(def.occurrence(tokens[tokens.len() - 1]) is None);
        }
        if occurrences(def, tokens) == 0 {
            assert forall|j: int| 0 <= j < tokens.len() implies (#[trigger] def.occurrence(
                tokens[j],
            )) is None by {
                if j < front.len() {
                    assert(front[j] == tokens[j]);
                }
            }
        }
    }
}

/// Taking a token out takes one occurrence away if the token is one, and
/// none if it is not.
pub proof fn lemma_occurrences_remove(def: ArgSpec, tokens: Seq<Seq<char>>, i: int)
    requires
        0 <= i < tokens.len(),
    ensures
        occurrences(def, tokens) == occurrences(def, tokens.remove(i)) + (if def.occurrence(
            tokens[i],
        ) is Some {
            1nat
        } else {
            0nat
        }),
    decreases tokens.len(),
{
    tokens.remove_ensures(i);
    if i == tokens.len() - 1 {
        assert(tokens.remove(i) =~= tokens.drop_last());
    } else {
        lemma_occurrences_remove(def, tokens.drop_last(), i);
        assert(tokens.remove(i).drop_last() =~= tokens.drop_last().remove(i));
        assert(tokens.remove(i).last() == tokens.last());
    }
}

/// What is left after an extraction at `i` is a remainder of the tokens
/// that begins with the same `i` tokens.
pub proof fn lemma_extract_remainder(def: ArgSpec, tokens: Seq<Seq<char>>, i: int)
    requires
        0 <= i < tokens.len(),
    ensures
        is_remainder(def.extract(tokens, i).1, tokens),
        def.extract(tokens, i).1.take(i) == tokens.take(i),
{
    let rest = def.extract(tokens, i).1;
    lemma_extract_shrinks(def, tokens, i);
    if def.extract(tokens, i).0 is None {
        lemma_remainder_whole(tokens);
    } else {
        tokens.remove_ensures(i);
        lemma_remainder_remove(tokens, i);
        assert(tokens.remove(i).take(i) =~= tokens.take(i));
        if rest != tokens.remove(i) {
            let once = tokens.remove(i);
            once.remove_ensures(i);
            lemma_remainder_remove(once, i);
            lemma_remainder_of_remainder(rest, once, tokens);
            assert(once.remove(i).take(i) =~= tokens.take(i));
        }
    }
}

/// An extraction takes no occurrence of any definition in, and takes one
/// occurrence of its own definition out where it finds one.
pub proof fn lemma_extract_occurrences(
    def: ArgSpec,
    other: ArgSpec,
    tokens: Seq<Seq<char>>,
    i: int,
)
    requires
        0 <= i < tokens.len(),
    ensures
        occurrences(other, def.extract(tokens, i).1) <= occurrences(other, tokens),
        def.extract(tokens, i).0 is Some ==> occurrences(def, def.extract(tokens, i).1)
            < occurrences(def, tokens),
{
    let (found, rest) = def.extract(tokens, i);
    if found is Some {
        let once = tokens.remove(i);
        tokens.remove_ensures(i);
        lemma_occurrences_remove(other, tokens, i);
        lemma_occurrences_remove(def, tokens, i);
        if rest != once {
            lemma_occurrences_remove(other, once, i);
            lemma_occurrences_remove(def, once, i);
        }
    }
}

/// What one pass over the token at `i` keeps: the outcomes that were
/// recorded before it, the tokens in front of `i`, and the order of the
/// tokens that it leaves.
pub proof fn lemma_probe_keeps(defs: Seq<ArgSpec>, i: int, k: int, st: Scan)
    requires
        st.found.len() == defs.len(),
        0 <= i <= st.tokens.len(),
    ensures
        i <= probe(defs, i, k, st).tokens.len(),
        probe(defs, i, k, st).tokens.take(i) == st.tokens.take(i),
        is_remainder(probe(defs, i, k, st).tokens, st.tokens),
        forall|n: int|
            0 <= n < defs.len() && (#[trigger] st.found[n]) is Some ==> probe(
                defs,
                i,
                k,
                st,
            ).found[n] == st.found[n],
    decreases defs.len() - k,
{
    if k < 0 || k >= defs.len() || i >= st.tokens.len() {
        lemma_remainder_whole(st.tokens);
    } else if st.found[k] is Some {
        lemma_probe_keeps(defs, i, k + 1, st);
    } else {
        let (found, tokens) = defs[k].extract(st.tokens, i);
        let next = Scan { tokens, found: st.found.update(k, found) };
        lemma_extract_shrinks(defs[k], st.tokens, i);
        lemma_extract_remainder(defs[k], st.tokens, i);
        lemma_probe_keeps(defs, i, k + 1, next);
        lemma_remainder_of_remainder(probe(defs, i, k, st).tokens, tokens, st.tokens);
        assert forall|n: int| 0 <= n < defs.len() && (#[trigger] st.found[n]) is Some implies probe(
            defs,
            i,
            k,
            st,
        ).found[n] == st.found[n] by {
            assert(next.found[n] == st.found[n]);
        }
    }
}

/// A pass records nothing for a definition that occurs nowhere in the
/// tokens.
pub proof fn lemma_probe_absent(defs: Seq<ArgSpec>, i: int, k: int, st: Scan, n: int)
    requires
        st.found.len() == defs.len(),
        0 <= i <= st.tokens.len(),
        0 <= n < defs.len(),
        st.found[n] is None,
        occurs_nowhere(defs[n], st.tokens),
    ensures
        probe(defs, i, k, st).found[n] is None,
    decreases defs.len() - k,
{
    if k < 0 || k >= defs.len() || i >= st.tokens.len() {
    } else if st.found[k] is Some {
        lemma_probe_absent(defs, i, k + 1, st, n);
    } else {
        let (found, tokens) = defs[k].extract(st.tokens, i);
        let next = Scan { tokens, found: st.found.update(k, found) };
        lemma_extract_shrinks(defs[k], st.tokens, i);
        lemma_extract_remainder(defs[k], st.tokens, i);
        lemma_nowhere_in_remainder(defs[n], tokens, st.tokens);
        if k == n {
            assert(defs[n].occurrence(st.tokens[i]) is None);
        }
        lemma_probe_absent(defs, i, k + 1, next, n);
    }
}

/// A pass that takes no token out has found the token at `i` to be no
/// occurrence of any definition, from `k` on, without a recorded outcome.
pub proof fn lemma_probe_idle(defs: Seq<ArgSpec>, i: int, k: int, st: Scan)
    requires
        st.found.len() == defs.len(),
        0 <= i < st.tokens.len(),
        0 <= k,
        probe(defs, i, k, st).tokens.len() == st.tokens.len(),
    ensures
        forall|n: int|
            k <= n < defs.len() && st.found[n] is None ==> (#[trigger] defs[n].occurrence(
                st.tokens[i],
            )) is None,
    decreases defs.len() - k,
{
    if k >= defs.len() {
    } else if st.found[k] is Some {
        lemma_probe_idle(defs, i, k + 1, st);
    } else {
        let (found, tokens) = defs[k].extract(st.tokens, i);
        let next = Scan { tokens, found: st.found.update(k, found) };
        lemma_extract_shrinks(defs[k], st.tokens, i);
        lemma_probe_shrinks(defs, i, k + 1, next);
        assert(found is None);
        assert(next.found =~= st.found);
        lemma_probe_idle(defs, i, k + 1, st);
    }
}

/// A pass over a token that is no occurrence of any definition, from `k`
/// on, without a recorded outcome changes nothing.
pub proof fn lemma_probe_nothing(defs: Seq<ArgSpec>, i: int, k: int, st: Scan)
    requires
        st.found.len() == defs.len(),
        0 <= i < st.tokens.len(),
        forall|n: int|
            k <= n < defs.len() && st.found[n] is None ==> (#[trigger] defs[n].occurrence(
                st.tokens[i],
            )) is None,
    ensures
        probe(defs, i, k, st) == st,
    decreases defs.len() - k,
{
    if k < 0 || k >= defs.len() {
    } else if st.found[k] is Some {
        lemma_probe_nothing(defs, i, k + 1, st);
    } else {
        let (found, tokens) = defs[k].extract(st.tokens, i);
        let next = Scan { tokens, found: st.found.update(k, found) };
        assert(defs[k].occurrence(st.tokens[i]) is None);
        assert(next.found =~= st.found);
        lemma_probe_nothing(defs, i, k + 1, st);
    }
}

/// Every definition with a recorded outcome has at least one occurrence
/// less among the tokens of `st` than among `tokens`, and no definition has
/// more.
pub open spec fn spent(defs: Seq<ArgSpec>, st: Scan, tokens: Seq<Seq<char>>) -> bool {
    forall|n: int|
        0 <= n < defs.len() ==> occurrences(#[trigger] defs[n], st.tokens) + (if st.found[n]
            is Some {
            1nat
        } else {
            0nat
        }) <= occurrences(defs[n], tokens)
}

/// A pass keeps the count of what was spent.
pub proof fn lemma_probe_spends(
    defs: Seq<ArgSpec>,
    i: int,
    k: int,
    st: Scan,
    tokens: Seq<Seq<char>>,
)
    requires
        st.found.len() == defs.len(),
        spent(defs, st, tokens),
    ensures
        spent(defs, probe(defs, i, k, st), tokens),
    decreases defs.len() - k,
{
    if k < 0 || k >= defs.len() || i < 0 || i >= st.tokens.len() {
    } else if st.found[k] is Some {
        lemma_probe_spends(defs, i, k + 1, st, tokens);
    } else {
        let (found, rest) = defs[k].extract(st.tokens, i);
        let next = Scan { tokens: rest, found: st.found.update(k, found) };
        assert forall|n: int| 0 <= n < defs.len() implies occurrences(
            #[trigger] defs[n],
            next.tokens,
        ) + (if next.found[n] is Some {
            1nat
        } else {
            0nat
        }) <= occurrences(defs[n], tokens) by {
            lemma_extract_occurrences(defs[k], defs[n], st.tokens, i);
        }
        lemma_probe_spends(defs, i, k + 1, next, tokens);
    }
}

/// What a scan keeps: the number of outcomes, the outcomes that were recorded
/// before it, and the order of the tokens that it leaves.
pub proof fn lemma_scan_keeps(defs: Seq<ArgSpec>, i: int, st: Scan)
    requires
        st.found.len() == defs.len(),
    ensures
        scan(defs, i, st).found.len() == defs.len(),
        scan(defs, i, st).tokens.len() <= st.tokens.len(),
        is_remainder(scan(defs, i, st).tokens, st.tokens),
        forall|n: int|
            0 <= n < defs.len() && (#[trigger] st.found[n]) is Some ==> scan(defs, i, st).found[n]
                == st.found[n],
    decreases st.tokens.len(), st.tokens.len() - i,
{
    if i < 0 || i >= st.tokens.len() {
        lemma_remainder_whole(st.tokens);
    } else {
        let next = probe(defs, i, 0, st);
        lemma_probe_shrinks(defs, i, 0, st);
        lemma_probe_keeps(defs, i, 0, st);
        if next.tokens.len() < st.tokens.len() {
            lemma_scan_keeps(defs, i, next);
            lemma_remainder_of_remainder(scan(defs, i, st).tokens, next.tokens, st.tokens);
            assert forall|n: int| 0 <= n < defs.len() && (#[trigger] st.found[n]) is Some implies scan(
                defs,
                i,
                st,
            ).found[n] == st.found[n] by {
                assert(next.found[n] == st.found[n]);
            }
        } else {
            lemma_scan_keeps(defs, i + 1, st);
        }
    }
}

/// A scan records nothing for a definition that occurs nowhere in the
/// tokens.
pub proof fn lemma_scan_absent(defs: Seq<ArgSpec>, i: int, st: Scan, n: int)
    requires
        st.found.len() == defs.len(),
        0 <= n < defs.len(),
        st.found[n] is None,
        occurs_nowhere(defs[n], st.tokens),
    ensures
        scan(defs, i, st).found[n] is None,
    decreases st.tokens.len(), st.tokens.len() - i,
{
    if i < 0 || i >= st.tokens.len() {
    } else {
        let next = probe(defs, i, 0, st);
        lemma_probe_shrinks(defs, i, 0, st);
        lemma_probe_keeps(defs, i, 0, st);
        if next.tokens.len() < st.tokens.len() {
            lemma_probe_absent(defs, i, 0, st, n);
            lemma_nowhere_in_remainder(defs[n], next.tokens, st.tokens);
            lemma_scan_absent(defs, i, next, n);
        } else {
            lemma_scan_absent(defs, i + 1, st, n);
        }
    }
}

/// Every token in front of index `upto` is no occurrence of any definition
/// without a recorded outcome.
pub open spec fn settled(defs: Seq<ArgSpec>, st: Scan, upto: int) -> bool {
    forall|n: int, j: int|
        0 <= n < defs.len() && 0 <= j < upto && j < st.tokens.len() && st.found[n] is None ==> (
        #[trigger] defs[n].occurrence(st.tokens[j])) is None
}

/// A scan that goes on from index `i`, with the tokens in front of `i`
/// settled, leaves all its tokens settled.
pub proof fn lemma_scan_settles(defs: Seq<ArgSpec>, i: int, st: Scan)
    requires
        st.found.len() == defs.len(),
        0 <= i,
        settled(defs, st, i),
    ensures
        settled(defs, scan(defs, i, st), scan(defs, i, st).tokens.len() as int),
    decreases st.tokens.len(), st.tokens.len() - i,
{
    if i >= st.tokens.len() {
    } else {
        let next = probe(defs, i, 0, st);
        lemma_probe_shrinks(defs, i, 0, st);
        lemma_probe_keeps(defs, i, 0, st);
        if next.tokens.len() < st.tokens.len() {
            assert forall|n: int, j: int|
                0 <= n < defs.len() && 0 <= j < i && j < next.tokens.len()
                    && next.found[n] is None implies (#[trigger] defs[n].occurrence(
                next.tokens[j],
            )) is None by {
                assert(next.tokens[j] == next.tokens.take(i)[j]);
                assert(st.tokens[j] == st.tokens.take(i)[j]);
                if st.found[n] is Some {
                    assert(next.found[n] == st.found[n]);
                }
                assert(defs[n].occurrence(st.tokens[j]) is None);
            }
            lemma_scan_settles(defs, i, next);
        } else {
            lemma_probe_idle(defs, i, 0, st);
            lemma_scan_settles(defs, i + 1, st);
        }
    }
}

/// A scan of tokens of which none is an occurrence of a definition without
/// a recorded outcome changes nothing.
pub proof fn lemma_scan_nothing(defs: Seq<ArgSpec>, i: int, st: Scan)
    requires
        st.found.len() == defs.len(),
        settled(defs, st, st.tokens.len() as int),
    ensures
        scan(defs, i, st) == st,
    decreases st.tokens.len() - i,
{
    if i < 0 || i >= st.tokens.len() {
    } else {
        lemma_probe_nothing(defs, i, 0, st);
        lemma_scan_nothing(defs, i + 1, st);
    }
}

/// A scan passes by the tokens from index `i` up to index `j` if none of
/// them is an occurrence of a definition without a recorded outcome.
pub proof fn lemma_scan_passes_by(defs: Seq<ArgSpec>, i: int, j: int, st: Scan)
    requires
        st.found.len() == defs.len(),
        0 <= i <= j <= st.tokens.len(),
        forall|n: int, l: int|
            0 <= n < defs.len() && i <= l < j && st.found[n] is None ==> (
            #[trigger] defs[n].occurrence(st.tokens[l])) is None,
    ensures
        scan(defs, i, st) == scan(defs, j, st),
    decreases j - i,
{
    if i < j {
        lemma_probe_nothing(defs, i, 0, st);
        lemma_scan_passes_by(defs, i + 1, j, st);
    }
}

/// A scan that goes on from index `i` takes a token out if, at `i` or behind
/// it, a token is an occurrence of a definition without a recorded outcome.
pub proof fn lemma_scan_takes(defs: Seq<ArgSpec>, i: int, st: Scan, j: int, n: int)
    requires
        st.found.len() == defs.len(),
        0 <= i <= j < st.tokens.len(),
        0 <= n < defs.len(),
        st.found[n] is None,
        defs[n].occurrence(st.tokens[j]) is Some,
    ensures
        scan(defs, i, st).tokens.len() < st.tokens.len(),
    decreases st.tokens.len() - i,
{
    let next = probe(defs, i, 0, st);
    lemma_probe_shrinks(defs, i, 0, st);
    if next.tokens.len() < st.tokens.len() {
        lemma_scan_keeps(defs, i, next);
    } else {
        lemma_probe_idle(defs, i, 0, st);
        lemma_scan_takes(defs, i + 1, st, j, n);
    }
}

/// A scan keeps the count of what was spent.
pub proof fn lemma_scan_spends(defs: Seq<ArgSpec>, i: int, st: Scan, tokens: Seq<Seq<char>>)
    requires
        st.found.len() == defs.len(),
        spent(defs, st, tokens),
    ensures
        spent(defs, scan(defs, i, st), tokens),
    decreases st.tokens.len(), st.tokens.len() - i,
{
    if i < 0 || i >= st.tokens.len() {
    } else {
        let next = probe(defs, i, 0, st);
        lemma_probe_shrinks(defs, i, 0, st);
        lemma_probe_spends(defs, i, 0, st, tokens);
        if next.tokens.len() < st.tokens.len() {
            lemma_scan_spends(defs, i, next, tokens);
        } else {
            lemma_scan_spends(defs, i + 1, st, tokens);
        }
    }
}

} // verus!
