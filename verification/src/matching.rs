//! What it is for a token to be an occurrence of a definition, and what a
//! scan of a token sequence for a batch of definitions comes to.

use vstd::prelude::*;
use crate::arg::{Arg, ArgSpec};
use crate::opts::ValueSep;
use crate::text::hyphen_run;

verus! {

/// What a token, read as an occurrence of a definition, says.
pub enum Hit {
    /// The token is the flag.
    Flag,
    /// The token is the option, with this value inside it.
    Value(Seq<char>),
    /// The token is the option, and its value is the token that follows.
    ValueFollows,
}

/// The first of `names`, from index `from` on, that `body` begins with.
pub open spec fn leading_name(names: Seq<Seq<char>>, body: Seq<char>, from: int) -> Option<
    Seq<char>,
>
    decreases names.len() - from,
{
    if from < 0 || from >= names.len() {
        None
    } else if names[from].is_prefix_of(body) {
        Some(names[from])
    } else {
        leading_name(names, body, from + 1)
    }
}

impl ArgSpec {
    /// Whether a token with `count` leading hyphens can denote this
    /// definition.
    pub open spec fn accepts_hyphens(self, count: nat) -> bool {
        self.opts.accepts_hyphens(count, self.name.len())
    }

    /// What `token` says of this definition; `None` if it is no occurrence of
    /// it.
    ///
    /// The leading hyphens of the token must be as many as the definition
    /// accepts. What follows them is the body. A flag's body is the name or
    /// an alias. An option's body begins with the name or an alias, the first
    /// of these that it begins with, and what follows that must show a
    /// separator that the options enable.
    pub open spec fn occurrence(self, token: Seq<char>) -> Option<Hit> {
        let count = hyphen_run(token);
        let body = token.skip(count as int);
        if !self.accepts_hyphens(count) {
            None
        } else {
            match self.kind {
                Arg::Flag => if self.names().contains(body) {
                    Some(Hit::Flag)
                } else {
                    None
                },
                Arg::Option => match leading_name(self.names(), body, 0) {
                    None => None,
                    Some(name) => match self.opts.value_sep(body.skip(name.len() as int)) {
                        None => None,
                        Some(ValueSep::Inline(sep)) => Some(
                            Hit::Value(body.skip((name.len() + sep) as int)),
                        ),
                        Some(ValueSep::NextArg) => Some(Hit::ValueFollows),
                    },
                },
            }
        }
    }

    /// The outcome of looking for this definition at index `i` of `tokens`,
    /// and the tokens that are left.
    ///
    /// Where the token at `i` is no occurrence, the outcome is `None` and the
    /// tokens stay. Where it is, it leaves the sequence: a flag gives
    /// `Some(None)`, an option with its value inside gives the value, and an
    /// option whose value follows gives the next token and takes it out too.
    /// Such an option in the last place has no value to take: it leaves the
    /// sequence, and the outcome is `Some(None)`.
    pub open spec fn extract(self, tokens: Seq<Seq<char>>, i: int) -> (
        Option<Option<Seq<char>>>,
        Seq<Seq<char>>,
    )
        recommends
            0 <= i < tokens.len(),
    {
        match self.occurrence(tokens[i]) {
            None => (None, tokens),
            Some(Hit::Flag) => (Some(None), tokens.remove(i)),
            Some(Hit::Value(value)) => (Some(Some(value)), tokens.remove(i)),
            Some(Hit::ValueFollows) => if i + 1 < tokens.len() {
                (Some(Some(tokens[i + 1])), tokens.remove(i).remove(i))
            } else {
                (Some(None), tokens.remove(i))
            },
        }
    }
}

/// Where a scan stands: the tokens that are left, and the outcome recorded
/// for each definition.
pub struct Scan {
    /// The tokens that are left, in their order.
    pub tokens: Seq<Seq<char>>,
    /// For each definition its outcome: `None` as long as it was not found,
    /// `Some(None)` for a flag or an option without a value, `Some(Some(v))`
    /// for an option with the value `v`.
    pub found: Seq<Option<Option<Seq<char>>>>,
}

/// The state after the definitions from index `k` on have been tried, in
/// their order, at index `i`.
///
/// A definition whose outcome is recorded is passed over. Each other one is
/// tried against the token that stands at `i` when its turn comes, so after
/// one definition took its tokens out the next is tried against the token
/// that moved up. The pass ends early where no token is left at `i`.
pub open spec fn probe(defs: Seq<ArgSpec>, i: int, k: int, st: Scan) -> Scan
    decreases defs.len() - k,
{
    if k < 0 || k >= defs.len() || i < 0 || i >= st.tokens.len() {
        st
    } else if st.found[k] is Some {
        probe(defs, i, k + 1, st)
    } else {
        let (found, tokens) = defs[k].extract(st.tokens, i);
        probe(defs, i, k + 1, Scan { tokens, found: st.found.update(k, found) })
    }
}

/// The state after the scan has gone on from index `i` to the end.
///
/// Every definition is tried at `i`. If that took a token out, the tokens
/// behind it have moved up, and the same index is tried again. If not, the
/// pass has changed nothing (`lemma_probe_shrinks`), and the scan goes on to
/// the next index.
pub open spec fn scan(defs: Seq<ArgSpec>, i: int, st: Scan) -> Scan
    decreases st.tokens.len(), st.tokens.len() - i,
{
    if i < 0 || i >= st.tokens.len() {
        st
    } else {
        let next = probe(defs, i, 0, st);
        if next.tokens.len() < st.tokens.len() {
            scan(defs, i, next)
        } else {
            scan(defs, i + 1, st)
        }
    }
}

/// The state before a scan of `tokens`: no outcome recorded for any of `n`
/// definitions.
pub open spec fn start(n: nat, tokens: Seq<Seq<char>>) -> Scan {
    Scan { tokens, found: Seq::new(n, |k: int| None) }
}

/// The outcome for each of `defs`, and the tokens that are left, after one
/// scan of `tokens` from left to right.
pub open spec fn parse_all(defs: Seq<ArgSpec>, tokens: Seq<Seq<char>>) -> Scan {
    scan(defs, 0, start(defs.len(), tokens))
}

/// No token of `tokens` is an occurrence of `def`.
pub open spec fn occurs_nowhere(def: ArgSpec, tokens: Seq<Seq<char>>) -> bool {
    forall|j: int| 0 <= j < tokens.len() ==> (#[trigger] def.occurrence(tokens[j])) is None
}

/// The number of tokens of `tokens` that are occurrences of `def`.
pub open spec fn occurrences(def: ArgSpec, tokens: Seq<Seq<char>>) -> nat
    decreases tokens.len(),
{
    if tokens.len() == 0 {
        0
    } else {
        occurrences(def, tokens.drop_last()) + (if def.occurrence(tokens.last()) is Some {
            1nat
        } else {
            0nat
        })
    }
}

/// An extraction finds nothing and leaves the tokens, or finds an occurrence
/// at `i` and takes one or two tokens out from there.
pub proof fn lemma_extract_shrinks(def: ArgSpec, tokens: Seq<Seq<char>>, i: int)
    requires
        0 <= i < tokens.len(),
    ensures
        def.extract(tokens, i).0 is None <==> def.occurrence(tokens[i]) is None,
        def.extract(tokens, i).0 is None ==> def.extract(tokens, i).1 == tokens,
        def.extract(tokens, i).0 is Some ==> i <= def.extract(tokens, i).1.len() < tokens.len(),
{
    tokens.remove_ensures(i);
    if i + 1 < tokens.len() {
        tokens.remove(i).remove_ensures(i);
    }
}

/// A pass takes tokens out or leaves the state as it is.
pub proof fn lemma_probe_shrinks(defs: Seq<ArgSpec>, i: int, k: int, st: Scan)
    requires
        st.found.len() == defs.len(),
    ensures
        probe(defs, i, k, st).found.len() == defs.len(),
        probe(defs, i, k, st).tokens.len() <= st.tokens.len(),
        probe(defs, i, k, st).tokens.len() == st.tokens.len() ==> probe(defs, i, k, st) == st,
    decreases defs.len() - k,
{
    if k < 0 || k >= defs.len() || i < 0 || i >= st.tokens.len() {
    } else if st.found[k] is Some {
        lemma_probe_shrinks(defs, i, k + 1, st);
    } else {
        let (found, tokens) = defs[k].extract(st.tokens, i);
        let next = Scan { tokens, found: st.found.update(k, found) };
        lemma_probe_shrinks(defs, i, k + 1, next);
        if found is None {
            assert(next.found =~= st.found);
        }
    }
}

} // verus!
