//! Extracting the values of argument definitions from a sequence of tokens.

use vstd::prelude::*;
use vstd::string::StrSliceExecFns;
use crate::arg::{Arg, ArgDef, ArgSpec};
use crate::matching::{
    leading_name, lemma_extract_shrinks, lemma_probe_shrinks, parse_all, probe, scan, start, Scan,
};
use crate::text::{leading_hyphens, lemma_hyphen_run, same_text, starts_with};

verus! {

/// The definitions of an array, in their order.
pub open spec fn specs(defs: Seq<&ArgDef<'_, '_>>) -> Seq<ArgSpec> {
    Seq::new(defs.len(), |k: int| defs[k]@)
}

/// Taking an element out of a vector of strings takes its text out of the
/// vector's texts.
proof fn lemma_deep_view_remove(before: Vec<String>, after: Vec<String>, i: int)
    requires
        0 <= i < before@.len(),
        after@ == before@.remove(i),
    ensures
        after.deep_view() == before.deep_view().remove(i),
{
    assert(after.deep_view() =~= before.deep_view().remove(i));
}

impl ArgDef<'_, '_> {
    /// Whether a token with `count` leading hyphens can denote this
    /// definition.
    pub fn accepts_hyphen_count(&self, count: usize) -> (r: bool)
        ensures
            r == self@.accepts_hyphens(count as nat),
    {
        if self.opts.single_hyphen || self.opts.double_hyphen {
            self.opts.is_hyphen_count(count)
        } else if self.name.unicode_len() == 1 {
            count == 1
        } else {
            count == 2
        }
    }

    /// Whether `s` is the name or an alias.
    pub fn is_name_eq(&self, s: &str) -> (r: bool)
        ensures
            r == self@.names().contains(s@),
    {
        let ghost names = self@.names();
        if same_text(self.name, s) {
            assert(names[0] == s@);
            return true;
        }
        let mut k: usize = 0;
        while k < self.alias.len()
            invariant
                k <= self.alias@.len(),
                names == self@.names(),
                forall|j: int| 0 <= j <= k ==> names[j] != s@,
            decreases self.alias@.len() - k,
        {
            if same_text(self.alias[k], s) {
                assert(names[k + 1] == s@);
                return true;
            }
            k += 1;
        }
        false
    }

    /// The length of the first of the name and the aliases that `body`
    /// begins with.
    fn leading_name_len(&self, body: &str) -> (len: Option<usize>)
        ensures
            len == (match leading_name(self@.names(), body@, 0) {
                Some(name) => Some(name.len() as usize),
                None => None,
            }),
            leading_name(self@.names(), body@, 0) matches Some(name) ==> name.len() <= body@.len()
                <= usize::MAX,
    {
        let ghost names = self@.names();
        let body_len = body.unicode_len();
        if starts_with(body, self.name) {
            return Some(self.name.unicode_len());
        }
        let mut k: usize = 0;
        while k < self.alias.len()
            invariant
                k <= self.alias@.len(),
                names == self@.names(),
                body_len == body@.len(),
                leading_name(names, body@, 0) == leading_name(names, body@, k + 1),
            decreases self.alias@.len() - k,
        {
            if starts_with(body, self.alias[k]) {
                assert(names[k + 1] == self.alias@[k as int]@);
                return Some(self.alias[k].unicode_len());
            }
            k += 1;
        }
        None
    }

    /// Looks for this definition at index `i` of `args`, and takes what it
    /// finds out of `args`.
    ///
    /// Returns `None`, and leaves `args` as they are, where the token at `i`
    /// is no occurrence of this definition. Returns `Some(None)` for a flag
    /// and `Some(Some(value))` for an option, and takes the token out; an
    /// option whose value is the next token takes that out too. Where such
    /// an option stands last, there is no value to take: the token is taken
    /// out and the result is `Some(None)`.
    pub fn parse_value(&self, i: usize, args: &mut Vec<String>) -> (found: Option<Option<String>>)
        requires
            i < old(args).len(),
        ensures
            (found.deep_view(), final(args).deep_view()) == self@.extract(
                old(args).deep_view(),
                i as int,
            ),
    {
        let ghost tokens = args.deep_view();
        let arg: &str = args[i].as_str();
        assert(arg@ == tokens[i as int]);
        let len = arg.unicode_len();
        let hyphen_count = leading_hyphens(arg);
        if !self.accepts_hyphen_count(hyphen_count) {
            return None;
        }
        proof {
            lemma_hyphen_run(arg@);
        }
        let body = arg.substring_char(hyphen_count, len);
        assert(body@ =~= arg@.skip(hyphen_count as int));
        match self.arg {
            Arg::Flag => {
                if self.is_name_eq(body) {
                    args.remove(i);
                    proof {
                        lemma_deep_view_remove(*old(args), *args, i as int);
                    }
                    Some(None)
                } else {
                    None
                }
            },
            Arg::Option => {
                let name_len = match self.leading_name_len(body) {
                    Some(name_len) => name_len,
                    None => {
                        return None;
                    },
                };
                let body_len = body.unicode_len();
                let rest = body.substring_char(name_len, body_len);
                assert(rest@ =~= body@.skip(name_len as int));
                let mut sep_len = None;
                if !self.opts.parse_value_sep(rest, &mut sep_len) {
                    return None;
                }
                match sep_len {
                    Some(sep_len) => {
                        let value = String::from_str(
                            body.substring_char(name_len + sep_len, body_len),
                        );
                        assert(value@ =~= body@.skip((name_len + sep_len) as int));
                        args.remove(i);
                        proof {
                            lemma_deep_view_remove(*old(args), *args, i as int);
                        }
                        Some(Some(value))
                    },
                    None => {
                        args.remove(i);
                        let ghost first_out = *args;
                        proof {
                            lemma_deep_view_remove(*old(args), first_out, i as int);
                        }
                        if i < args.len() {
                            let value = args.remove(i);
                            proof {
                                lemma_deep_view_remove(first_out, *args, i as int);
                            }
                            Some(Some(value))
                        } else {
                            Some(None)
                        }
                    },
                }
            },
        }
    }
}

/// No outcome.
fn absent() -> (found: Option<Option<String>>)
    ensures
        found is None,
{
    None
}

/// An array of `N` outcomes, each of them `None`.
///
/// Calls `core::array::from_fn` with a function that returns `None` for
/// every index. Not proved: that the array it makes holds, at each index,
/// what the function returned for that index.
#[verifier::external_body]
fn all_absent<const N: usize>() -> (found: [Option<Option<String>>; N])
    ensures
        forall|k: int| 0 <= k < N ==> found@[k] is None,
{
    core::array::from_fn(|_| absent())
}

/// A batch of definitions that can be looked for in a token sequence.
pub trait ParseFrom<const N: usize> {
    /// The definitions, in their order.
    spec fn defs(&self) -> Seq<ArgSpec>;

    /// Scans `args` once from left to right for all the definitions, takes
    /// what belongs to them out of `args`, and returns the outcome for each:
    /// `None` for a definition that was not found, else what
    /// [`ArgDef::parse_value`] returned at its first occurrence.
    ///
    /// A definition that was found is not looked for again, so its outcome
    /// is never overwritten, and further occurrences of it stay in `args`.
    fn parse_from(&self, args: &mut Vec<String>) -> (found: [Option<Option<String>>; N])
        ensures
            found.deep_view() == parse_all(self.defs(), old(args).deep_view()).found,
            final(args).deep_view() == parse_all(self.defs(), old(args).deep_view()).tokens,
    ;
}

impl<'a, 'b, const N: usize> ParseFrom<N> for [&ArgDef<'a, 'b>; N] {
    open spec fn defs(&self) -> Seq<ArgSpec> {
        specs(self@)
    }

    fn parse_from(&self, args: &mut Vec<String>) -> (found: [Option<Option<String>>; N]) {
        let ghost defs = self.defs();
        let ghost goal = parse_all(defs, args.deep_view());
        let mut results = all_absent::<N>();
        assert(results.deep_view() =~= start(N as nat, args.deep_view()).found);
        let mut i: usize = 0;
        while i < args.len()
            invariant
                defs == self.defs(),
                defs.len() == N,
                scan(defs, i as int, Scan { tokens: args.deep_view(), found: results.deep_view() })
                    == goal,
            decreases args.len(), args.len() - i,
        {
            let ghost st = Scan { tokens: args.deep_view(), found: results.deep_view() };
            let before = args.len();
            let mut k: usize = 0;
            while k < N
                invariant
                    k <= N,
                    defs == self.defs(),
                    defs.len() == N,
                    st.found.len() == N,
                    i < st.tokens.len(),
                    args.len() <= before == st.tokens.len(),
                    probe(
                        defs,
                        i as int,
                        k as int,
                        Scan { tokens: args.deep_view(), found: results.deep_view() },
                    ) == probe(defs, i as int, 0, st),
                decreases N - k,
            {
                if i < args.len() && results[k].is_none() {
                    let ghost cur = Scan { tokens: args.deep_view(), found: results.deep_view() };
                    let outcome = self[k].parse_value(i, args);
                    proof {
                        lemma_extract_shrinks(defs[k as int], cur.tokens, i as int);
                    }
                    results[k] = outcome;
                    assert(results.deep_view() =~= cur.found.update(k as int, outcome.deep_view()));
                }
                k += 1;
            }
            proof {
                lemma_probe_shrinks(defs, i as int, 0, st);
            }
            if args.len() == before {
                i += 1;
            }
        }
        results
    }
}

/// The tokens of a command line that are still to be recognised.
pub struct Args(Vec<String>);

impl View for Args {
    type V = Seq<Seq<char>>;

    /// The tokens, in their order.
    closed spec fn view(&self) -> Seq<Seq<char>> {
        self.0.deep_view()
    }
}

impl Args {
    /// The arguments made of `tokens`.
    pub fn new(tokens: Vec<String>) -> (args: Args)
        ensures
            args@ == tokens.deep_view(),
    {
        Args(tokens)
    }

    /// The tokens that are left.
    pub fn remaining(&self) -> (tokens: &Vec<String>)
        ensures
            tokens.deep_view() == self@,
    {
        &self.0
    }

    /// Scans the tokens once from left to right for all of `defs`, takes
    /// what belongs to them out, and returns the outcome for each.
    pub fn parse<const N: usize>(&mut self, defs: [&ArgDef<'_, '_>; N]) -> (found: [Option<
        Option<String>,
    >; N])
        ensures
            found.deep_view() == parse_all(specs(defs@), old(self)@).found,
            final(self)@ == parse_all(specs(defs@), old(self)@).tokens,
    {
        defs.parse_from(&mut self.0)
    }
}

} // verus!
