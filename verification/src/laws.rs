//! What holds of rendering and matching, for every definition and every
//! token sequence.

use vstd::prelude::*;
use crate::arg::{Arg, ArgSpec};
use crate::matching::{
    leading_name, lemma_extract_shrinks, occurrences, occurs_nowhere, parse_all, probe, start, Hit,
    Scan,
};
use crate::opts::{ArgOpts, ValueSep};
use crate::remainder::is_remainder;
use crate::scan_lemmas::{
    lemma_no_occurrences, lemma_scan_absent, lemma_scan_keeps, lemma_scan_nothing,
    lemma_scan_passes_by, lemma_scan_settles, lemma_scan_spends, lemma_scan_takes,
};
use crate::text::{hyphen_run, hyphens, lemma_hyphen_run_prepend};

verus! {

/// A token that does not begin with a hyphen is no occurrence of any
/// definition.
pub proof fn lemma_plain_token_is_no_occurrence(def: ArgSpec, token: Seq<char>)
    requires
        hyphen_run(token) == 0,
    ensures
        def.occurrence(token) is None,
{
}

/// A definition that does not accept both hyphen counts is not found in a
/// token that has more hyphens than it is written with. So a definition
/// whose name begins with a hyphen is not found in its own rendering.
pub proof fn lemma_more_hyphens_are_no_occurrence(def: ArgSpec, rest: Seq<char>)
    requires
        !(def.opts.single_hyphen && def.opts.double_hyphen),
        hyphen_run(rest) > 0,
    ensures
        def.occurrence(hyphens(def.hyphen_count()) + rest) is None,
        parse_all(seq![def], seq![hyphens(def.hyphen_count()) + rest]) == (Scan {
            tokens: seq![hyphens(def.hyphen_count()) + rest],
            found: seq![None],
        }),
{
    lemma_hyphen_run_prepend(def.hyphen_count(), rest);
    lemma_parse_single_token(def, hyphens(def.hyphen_count()) + rest);
}

/// A flag is found under each of its names: a scan of one token, made of a
/// number of hyphens that the definition accepts and of its name or one of
/// its aliases, reports the flag as present and leaves no token.
///
/// The name or alias must not begin with a hyphen: its hyphens would count
/// as part of the prefix.
pub proof fn lemma_flag_found_under_each_name(def: ArgSpec, k: int, count: nat)
    requires
        def.kind == Arg::Flag,
        0 <= k < def.names().len(),
        hyphen_run(def.names()[k]) == 0,
        def.accepts_hyphens(count),
    ensures
        def.occurrence(hyphens(count) + def.names()[k]) == Some(Hit::Flag),
        parse_all(seq![def], seq![hyphens(count) + def.names()[k]]) == (Scan {
            tokens: seq![],
            found: seq![Some(None)],
        }),
{
    let name = def.names()[k];
    let token = hyphens(count) + name;
    lemma_hyphen_run_prepend(count, name);
    assert(token.skip(count as int) =~= name);
    lemma_parse_single_token(def, token);
}

/// A flag as it is rendered is found again: a scan of the one token that a
/// flag definition renders to, for that definition, reports the flag as
/// present and leaves no token.
///
/// This holds whatever the syntax options are, so in particular with none
/// set. The name must not begin with a hyphen: its hyphens would count as
/// part of the prefix.
pub proof fn lemma_flag_round_trip(def: ArgSpec)
    requires
        def.kind == Arg::Flag,
        hyphen_run(def.name) == 0,
    ensures
        def.render(None) == seq![def.head()],
        parse_all(seq![def], def.render(None)) == (Scan { tokens: seq![], found: seq![Some(None)] }),
{
    assert(def.names()[0] == def.name);
    lemma_flag_found_under_each_name(def, 0, def.hyphen_count());
}

/// What the head of an option says, with any text behind it: the name is
/// the first that the body begins with, so the text behind it decides.
///
/// The name must have a first character, and that must be no hyphen: a
/// hyphen there would count as part of the prefix.
pub proof fn lemma_option_head_is_read(def: ArgSpec, tail: Seq<char>)
    requires
        def.kind == Arg::Option,
        def.name.len() > 0,
        def.name[0] != '-',
    ensures
        def.occurrence(def.head() + tail) == match def.opts.value_sep(tail) {
            None => None,
            Some(ValueSep::Inline(sep)) => Some(Hit::Value(tail.skip(sep as int))),
            Some(ValueSep::NextArg) => Some(Hit::ValueFollows),
        },
{
    let body = def.name + tail;
    let token = def.head() + tail;
    assert(token =~= hyphens(def.hyphen_count()) + body);
    assert(body[0] == def.name[0]);
    lemma_hyphen_run_prepend(def.hyphen_count(), body);
    assert(token.skip(def.hyphen_count() as int) =~= body);
    assert(def.names()[0] == def.name);
    assert(def.name.is_prefix_of(body)) by {
        assert(def.name =~= body.subrange(0, def.name.len() as int));
    }
    assert(leading_name(def.names(), body, 0) == Some(def.name));
    assert(body.skip(def.name.len() as int) =~= tail);
    assert forall|sep: nat| sep <= tail.len() implies body.skip((def.name.len() + sep) as int)
        == tail.skip(sep as int) by {
        assert(body.skip((def.name.len() + sep) as int) =~= tail.skip(sep as int));
    }
}

/// An option with no separator facet set is found in no token.
pub proof fn lemma_no_separator_no_occurrence(def: ArgSpec, token: Seq<char>)
    requires
        def.kind == Arg::Option,
        !def.opts.value_sep_equals,
        !def.opts.value_sep_no_space,
        !def.opts.value_sep_next_arg,
    ensures
        def.occurrence(token) is None,
{
}

/// Whether an option that is written with `value` under these options shows,
/// when it is read, the separator that it was written with.
///
/// It does with an equals sign. Written without separator it does not if the
/// value is empty and may also be the next token: the name alone is then read
/// as an option whose value follows. Written as two tokens it does if the
/// value may be the next token.
pub open spec fn reads_back(opts: ArgOpts, value: Seq<char>) -> bool {
    if opts.value_sep_equals {
        true
    } else if opts.value_sep_no_space {
        !(opts.value_sep_next_arg && value.len() == 0)
    } else {
        opts.value_sep_next_arg
    }
}

/// An option as it is rendered is found again, with its value and with no
/// token left, if and only if its separator reads back.
///
/// The name must have a first character, and that must be no hyphen.
pub proof fn lemma_option_round_trip(def: ArgSpec, value: Seq<char>)
    requires
        def.kind == Arg::Option,
        def.name.len() > 0,
        def.name[0] != '-',
    ensures
        parse_all(seq![def], def.render(Some(value))) == (Scan {
            tokens: seq![],
            found: seq![Some(Some(value))],
        }) <==> reads_back(def.opts, value),
{
    let defs = seq![def];
    let back = Scan { tokens: seq![], found: seq![Some(Some(value))] };
    let end = parse_all(defs, def.render(Some(value)));
    if def.opts.value_sep_equals {
        let tail = seq!['='] + value;
        lemma_option_head_is_read(def, tail);
        assert(def.head() + seq!['='] + value =~= def.head() + tail);
        assert(tail.skip(1) =~= value);
        lemma_parse_single_token(def, def.head() + tail);
    } else if def.opts.value_sep_no_space {
        lemma_option_head_is_read(def, value);
        assert(value.skip(0) =~= value);
        lemma_parse_single_token(def, def.head() + value);
        if !reads_back(def.opts, value) {
            assert(end.found[0] != back.found[0]);
        }
    } else {
        let tokens = seq![def.head(), value];
        if def.opts.value_sep_next_arg {
            lemma_option_head_is_read(def, seq![]);
            assert(def.head() + Seq::<char>::empty() =~= def.head());
            lemma_parse_for_one_definition(def, tokens, 0);
            assert(tokens.remove(0).remove(0) =~= seq![]);
        } else {
            assert forall|n: int| 0 <= n < defs.len() implies occurs_nowhere(
                #[trigger] defs[n],
                tokens,
            ) by {
                assert forall|j: int| 0 <= j < tokens.len() implies (#[trigger] def.occurrence(
                    tokens[j],
                )) is None by {
                    lemma_no_separator_no_occurrence(def, tokens[j]);
                }
            }
            lemma_nothing_found_nothing_taken(defs, tokens);
            assert(end.tokens.len() != back.tokens.len());
        }
    }
}

/// An option as it is rendered with an equals sign is found again: a scan
/// of the one token `head=value`, for the definition that rendered it,
/// reports `value` and leaves no token.
///
/// The name must not begin with a hyphen: its hyphens would count as part
/// of the prefix.
pub proof fn lemma_option_equals_round_trip(def: ArgSpec, value: Seq<char>)
    requires
        def.kind == Arg::Option,
        def.opts.value_sep_equals,
        hyphen_run(def.name) == 0,
    ensures
        def.render(Some(value)) == seq![def.head() + seq!['='] + value],
        parse_all(seq![def], def.render(Some(value))) == (Scan {
            tokens: seq![],
            found: seq![Some(Some(value))],
        }),
{
    if def.name.len() > 0 {
        lemma_option_round_trip(def, value);
    } else {
        let body = seq!['='] + value;
        let token = def.head() + seq!['='] + value;
        assert(token =~= hyphens(def.hyphen_count()) + body);
        assert(body[0] == '=');
        lemma_hyphen_run_prepend(def.hyphen_count(), body);
        assert(token.skip(def.hyphen_count() as int) =~= body);
        assert(def.names()[0] == def.name);
        assert(def.name.is_prefix_of(body));
        assert(leading_name(def.names(), body, 0) == Some(def.name));
        assert(body.skip(0) =~= body);
        assert(body.skip(1) =~= value);
        lemma_parse_single_token(def, token);
    }
}

/// A scan for one definition is one extraction, at the first token that is
/// an occurrence of the definition: the tokens in front of it and behind what
/// is taken out stay as they are.
pub proof fn lemma_parse_for_one_definition(def: ArgSpec, tokens: Seq<Seq<char>>, j: int)
    requires
        0 <= j < tokens.len(),
        def.occurrence(tokens[j]) is Some,
        forall|l: int| 0 <= l < j ==> (#[trigger] def.occurrence(tokens[l])) is None,
    ensures
        parse_all(seq![def], tokens) == (Scan {
            tokens: def.extract(tokens, j).1,
            found: seq![def.extract(tokens, j).0],
        }),
{
    let defs = seq![def];
    let st = start(1, tokens);
    let (found, rest) = def.extract(tokens, j);
    let next = Scan { tokens: rest, found: st.found.update(0, found) };
    lemma_scan_passes_by(defs, 0, j, st);
    lemma_extract_shrinks(def, tokens, j);
    assert(probe(defs, j, 0, st) == next) by {
        reveal_with_fuel(probe, 2);
    }
    lemma_scan_nothing(defs, j, next);
    assert(next.found =~= seq![found]);
}

/// A scan of one token for one definition takes the token out if it is an
/// occurrence of the definition, and leaves it if not.
pub proof fn lemma_parse_single_token(def: ArgSpec, token: Seq<char>)
    ensures
        parse_all(seq![def], seq![token]) == match def.occurrence(token) {
            None => Scan { tokens: seq![token], found: seq![None] },
            Some(Hit::Flag) => Scan { tokens: seq![], found: seq![Some(None)] },
            Some(Hit::Value(value)) => Scan { tokens: seq![], found: seq![Some(Some(value))] },
            Some(Hit::ValueFollows) => Scan { tokens: seq![], found: seq![Some(None)] },
        },
{
    let defs = seq![def];
    let tokens = seq![token];
    if def.occurrence(token) is None {
        assert(occurs_nowhere(defs[0], tokens));
        lemma_nothing_found_nothing_taken(defs, tokens);
        assert(start(1, tokens).found =~= seq![None]);
    } else {
        lemma_parse_for_one_definition(def, tokens, 0);
        assert(tokens.remove(0) =~= seq![]);
    }
}

/// The tokens that a scan leaves are the tokens it was given with some
/// taken out: none is added, none stands twice, none has changed its place
/// among the others. There is one outcome for each definition.
pub proof fn lemma_leftover_is_remainder(defs: Seq<ArgSpec>, tokens: Seq<Seq<char>>)
    ensures
        parse_all(defs, tokens).found.len() == defs.len(),
        is_remainder(parse_all(defs, tokens).tokens, tokens),
{
    lemma_scan_keeps(defs, 0, start(defs.len(), tokens));
}

/// A definition of which no token is an occurrence is reported absent.
pub proof fn lemma_absent_where_nowhere(defs: Seq<ArgSpec>, tokens: Seq<Seq<char>>, n: int)
    requires
        0 <= n < defs.len(),
        occurs_nowhere(defs[n], tokens),
    ensures
        parse_all(defs, tokens).found[n] is None,
{
    lemma_scan_absent(defs, 0, start(defs.len(), tokens), n);
}

/// Where no token is an occurrence of any of the definitions, every one of
/// them is reported absent and the tokens are left as they were.
pub proof fn lemma_nothing_found_nothing_taken(defs: Seq<ArgSpec>, tokens: Seq<Seq<char>>)
    requires
        forall|n: int| 0 <= n < defs.len() ==> occurs_nowhere(#[trigger] defs[n], tokens),
    ensures
        parse_all(defs, tokens) == start(defs.len(), tokens),
{
    let st = start(defs.len(), tokens);
    assert forall|n: int, j: int|
        0 <= n < defs.len() && 0 <= j < st.tokens.len() && st.found[n] is None implies (
    #[trigger] defs[n].occurrence(st.tokens[j])) is None by {
        assert(occurs_nowhere(defs[n], tokens));
    }
    lemma_scan_nothing(defs, 0, st);
}

/// Where a token is an occurrence of one of the definitions, the scan takes
/// a token out.
pub proof fn lemma_occurrence_is_taken(
    defs: Seq<ArgSpec>,
    tokens: Seq<Seq<char>>,
    n: int,
    j: int,
)
    requires
        0 <= n < defs.len(),
        0 <= j < tokens.len(),
        defs[n].occurrence(tokens[j]) is Some,
    ensures
        parse_all(defs, tokens).tokens.len() < tokens.len(),
{
    lemma_scan_takes(defs, 0, start(defs.len(), tokens), j, n);
}

/// No token that a scan leaves is an occurrence of a definition that the
/// scan reports absent.
pub proof fn lemma_leftover_is_settled(defs: Seq<ArgSpec>, tokens: Seq<Seq<char>>)
    ensures
        forall|n: int|
            0 <= n < defs.len() && (#[trigger] parse_all(defs, tokens).found[n]) is None
                ==> occurs_nowhere(defs[n], parse_all(defs, tokens).tokens),
{
    let end = parse_all(defs, tokens);
    lemma_scan_settles(defs, 0, start(defs.len(), tokens));
    assert forall|n: int| 0 <= n < defs.len() && (#[trigger] end.found[n]) is None implies occurs_nowhere(
        defs[n],
        end.tokens,
    ) by {
        assert forall|j: int| 0 <= j < end.tokens.len() implies (#[trigger] defs[n].occurrence(
            end.tokens[j],
        )) is None by {}
    }
}

/// A definition that a scan reports as found has fewer occurrences among
/// the tokens that are left than among the tokens that were given: the scan
/// took one of them out.
pub proof fn lemma_found_spends_an_occurrence(
    defs: Seq<ArgSpec>,
    tokens: Seq<Seq<char>>,
    n: int,
)
    requires
        0 <= n < defs.len(),
        parse_all(defs, tokens).found[n] is Some,
    ensures
        occurrences(defs[n], parse_all(defs, tokens).tokens) < occurrences(defs[n], tokens),
{
    lemma_scan_spends(defs, 0, start(defs.len(), tokens), tokens);
}

/// A second scan of what the first one left, for the same definitions,
/// reports every definition absent and leaves the tokens as they were.
///
/// A definition that the first scan found is not looked for again in that
/// scan, so a further occurrence of it is left among the tokens, and a
/// second scan takes it (`lemma_occurrence_is_taken`). The law is therefore
/// stated for the first scans that leave no token which is an occurrence of
/// a definition they found.
pub proof fn lemma_second_scan_is_idle(defs: Seq<ArgSpec>, tokens: Seq<Seq<char>>)
    requires
        forall|n: int|
            0 <= n < defs.len() && (#[trigger] parse_all(defs, tokens).found[n]) is Some
                ==> occurs_nowhere(defs[n], parse_all(defs, tokens).tokens),
    ensures
        parse_all(defs, parse_all(defs, tokens).tokens) == start(
            defs.len(),
            parse_all(defs, tokens).tokens,
        ),
{
    let first = parse_all(defs, tokens);
    lemma_leftover_is_settled(defs, tokens);
    assert forall|n: int| 0 <= n < defs.len() implies occurs_nowhere(
        #[trigger] defs[n],
        first.tokens,
    ) by {
        if first.found[n] is Some {
        }
    }
    lemma_nothing_found_nothing_taken(defs, first.tokens);
}

/// Where no definition has more than one occurrence among the tokens, a
/// second scan of what the first one left, for the same definitions,
/// reports every definition absent and leaves the tokens as they were.
pub proof fn lemma_second_scan_is_idle_without_repeats(
    defs: Seq<ArgSpec>,
    tokens: Seq<Seq<char>>,
)
    requires
        forall|n: int| 0 <= n < defs.len() ==> occurrences(#[trigger] defs[n], tokens) <= 1,
    ensures
        parse_all(defs, parse_all(defs, tokens).tokens) == start(
            defs.len(),
            parse_all(defs, tokens).tokens,
        ),
{
    let first = parse_all(defs, tokens);
    assert forall|n: int| 0 <= n < defs.len() && (#[trigger] first.found[n]) is Some implies occurs_nowhere(
        defs[n],
        first.tokens,
    ) by {
        lemma_found_spends_an_occurrence(defs, tokens, n);
        lemma_no_occurrences(defs[n], first.tokens);
    }
    lemma_second_scan_is_idle(defs, tokens);
}

} // verus!
