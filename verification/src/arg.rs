//! Argument definitions and their rendering into tokens.

use vstd::prelude::*;
use vstd::string::StringExecFns;
use crate::opts::ArgOpts;
use crate::text::hyphens;

verus! {

/// The kind of an argument.
#[derive(Debug, Clone, Copy, PartialEq, Eq, Hash, Structural)]
pub enum Arg {
    /// A flag with a name (`-n` or `--name`): present or absent.
    Flag,
    /// An option with a name and a value (`--name=value`, `--name value`,
    /// `-nvalue`, ...).
    Option,
}

/// The definition of one argument: its kind, its name, further names under
/// which it is recognised, and its syntax options.
///
/// A name is meant to be non-empty, and the name and the aliases to differ
/// from each other. Neither is checked: every definition can be rendered and
/// matched, the name is tried before the aliases, and the aliases in their
/// order.
#[derive(Clone, Debug, PartialEq, Eq, Hash)]
pub struct ArgDef<'s, 'a> {
    /// Flag or option.
    pub arg: Arg,
    /// The name that the definition is written with.
    pub name: &'s str,
    /// Further names under which it is recognised.
    pub alias: &'a [&'a str],
    /// The spellings that are accepted.
    pub opts: ArgOpts,
}

/// What an argument definition says, with its texts as sequences of
/// characters.
pub struct ArgSpec {
    /// Flag or option.
    pub kind: Arg,
    /// The name that the definition is written with.
    pub name: Seq<char>,
    /// Further names under which it is recognised.
    pub alias: Seq<Seq<char>>,
    /// The spellings that are accepted.
    pub opts: ArgOpts,
}

/// The texts of `names`, in their order.
pub open spec fn texts(names: Seq<&str>) -> Seq<Seq<char>> {
    Seq::new(names.len(), |k: int| names[k]@)
}

impl View for ArgDef<'_, '_> {
    type V = ArgSpec;

    open spec fn view(&self) -> ArgSpec {
        ArgSpec { kind: self.arg, name: self.name@, alias: texts(self.alias@), opts: self.opts }
    }
}

impl ArgSpec {
    /// The name, then the aliases in their order.
    pub open spec fn names(self) -> Seq<Seq<char>> {
        seq![self.name] + self.alias
    }

    /// The number of hyphens that this definition is written with.
    pub open spec fn hyphen_count(self) -> nat {
        self.opts.hyphens_for(self.name.len())
    }

    /// The hyphens and the name: the token of a flag, and the start of the
    /// first token of an option.
    pub open spec fn head(self) -> Seq<char> {
        hyphens(self.hyphen_count()) + self.name
    }

    /// The tokens that this definition is written as, an option with `value`.
    ///
    /// A flag is its head alone. An option is one token, `head=value`, if
    /// `value_sep_equals` is set; else one token, `headvalue`, if
    /// `value_sep_no_space` is set; else two tokens, the head and the value.
    pub open spec fn render(self, value: Option<Seq<char>>) -> Seq<Seq<char>>
        recommends
            self.kind == Arg::Option ==> value is Some,
    {
        match self.kind {
            Arg::Flag => seq![self.head()],
            Arg::Option => {
                if self.opts.value_sep_equals {
                    seq![self.head() + seq!['='] + value.unwrap()]
                } else if self.opts.value_sep_no_space {
                    seq![self.head() + value.unwrap()]
                } else {
                    seq![self.head(), value.unwrap()]
                }
            },
        }
    }
}

impl Arg {
    /// A flag definition with `name`, no alias and no syntax option set.
    pub fn flag(name: &str) -> (def: ArgDef<'_, 'static>)
        ensures
            def@ == Arg::Flag.spec_with_name(name@),
    {
        Arg::Flag.with_name(name)
    }

    /// An option definition with `name`, no alias and no syntax option set.
    pub fn option(name: &str) -> (def: ArgDef<'_, 'static>)
        ensures
            def@ == Arg::Option.spec_with_name(name@),
    {
        Arg::Option.with_name(name)
    }

    /// A definition of this kind with `name`, no alias and no syntax option
    /// set.
    pub fn with_name<'a>(self, name: &'a str) -> (def: ArgDef<'a, 'static>)
        ensures
            def@ == self.spec_with_name(name@),
    {
        let def = ArgDef { arg: self, name, alias: &[], opts: ArgOpts::empty() };
        assert(def@.alias =~= Seq::empty());
        def
    }

    /// The definition of this kind with `name`, no alias and no syntax option
    /// set.
    pub open spec fn spec_with_name(self, name: Seq<char>) -> ArgSpec {
        ArgSpec { kind: self, name, alias: Seq::empty(), opts: ArgOpts::spec_empty() }
    }
}

impl<'s, 'a> ArgDef<'s, 'a> {
    /// This definition with `alias` as its aliases.
    pub fn with_alias<'b>(self, alias: &'b [&'b str]) -> (def: ArgDef<'s, 'b>)
        ensures
            def@ == (ArgSpec { alias: texts(alias@), ..self@ }),
    {
        ArgDef { alias, arg: self.arg, name: self.name, opts: self.opts }
    }

    /// This definition with `opts` as its syntax options.
    pub fn with_opts(self, opts: ArgOpts) -> (def: ArgDef<'s, 'a>)
        ensures
            def@ == (ArgSpec { opts, ..self@ }),
    {
        ArgDef { alias: self.alias, arg: self.arg, name: self.name, opts }
    }

    /// The hyphens and the name.
    fn head(&self) -> (head: String)
        ensures
            head@ == self@.head(),
    {
        let two = !self.opts.single_hyphen && (self.opts.double_hyphen || self.name.unicode_len()
            != 1);
        let mut head = String::from_str("-");
        if two {
            head.append("-");
        }
        head.append(self.name);
        proof {
            reveal_strlit("-");
            assert("-"@ =~= hyphens(1));
            assert("-"@ + "-"@ =~= hyphens(2));
        }
        head
    }

    /// Writes this definition, and `value` if it is an option, as tokens.
    ///
    /// The `value` of a flag is ignored.
    pub fn format(&self, value: Option<&str>) -> (out: FormattedArg)
        requires
            self.arg == Arg::Option ==> value is Some,
        ensures
            out@ == self@.render(value.deep_view()),
    {
        let mut head = self.head();
        match self.arg {
            Arg::Flag => FormattedArg::One(head),
            Arg::Option => {
                let value = value.unwrap();
                if self.opts.value_sep_equals {
                    head.append("=");
                    head.append(value);
                    proof {
                        reveal_strlit("=");
                        assert("="@ =~= seq!['=']);
                    }
                    FormattedArg::One(head)
                } else if self.opts.value_sep_no_space {
                    head.append(value);
                    FormattedArg::One(head)
                } else {
                    FormattedArg::Two(head, String::from_str(value))
                }
            },
        }
    }
}

/// The tokens that a definition and a value are written as: none, one or
/// two.
#[derive(Clone, Debug, PartialEq, Eq, PartialOrd, Ord, Hash)]
pub enum FormattedArg {
    /// No token is left.
    Zero,
    /// One token.
    One(String),
    /// Two tokens, to be handed out in this order.
    Two(String, String),
}

impl View for FormattedArg {
    type V = Seq<Seq<char>>;

    /// The tokens still to be handed out, in their order.
    open spec fn view(&self) -> Seq<Seq<char>> {
        match self {
            FormattedArg::Zero => seq![],
            FormattedArg::One(first) => seq![first@],
            FormattedArg::Two(first, second) => seq![first@, second@],
        }
    }
}

impl FormattedArg {
    /// The remaining tokens written one after the other, with nothing
    /// between them.
    pub open spec fn text(&self) -> Seq<char> {
        match self {
            FormattedArg::Zero => seq![],
            FormattedArg::One(first) => first@,
            FormattedArg::Two(first, second) => first@ + second@,
        }
    }

    /// Hands out the next token, if one is left.
    pub fn next(&mut self) -> (token: Option<String>)
        ensures
            token.deep_view() == (if old(self)@.len() > 0 {
                Some(old(self)@[0])
            } else {
                None
            }),
            final(self)@ == (if old(self)@.len() > 0 {
                old(self)@.drop_first()
            } else {
                old(self)@
            }),
    {
        let mut current = FormattedArg::Zero;
        core::mem::swap(self, &mut current);
        match current {
            FormattedArg::Two(first, second) => {
                *self = FormattedArg::One(second);
                assert(seq![first@, second@].drop_first() =~= seq![second@]);
                Some(first)
            },
            FormattedArg::One(first) => {
                assert(seq![first@].drop_first() =~= Seq::<Seq<char>>::empty());
                Some(first)
            },
            FormattedArg::Zero => None,
        }
    }

    /// The remaining tokens as one text, with nothing between them.
    pub fn to_string(&self) -> (s: String)
        ensures
            s@ == self.text(),
    {
        match self {
            FormattedArg::Two(first, second) => {
                let mut s = first.clone();
                s.append(second.as_str());
                s
            },
            FormattedArg::One(first) => first.clone(),
            FormattedArg::Zero => String::new(),
        }
    }
}

} // verus!
