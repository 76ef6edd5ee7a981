//! The syntax options of an argument definition.

use vstd::prelude::*;
use crate::text::first_char;

verus! {

/// Which spellings an argument definition accepts: how many leading hyphens,
/// and how the value of an option is separated from its name.
///
/// Every facet is independent of the others. When neither hyphen facet is
/// set, the hyphen count follows from the length of the name (see
/// [`ArgOpts::hyphens_for`]).
#[derive(Clone, Copy, Debug, PartialEq, Eq, Hash, Structural)]
pub struct ArgOpts {
    /// One leading hyphen is accepted (`-name`).
    pub single_hyphen: bool,
    /// Two leading hyphens are accepted (`--name`).
    pub double_hyphen: bool,
    /// The value follows the name directly (`-nvalue`).
    pub value_sep_no_space: bool,
    /// The value follows an equals sign (`--name=value`).
    pub value_sep_equals: bool,
    /// The value is the next token (`--name value`).
    pub value_sep_next_arg: bool,
}

/// How the value of an option is delimited, as found in the text that follows
/// the option's name inside a token.
pub enum ValueSep {
    /// The value starts this many characters after the name, in the same token.
    Inline(nat),
    /// The value is the token that follows.
    NextArg,
}

impl ArgOpts {
    /// The options with no facet set.
    pub open spec fn spec_empty() -> ArgOpts {
        ArgOpts {
            single_hyphen: false,
            double_hyphen: false,
            value_sep_no_space: false,
            value_sep_equals: false,
            value_sep_next_arg: false,
        }
    }

    /// The facets set in `self` or in `other`.
    pub open spec fn spec_union(self, other: ArgOpts) -> ArgOpts {
        ArgOpts {
            single_hyphen: self.single_hyphen || other.single_hyphen,
            double_hyphen: self.double_hyphen || other.double_hyphen,
            value_sep_no_space: self.value_sep_no_space || other.value_sep_no_space,
            value_sep_equals: self.value_sep_equals || other.value_sep_equals,
            value_sep_next_arg: self.value_sep_next_arg || other.value_sep_next_arg,
        }
    }

    /// Every facet set in `other` is set in `self`.
    pub open spec fn spec_contains(self, other: ArgOpts) -> bool {
        &&& other.single_hyphen ==> self.single_hyphen
        &&& other.double_hyphen ==> self.double_hyphen
        &&& other.value_sep_no_space ==> self.value_sep_no_space
        &&& other.value_sep_equals ==> self.value_sep_equals
        &&& other.value_sep_next_arg ==> self.value_sep_next_arg
    }

    /// `count` leading hyphens are explicitly allowed by a hyphen facet.
    pub open spec fn spec_is_hyphen_count(self, count: nat) -> bool {
        (count == 1 && self.single_hyphen) || (count == 2 && self.double_hyphen)
    }

    /// The number of hyphens written in front of a name of `name_len`
    /// characters: one if `single_hyphen` is set, else two if `double_hyphen`
    /// is set, else one for a name of a single character and two otherwise.
    pub open spec fn hyphens_for(self, name_len: nat) -> nat {
        if self.single_hyphen {
            1
        } else if self.double_hyphen {
            2
        } else if name_len == 1 {
            1
        } else {
            2
        }
    }

    /// Whether a token with `count` leading hyphens can denote an argument
    /// whose name has `name_len` characters: by the hyphen facets where one is
    /// set, else by the length of the name.
    pub open spec fn accepts_hyphens(self, count: nat, name_len: nat) -> bool {
        if self.single_hyphen || self.double_hyphen {
            self.spec_is_hyphen_count(count)
        } else {
            count == self.hyphens_for(name_len)
        }
    }

    /// The separator that the text `rest`, which follows an option's name in
    /// a token, shows under these options; `None` if it fits no enabled
    /// style. An equals sign is tried first, then the end of the token, then
    /// a value without separator.
    pub open spec fn value_sep(self, rest: Seq<char>) -> Option<ValueSep> {
        if rest.len() > 0 && rest[0] == '=' && self.value_sep_equals {
            Some(ValueSep::Inline(1))
        } else if rest.len() == 0 && self.value_sep_next_arg {
            Some(ValueSep::NextArg)
        } else if self.value_sep_no_space {
            Some(ValueSep::Inline(0))
        } else {
            None
        }
    }

    /// The options with no facet set.
    pub fn empty() -> (r: ArgOpts)
        ensures
            r == ArgOpts::spec_empty(),
    {
        ArgOpts {
            single_hyphen: false,
            double_hyphen: false,
            value_sep_no_space: false,
            value_sep_equals: false,
            value_sep_next_arg: false,
        }
    }

    /// Only `single_hyphen` set.
    pub fn single_hyphen() -> (r: ArgOpts)
        ensures
            r == (ArgOpts { single_hyphen: true, ..ArgOpts::spec_empty() }),
    {
        ArgOpts {
            single_hyphen: true,
            double_hyphen: false,
            value_sep_no_space: false,
            value_sep_equals: false,
            value_sep_next_arg: false,
        }
    }

    /// Only `double_hyphen` set.
    pub fn double_hyphen() -> (r: ArgOpts)
        ensures
            r == (ArgOpts { double_hyphen: true, ..ArgOpts::spec_empty() }),
    {
        ArgOpts {
            single_hyphen: false,
            double_hyphen: true,
            value_sep_no_space: false,
            value_sep_equals: false,
            value_sep_next_arg: false,
        }
    }

    /// Only `value_sep_no_space` set.
    pub fn value_sep_no_space() -> (r: ArgOpts)
        ensures
            r == (ArgOpts { value_sep_no_space: true, ..ArgOpts::spec_empty() }),
    {
        ArgOpts {
            single_hyphen: false,
            double_hyphen: false,
            value_sep_no_space: true,
            value_sep_equals: false,
            value_sep_next_arg: false,
        }
    }

    /// Only `value_sep_equals` set.
    pub fn value_sep_equals() -> (r: ArgOpts)
        ensures
            r == (ArgOpts { value_sep_equals: true, ..ArgOpts::spec_empty() }),
    {
        ArgOpts {
            single_hyphen: false,
            double_hyphen: false,
            value_sep_no_space: false,
            value_sep_equals: true,
            value_sep_next_arg: false,
        }
    }

    /// Only `value_sep_next_arg` set.
    pub fn value_sep_next_arg() -> (r: ArgOpts)
        ensures
            r == (ArgOpts { value_sep_next_arg: true, ..ArgOpts::spec_empty() }),
    {
        ArgOpts {
            single_hyphen: false,
            double_hyphen: false,
            value_sep_no_space: false,
            value_sep_equals: false,
            value_sep_next_arg: true,
        }
    }

    /// Whether no facet is set.
    pub fn is_empty(self) -> (r: bool)
        ensures
            r == (self == ArgOpts::spec_empty()),
    {
        !self.single_hyphen && !self.double_hyphen && !self.value_sep_no_space
            && !self.value_sep_equals && !self.value_sep_next_arg
    }

    /// The facets set in `self` or in `other`.
    pub fn union(self, other: ArgOpts) -> (r: ArgOpts)
        ensures
            r == self.spec_union(other),
    {
        ArgOpts {
            single_hyphen: self.single_hyphen || other.single_hyphen,
            double_hyphen: self.double_hyphen || other.double_hyphen,
            value_sep_no_space: self.value_sep_no_space || other.value_sep_no_space,
            value_sep_equals: self.value_sep_equals || other.value_sep_equals,
            value_sep_next_arg: self.value_sep_next_arg || other.value_sep_next_arg,
        }
    }

    /// Whether every facet set in `other` is set in `self`.
    pub fn contains(self, other: ArgOpts) -> (r: bool)
        ensures
            r == self.spec_contains(other),
    {
        (!other.single_hyphen || self.single_hyphen)
            && (!other.double_hyphen || self.double_hyphen)
            && (!other.value_sep_no_space || self.value_sep_no_space)
            && (!other.value_sep_equals || self.value_sep_equals)
            && (!other.value_sep_next_arg || self.value_sep_next_arg)
    }

    /// Whether `count` leading hyphens are explicitly allowed by a hyphen
    /// facet.
    pub fn is_hyphen_count(self, count: usize) -> (r: bool)
        ensures
            r == self.spec_is_hyphen_count(count as nat),
    {
        (count == 1 && self.single_hyphen) || (count == 2 && self.double_hyphen)
    }

    /// Reads the separator that `s`, the text after an option's name, shows.
    ///
    /// Returns whether it shows one that these options enable, and leaves in
    /// `out_sep_len` the length of a separator inside the token; `None`
    /// there, beside `true`, says that the value is the next token.
    pub fn parse_value_sep(self, s: &str, out_sep_len: &mut Option<usize>) -> (r: bool)
        ensures
            r == self.value_sep(s@) is Some,
            *final(out_sep_len) == (match self.value_sep(s@) {
                Some(ValueSep::Inline(sep)) => Some(sep as usize),
                _ => None,
            }),
    {
        let c = first_char(s);
        let (result, sep_len) = if c == Some('=') && self.value_sep_equals {
            (true, Some(1))
        } else if c.is_none() && self.value_sep_next_arg {
            (true, None)
        } else if self.value_sep_no_space {
            (true, Some(0))
        } else {
            (false, None)
        };
        *out_sep_len = sep_len;
        result
    }
}

impl core::ops::BitOr for ArgOpts {
    type Output = ArgOpts;

    /// The facets set in `self` or in `rhs`.
    fn bitor(self, rhs: ArgOpts) -> (r: ArgOpts) {
        self.union(rhs)
    }
}

impl vstd::std_specs::ops::BitOrSpecImpl for ArgOpts {
    open spec fn obeys_bitor_spec() -> bool {
        true
    }

    open spec fn bitor_req(self, rhs: ArgOpts) -> bool {
        true
    }

    open spec fn bitor_spec(self, rhs: ArgOpts) -> ArgOpts {
        self.spec_union(rhs)
    }
}

} // verus!
