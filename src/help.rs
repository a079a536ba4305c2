//! Whether the help text may use terminal colors.

use vstd::prelude::*;
use vstd::string::*;
use crate::text::text_eq;

verus! {

/// What decides whether output may be colored: whether standard output is a
/// terminal, and the variables `NO_COLOR` and `TERM` where they are set.
pub struct Environment {
    pub is_terminal: bool,
    pub env_no_color: Option<String>,
    pub env_term: Option<String>,
}

/// The value of the first pair from `i` on whose key is `key`.
pub open spec fn lookup_from(pairs: Seq<(&str, &str)>, key: Seq<char>, i: int) -> Option<Seq<char>>
    decreases pairs.len() - i,
{
    if i < 0 || i >= pairs.len() {
        None
    } else if pairs[i].0@ == key {
        Some(pairs[i].1@)
    } else {
        lookup_from(pairs, key, i + 1)
    }
}

/// The value of the first pair whose key is `key`.
pub open spec fn lookup(pairs: Seq<(&str, &str)>, key: Seq<char>) -> Option<Seq<char>> {
    lookup_from(pairs, key, 0)
}

pub open spec fn option_view(o: Option<String>) -> Option<Seq<char>> {
    match o {
        Some(s) => Some(s@),
        None => None,
    }
}

fn find_value(pairs: &Vec<(&str, &str)>, key: &str) -> (r: Option<String>)
    ensures
        option_view(r) == lookup(pairs@, key@),
{
    let mut i: usize = 0;
    while i < pairs.len()
        invariant
            i <= pairs@.len(),
            lookup(pairs@, key@) == lookup_from(pairs@, key@, i as int),
        decreases pairs@.len() - i,
    {
        let (k, v) = pairs[i];
        if text_eq(k, key) {
            return Some(String::from_str(v));
        }
        i = i + 1;
    }
    None
}

impl Environment {
    /// Colors are used on a terminal, unless `NO_COLOR` is set to a
    /// non-empty value or `TERM` is `dumb`.
    pub open spec fn colors_allowed(&self) -> bool {
        &&& self.is_terminal
        &&& match self.env_no_color {
            Some(v) => v@.len() == 0,
            None => true,
        }
        &&& match self.env_term {
            Some(v) => v@ != "dumb"@,
            None => true,
        }
    }

    /// An environment with the given terminal flag whose variables are read
    /// from `env_vars`, the first pair for a name winning.
    pub fn mock(is_terminal: bool, env_vars: &Vec<(&str, &str)>) -> (e: Self)
        ensures
            e.is_terminal == is_terminal,
            option_view(e.env_no_color) == lookup(env_vars@, "NO_COLOR"@),
            option_view(e.env_term) == lookup(env_vars@, "TERM"@),
    {
        Environment {
            is_terminal,
            env_no_color: find_value(env_vars, "NO_COLOR"),
            env_term: find_value(env_vars, "TERM"),
        }
    }

    pub fn supports_color(&self) -> (r: bool)
        ensures
            r == self.colors_allowed(),
    {
        if !self.is_terminal {
            return false;
        }
        let no_color_ok = match &self.env_no_color {
            Some(v) => v.as_str().is_empty(),
            None => true,
        };
        let term_ok = match &self.env_term {
            Some(v) => !text_eq(v.as_str(), "dumb"),
            None => true,
        };
        no_color_ok && term_ok
    }
}

} // verus!
