//! The configuration of an analysis and the predicate that it defines on
//! normalized tokens.

use vstd::prelude::*;

verus! {

/// Two independent, optional constraints on the tokens that are counted.
/// An absent constraint admits every token.
#[derive(Clone, Copy, Debug)]
pub struct Configuration {
    /// The least number of characters that a token may have.
    pub min_length: Option<usize>,
    /// The character that a token must begin with.
    pub start_prefix: Option<char>,
}

impl Configuration {
    /// Whether the configuration admits `token`: it is long enough, where a
    /// minimum length is set, and begins with the prefix, where one is set.
    /// Length is counted in characters.
    pub open spec fn admits(&self, token: Seq<char>) -> bool {
        &&& match self.min_length {
            Some(n) => token.len() >= n,
            None => true,
        }
        &&& match self.start_prefix {
            Some(c) => token.len() > 0 && token[0] == c,
            None => true,
        }
    }

    /// A configuration with the given constraints.
    pub fn new(min_length: Option<usize>, start_prefix: Option<char>) -> (config: Self)
        ensures
            config.min_length == min_length,
            config.start_prefix == start_prefix,
    {
        Configuration { min_length, start_prefix }
    }

    /// The configuration that admits every token.
    pub fn unconstrained() -> (config: Self)
        ensures
            config.min_length is None,
            config.start_prefix is None,
            forall|token: Seq<char>| config.admits(token),
    {
        Configuration { min_length: None, start_prefix: None }
    }

    /// Decides whether a token is counted.
    pub fn accepts(&self, token: &Vec<char>) -> (accepted: bool)
        ensures
            accepted == self.admits(token@),
    {
        let long_enough = match self.min_length {
            Some(n) => token.len() >= n,
            None => true,
        };
        let starts_right = match self.start_prefix {
            Some(c) => token.len() > 0 && token[0] == c,
            None => true,
        };
        long_enough && starts_right
    }
}

} // verus!
