//! Rules that select a bucket policy by metric name.

use vstd::prelude::*;

use crate::text::{spec_ends_with, spec_starts_with, str_ends_with, str_eq, str_starts_with};

verus! {

/// Matches a metric name in a specific way.
///
/// Used for specifying overrides for buckets, allowing a default set of
/// histogram buckets to be specified while adjusting the buckets that
/// get used for specific metrics.
#[derive(Clone, Debug, Eq, Hash, PartialEq)]
pub enum Matcher {
    /// Matches the entire metric name.
    Full(String),
    /// Matches the beginning of the metric name.
    Prefix(String),
    /// Matches the end of the metric name.
    Suffix(String),
}

impl Matcher {
    /// The names this matcher accepts.
    pub open spec fn spec_matches(&self, key: Seq<char>) -> bool {
        match self {
            Matcher::Full(full) => key == full@,
            Matcher::Prefix(prefix) => spec_starts_with(key, prefix@),
            Matcher::Suffix(suffix) => spec_ends_with(key, suffix@),
        }
    }

    /// Checks if the given key matches this matcher.
    pub fn matches(&self, key: &str) -> (r: bool)
        ensures
            r == self.spec_matches(key@),
    {
        match self {
            Matcher::Prefix(prefix) => str_starts_with(key, prefix.as_str()),
            Matcher::Suffix(suffix) => str_ends_with(key, suffix.as_str()),
            Matcher::Full(full) => str_eq(key, full.as_str()),
        }
    }

    /// Copies this matcher; the copy accepts the same names.
    pub fn clone_matcher(&self) -> (r: Matcher)
        ensures
            forall|key: Seq<char>| r.spec_matches(key) == self.spec_matches(key),
    {
        match self {
            Matcher::Full(s) => Matcher::Full(s.clone()),
            Matcher::Prefix(s) => Matcher::Prefix(s.clone()),
            Matcher::Suffix(s) => Matcher::Suffix(s.clone()),
        }
    }
}

} // verus!
