//! Searching entries across a distribution.
use vstd::prelude::*;
use crate::idb::Entry;
use crate::text::{append_str, chars_of, contains_char, push_char, string_of};
use crate::wildcard::{glob, wildcard_match};

verus! {

/// A search query.
///
/// Supports shell-style wildcard matching against normalized entry
/// paths. [`Query::path`] takes an explicit wildcard pattern;
/// [`Query::path_search`] applies the shared user-input policy (plain
/// text is a substring search) that both frontends use.
#[derive(Debug, Clone)]
pub struct Query {
    path_pattern: Option<String>,
}

/// An error produced when turning user search input into a [`Query`].
#[derive(Debug, Clone, Copy, PartialEq, Eq, Structural)]
pub enum QueryError {
    /// The search input was empty: an empty search is never a
    /// "match everything" search.
    Empty,
}

impl QueryError {
    /// The error's text, as it is reported to users.
    pub fn to_string(&self) -> (r: String)
        ensures
            r@ == "search query is empty"@,
    {
        string_of(&chars_of("search query is empty"))
    }
}

/// Whether an entry path matches an optional pattern: every path
/// matches the absent pattern.
pub open spec fn query_matches(pattern: Option<Seq<char>>, path: Seq<char>) -> bool {
    match pattern {
        Some(p) => glob(p, path),
        None => true,
    }
}

/// The pattern user search input becomes: input holding `*` or `?` is
/// used unchanged, other input is searched as a substring.
pub open spec fn search_pattern(input: Seq<char>) -> Seq<char> {
    if input.contains('*') || input.contains('?') {
        input
    } else {
        seq!['*'] + input + seq!['*']
    }
}

impl Default for Query {
    fn default() -> (r: Self)
        ensures
            r.pattern_spec() is None,
    {
        Query { path_pattern: None }
    }
}

impl Query {
    /// The pattern of the query, if any.
    pub closed spec fn pattern_spec(&self) -> Option<Seq<char>> {
        match self.path_pattern {
            Some(p) => Some(p@),
            None => None,
        }
    }

    /// A query matching entry paths against a wildcard pattern, e.g.
    /// `Query::path("*ge7.bin")`. The pattern is used exactly as given.
    pub fn path(pattern: &str) -> (r: Self)
        ensures
            r.pattern_spec() == Some(pattern@),
    {
        Query { path_pattern: Some(string_of(&chars_of(pattern))) }
    }

    /// The wildcard pattern of the query, if it has one.
    pub fn pattern(&self) -> (r: Option<&str>)
        ensures
            match r {
                Some(p) => self.pattern_spec() == Some(p@),
                None => self.pattern_spec() is None,
            },
    {
        match &self.path_pattern {
            Some(p) => Some(p.as_str()),
            None => None,
        }
    }

    /// Builds a query from user search input.
    ///
    /// The shared search policy every frontend uses: plain text matches
    /// any path containing it (`libGL` becomes `*libGL*`), while input
    /// carrying its own `*` or `?` is handed to the wildcard matcher
    /// unchanged (`usr/lib/*.so` stays `usr/lib/*.so`).
    ///
    /// # Errors
    ///
    /// Returns [`QueryError::Empty`] for empty input; an empty search is
    /// never a "match everything" search.
    pub fn path_search(input: &str) -> (r: Result<Self, QueryError>)
        ensures
            input@.len() == 0 <==> r == Err::<Self, QueryError>(QueryError::Empty),
            input@.len() > 0 ==> (r matches Ok(q) && q.pattern_spec() == Some(search_pattern(input@))),
    {
        let v = chars_of(input);
        if v.len() == 0 {
            return Err(QueryError::Empty);
        }
        if contains_char(&v, '*') || contains_char(&v, '?') {
            Ok(Query::path(input))
        } else {
            let mut p = String::new();
            push_char(&mut p, '*');
            append_str(&mut p, input);
            push_char(&mut p, '*');
            assert(p@ =~= seq!['*'] + input@ + seq!['*']);
            Ok(Query { path_pattern: Some(p) })
        }
    }

    /// Whether an entry matches this query.
    pub fn matches(&self, entry: &Entry) -> (r: bool)
        ensures
            r == query_matches(self.pattern_spec(), entry.path@),
    {
        match &self.path_pattern {
            Some(pattern) => wildcard_match(pattern.as_str(), entry.path.as_str()),
            None => true,
        }
    }
}

/// A plain-text search matches exactly the paths that contain the text.
pub proof fn lemma_plain_search_is_substring(input: Seq<char>, path: Seq<char>)
    requires
        input.len() > 0,
        !input.contains('*'),
        !input.contains('?'),
    ensures
        glob(search_pattern(input), path) <==> exists|a: int| 0 <= a && a + input.len() <= path.len()
            && #[trigger] path.subrange(a, a + input.len()) == input,
{
    crate::wildcard::lemma_star_literal_star(input, path);
}

} // verus!
