//! Regular expressions as the rule engine sees them.
//!
//! Patterns are compiled and run by the `regex` crate. Nothing about the
//! expression language itself is proved here: what compiling reports and
//! whether a compiled expression matches are named results of that crate,
//! and everything else in the library is stated over those names.
use vstd::prelude::*;
use regex::Regex;

verus! {

/// `regex::Regex`, a compiled expression. The proofs see nothing inside it
/// but the pattern it was compiled from.
#[verifier::external_type_specification]
#[verifier::external_body]
pub struct ExRegex(regex::Regex);

/// The pattern text that a compiled expression was built from, as
/// `regex::Regex::as_str` reports it.
pub uninterp spec fn regex_source(re: Regex) -> Seq<char>;

/// What `regex::Regex::new` reports on a pattern: `None` where the pattern
/// compiles, otherwise the text of the engine's error.
pub uninterp spec fn regex_compile_error(pattern: Seq<char>) -> Option<Seq<char>>;

/// Whether `regex::Regex::is_match` finds a match of the pattern somewhere
/// in the haystack.
pub uninterp spec fn regex_matches(pattern: Seq<char>, haystack: Seq<char>) -> bool;

/// Calls `regex::Regex::new`. Trusted: the call succeeds exactly on the
/// patterns without a compile error, the expression it returns remembers the
/// pattern it was given, and a failure carries the engine's error as text.
#[verifier::external_body]
fn compile_regex(pattern: &str) -> (r: Result<Regex, String>)
    ensures
        match r {
            Ok(re) => regex_compile_error(pattern@) is None && regex_source(re) == pattern@,
            Err(message) => regex_compile_error(pattern@) == Some(message@),
        },
{
    Regex::new(pattern).map_err(|error| error.to_string())
}

/// Calls `regex::Regex::is_match`. Trusted: the answer depends only on the
/// pattern the expression was compiled from and on the haystack.
#[verifier::external_body]
fn regex_is_match(re: &Regex, haystack: &str) -> (found: bool)
    ensures
        found == regex_matches(regex_source(*re), haystack@),
{
    re.is_match(haystack)
}

/// Calls `Clone::clone` of `regex::Regex`. Trusted: the copy was compiled
/// from the same pattern.
#[verifier::external_body]
fn clone_regex(re: &Regex) -> (copy: Regex)
    ensures
        regex_source(copy) == regex_source(*re),
{
    re.clone()
}

/// Where in a text a pattern has to match.
#[derive(Clone, Copy, Debug, PartialEq, Eq, Structural)]
pub enum Anchor {
    /// The match ends where the text ends: the text before a position.
    End,
    /// The match starts where the text starts: the text after a position.
    Start,
    /// The match covers the whole text, letter case ignored: a language code.
    Whole,
}

/// The expression handed to the engine for a pattern under an anchor.
///
/// The pattern is wrapped in a non-capturing group and pinned to the start
/// or the end of the haystack, or to both.
pub open spec fn translated(pattern: Seq<char>, anchor: Anchor) -> Seq<char> {
    match anchor {
        Anchor::End => "(?:"@ + pattern + ")\\z"@,
        Anchor::Start => "\\A(?:"@ + pattern + ")"@,
        Anchor::Whole => "(?i)\\A(?:"@ + pattern + ")\\z"@,
    }
}

/// Why a pattern cannot be used under an anchor, if it cannot.
///
/// A pattern is usable when it compiles by itself and still compiles once
/// it is anchored; the first failure is the one reported.
pub open spec fn pattern_error(pattern: Seq<char>, anchor: Anchor) -> Option<Seq<char>> {
    match regex_compile_error(pattern) {
        Some(message) => Some(message),
        None => regex_compile_error(translated(pattern, anchor)),
    }
}

/// Whether a usable pattern matches a text under an anchor.
pub open spec fn pattern_matches(pattern: Seq<char>, anchor: Anchor, text: Seq<char>) -> bool {
    regex_matches(translated(pattern, anchor), text)
}

/// Puts a pattern into the engine's dialect for the given anchor.
pub fn translate(pattern: &str, anchor: Anchor) -> (r: String)
    ensures
        r@ == translated(pattern@, anchor),
{
    match anchor {
        Anchor::End => String::from_str("(?:").concat(pattern).concat(")\\z"),
        Anchor::Start => String::from_str("\\A(?:").concat(pattern).concat(")"),
        Anchor::Whole => String::from_str("(?i)\\A(?:").concat(pattern).concat(")\\z"),
    }
}

/// What a matcher stands for: its pattern and where the pattern must match.
pub struct MatcherView {
    pub pattern: Seq<char>,
    pub anchor: Anchor,
}

/// A pattern compiled for one anchor.
pub struct Matcher {
    source: String,
    anchor: Anchor,
    engine: Regex,
}

impl View for Matcher {
    type V = MatcherView;

    closed spec fn view(&self) -> MatcherView {
        MatcherView { pattern: self.source@, anchor: self.anchor }
    }
}

impl Matcher {
    #[verifier::type_invariant]
    spec fn compiled_from_source(self) -> bool {
        regex_source(self.engine) == translated(self.source@, self.anchor)
    }

    /// Compiles a pattern for an anchor, or reports why it cannot be used.
    pub fn new(pattern: &str, anchor: Anchor) -> (r: Result<Matcher, String>)
        ensures
            match r {
                Ok(matcher) => pattern_error(pattern@, anchor) is None
                    && matcher@.pattern == pattern@ && matcher@.anchor == anchor,
                Err(message) => pattern_error(pattern@, anchor) == Some(message@),
            },
    {
        match compile_regex(pattern) {
            Err(message) => Err(message),
            Ok(_) => {
                let anchored = translate(pattern, anchor);
                match compile_regex(anchored.as_str()) {
                    Err(message) => Err(message),
                    Ok(engine) => Ok(Matcher { source: String::from_str(pattern), anchor, engine }),
                }
            },
        }
    }

    /// The pattern as it was given.
    pub fn pattern(&self) -> (r: &str)
        ensures
            r@ == self@.pattern,
    {
        self.source.as_str()
    }

    /// Where the pattern has to match.
    pub fn anchor(&self) -> (r: Anchor)
        ensures
            r == self@.anchor,
    {
        self.anchor
    }

    /// Whether the pattern matches the text under this matcher's anchor.
    pub fn accepts(&self, text: &str) -> (r: bool)
        ensures
            r == pattern_matches(self@.pattern, self@.anchor, text@),
    {
        proof {
            use_type_invariant(self);
        }
        regex_is_match(&self.engine, text)
    }
}

impl Clone for Matcher {
    fn clone(&self) -> (r: Matcher)
        ensures
            r@ == self@,
    {
        proof {
            use_type_invariant(self);
        }
        Matcher {
            source: self.source.clone(),
            anchor: self.anchor,
            engine: clone_regex(&self.engine),
        }
    }
}

} // verus!
