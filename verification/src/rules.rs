//! Break and no-break rules, and the ordered list of them that applies to
//! one language.
use vstd::prelude::*;
use crate::pattern::{pattern_error, pattern_matches, Anchor, Matcher};

verus! {

/// What a rule says: the pattern that must match right before a position,
/// the pattern that must match right after it, and whether the position is
/// then a boundary or is protected from being one.
pub struct RuleView {
    pub before: Seq<char>,
    pub after: Seq<char>,
    pub breaks: bool,
}

impl RuleView {
    /// Whether the rule applies between `left` and `right`: its before
    /// pattern matches the end of `left` and its after pattern matches the
    /// start of `right`.
    pub open spec fn applies(self, left: Seq<char>, right: Seq<char>) -> bool {
        pattern_matches(self.before, Anchor::End, left) && pattern_matches(
            self.after,
            Anchor::Start,
            right,
        )
    }

    /// Whether the rule applies at position `at` of `text`.
    pub open spec fn applies_at(self, text: Seq<char>, at: int) -> bool {
        self.applies(text.subrange(0, at), text.subrange(at, text.len() as int))
    }
}

/// Why a pair of patterns cannot make a rule, if it cannot: the error of
/// the before pattern, or else that of the after pattern.
pub open spec fn rule_error(before: Seq<char>, after: Seq<char>) -> Option<Seq<char>> {
    match pattern_error(before, Anchor::End) {
        Some(message) => Some(message),
        None => pattern_error(after, Anchor::Start),
    }
}

/// A compiled rule. It never changes once it is made.
pub struct Rule {
    before: Matcher,
    after: Matcher,
    breaks: bool,
}

impl View for Rule {
    type V = RuleView;

    closed spec fn view(&self) -> RuleView {
        RuleView { before: self.before@.pattern, after: self.after@.pattern, breaks: self.breaks }
    }
}

impl Rule {
    #[verifier::type_invariant]
    spec fn anchored(self) -> bool {
        self.before@.anchor == Anchor::End && self.after@.anchor == Anchor::Start
    }

    /// Compiles a rule from its two patterns, or reports why one of them
    /// cannot be used.
    pub fn new(before: &str, after: &str, breaks: bool) -> (r: Result<Rule, String>)
        ensures
            match r {
                Ok(rule) => rule_error(before@, after@) is None && rule@ == (RuleView {
                    before: before@,
                    after: after@,
                    breaks,
                }),
                Err(message) => rule_error(before@, after@) == Some(message@),
            },
    {
        match Matcher::new(before, Anchor::End) {
            Err(message) => Err(message),
            Ok(before_matcher) => match Matcher::new(after, Anchor::Start) {
                Err(message) => Err(message),
                Ok(after_matcher) => Ok(Rule { before: before_matcher, after: after_matcher, breaks }),
            },
        }
    }

    /// The pattern that must match right before a position.
    pub fn before(&self) -> (r: &str)
        ensures
            r@ == self@.before,
    {
        self.before.pattern()
    }

    /// The pattern that must match right after a position.
    pub fn after(&self) -> (r: &str)
        ensures
            r@ == self@.after,
    {
        self.after.pattern()
    }

    /// Whether the rule makes a boundary (`true`) or prevents one (`false`).
    pub fn breaks(&self) -> (r: bool)
        ensures
            r == self@.breaks,
    {
        self.breaks
    }

    /// Whether the rule applies between `left` and `right`.
    pub fn applies(&self, left: &str, right: &str) -> (r: bool)
        ensures
            r == self@.applies(left@, right@),
    {
        proof {
            use_type_invariant(self);
        }
        self.before.accepts(left) && self.after.accepts(right)
    }
}

impl Clone for Rule {
    fn clone(&self) -> (r: Rule)
        ensures
            r@ == self@,
    {
        proof {
            use_type_invariant(self);
        }
        Rule { before: self.before.clone(), after: self.after.clone(), breaks: self.breaks }
    }
}

/// The views of a list of rules, in order.
pub open spec fn rule_views(rules: Seq<Rule>) -> Seq<RuleView> {
    Seq::new(rules.len(), |i: int| rules[i]@)
}

/// The ordered rules that apply to one language.
pub struct ResolvedRules {
    rules: Vec<Rule>,
}

impl View for ResolvedRules {
    type V = Seq<RuleView>;

    closed spec fn view(&self) -> Seq<RuleView> {
        rule_views(self.rules@)
    }
}

impl ResolvedRules {
    /// The rules in the given order.
    pub fn new(rules: Vec<Rule>) -> (r: ResolvedRules)
        ensures
            r@ == rule_views(rules@),
    {
        ResolvedRules { rules }
    }

    /// How many rules there are.
    pub fn len(&self) -> (r: usize)
        ensures
            r == self@.len(),
    {
        self.rules.len()
    }

    /// Whether there is no rule at all.
    pub fn is_empty(&self) -> (r: bool)
        ensures
            r == (self@.len() == 0),
    {
        self.rules.len() == 0
    }

    /// The rule at `index`, if there is one.
    pub fn get(&self, index: usize) -> (r: Option<&Rule>)
        ensures
            match r {
                Some(rule) => index < self@.len() && rule@ == self@[index as int],
                None => index >= self@.len(),
            },
    {
        if index < self.rules.len() {
            Some(&self.rules[index])
        } else {
            None
        }
    }
}

} // verus!
