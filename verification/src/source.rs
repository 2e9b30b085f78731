//! Rule sets as they are written down, and compiling them.
//!
//! A written rule set names its patterns as text and its groups by name.
//! Compiling it turns each usable rule into a compiled one, drops each rule
//! whose patterns the engine refuses and notes why under the rule's group,
//! and binds each language map entry to the groups it names. A language
//! pattern the engine refuses, or a group name that no group bears, fails
//! the whole rule set.
use vstd::prelude::*;
use crate::pattern::{pattern_error, Anchor};
use crate::rules::{rule_error, rule_views, Rule, RuleView};
use crate::ruleset::{
    entry_views,
    group_indices,
    group_views,
    LanguageMapEntry,
    LanguageMapEntryView,
    RuleGroup,
    RuleGroupView,
    Ruleset,
    RulesetView,
};

verus! {

/// A rule as written: either pattern may be left out, and then matches
/// everywhere.
pub struct RuleSource {
    pub before: Option<String>,
    pub after: Option<String>,
    pub breaks: bool,
}

/// A group of rules as written.
pub struct GroupSource {
    pub name: String,
    pub rules: Vec<RuleSource>,
}

/// A language map entry as written: the groups are given by name.
pub struct MapSource {
    pub pattern: String,
    pub groups: Vec<String>,
    pub halt: bool,
}

/// A rule set as written.
pub struct RulesetSource {
    pub groups: Vec<GroupSource>,
    pub maps: Vec<MapSource>,
}

pub struct RuleSourceView {
    pub before: Option<Seq<char>>,
    pub after: Option<Seq<char>>,
    pub breaks: bool,
}

pub struct GroupSourceView {
    pub name: Seq<char>,
    pub rules: Seq<RuleSourceView>,
}

pub struct MapSourceView {
    pub pattern: Seq<char>,
    pub groups: Seq<Seq<char>>,
    pub halt: bool,
}

pub struct RulesetSourceView {
    pub groups: Seq<GroupSourceView>,
    pub maps: Seq<MapSourceView>,
}

/// The characters of a text that may be absent.
pub open spec fn optional_text(text: Option<String>) -> Option<Seq<char>> {
    match text {
        Some(text) => Some(text@),
        None => None,
    }
}

/// The views of a list of written rules, in order.
pub open spec fn rule_source_views(rules: Seq<RuleSource>) -> Seq<RuleSourceView> {
    Seq::new(rules.len(), |i: int| rules[i]@)
}

/// The views of a list of written groups, in order.
pub open spec fn group_source_views(groups: Seq<GroupSource>) -> Seq<GroupSourceView> {
    Seq::new(groups.len(), |i: int| groups[i]@)
}

/// The views of a list of written language map entries, in order.
pub open spec fn map_source_views(maps: Seq<MapSource>) -> Seq<MapSourceView> {
    Seq::new(maps.len(), |i: int| maps[i]@)
}

impl View for RuleSource {
    type V = RuleSourceView;

    open spec fn view(&self) -> RuleSourceView {
        RuleSourceView {
            before: optional_text(self.before),
            after: optional_text(self.after),
            breaks: self.breaks,
        }
    }
}

impl View for GroupSource {
    type V = GroupSourceView;

    open spec fn view(&self) -> GroupSourceView {
        GroupSourceView { name: self.name@, rules: rule_source_views(self.rules@) }
    }
}

impl View for MapSource {
    type V = MapSourceView;

    open spec fn view(&self) -> MapSourceView {
        MapSourceView {
            pattern: self.pattern@,
            groups: self.groups.deep_view(),
            halt: self.halt,
        }
    }
}

impl View for RulesetSource {
    type V = RulesetSourceView;

    open spec fn view(&self) -> RulesetSourceView {
        RulesetSourceView {
            groups: group_source_views(self.groups@),
            maps: map_source_views(self.maps@),
        }
    }
}

/// Why a rule set cannot be had.
pub enum ParseError {
    /// The document is not well-formed markup, or is not laid out as a rule
    /// set; the text says what is wrong.
    Malformed(String),
    /// A required element or attribute, named here, is absent.
    Missing(String),
    /// An element, named here, stands where a rule set has no place for it.
    Unexpected(String),
    /// A yes-or-no attribute holds this other value.
    InvalidFlag(String),
    /// A language map entry names this group, which does not exist.
    UnknownGroup(String),
    /// A language pattern does not compile; the text is the engine's error.
    LanguagePattern(String),
}

pub enum ParseErrorView {
    Malformed(Seq<char>),
    Missing(Seq<char>),
    Unexpected(Seq<char>),
    InvalidFlag(Seq<char>),
    UnknownGroup(Seq<char>),
    LanguagePattern(Seq<char>),
}

impl View for ParseError {
    type V = ParseErrorView;

    open spec fn view(&self) -> ParseErrorView {
        match self {
            ParseError::Malformed(text) => ParseErrorView::Malformed(text@),
            ParseError::Missing(name) => ParseErrorView::Missing(name@),
            ParseError::Unexpected(name) => ParseErrorView::Unexpected(name@),
            ParseError::InvalidFlag(value) => ParseErrorView::InvalidFlag(value@),
            ParseError::UnknownGroup(name) => ParseErrorView::UnknownGroup(name@),
            ParseError::LanguagePattern(text) => ParseErrorView::LanguagePattern(text@),
        }
    }
}

impl ParseErrorView {
    /// The error in a sentence.
    pub open spec fn message(self) -> Seq<char> {
        match self {
            ParseErrorView::Malformed(text) => "malformed rule set: "@ + text,
            ParseErrorView::Missing(name) => "missing in rule set: "@ + name,
            ParseErrorView::Unexpected(name) => "out of place in rule set: "@ + name,
            ParseErrorView::InvalidFlag(value) => "expected 'yes' or 'no', found: "@ + value,
            ParseErrorView::UnknownGroup(name) => "language map names an unknown group: "@ + name,
            ParseErrorView::LanguagePattern(text) => "unusable language pattern: "@ + text,
        }
    }
}

impl ParseError {
    /// The error in a sentence.
    pub fn message(&self) -> (r: String)
        ensures
            r@ == self@.message(),
    {
        match self {
            ParseError::Malformed(text) => String::from_str("malformed rule set: ").concat(
                text.as_str(),
            ),
            ParseError::Missing(name) => String::from_str("missing in rule set: ").concat(
                name.as_str(),
            ),
            ParseError::Unexpected(name) => String::from_str("out of place in rule set: ").concat(
                name.as_str(),
            ),
            ParseError::InvalidFlag(value) => String::from_str(
                "expected 'yes' or 'no', found: ",
            ).concat(value.as_str()),
            ParseError::UnknownGroup(name) => String::from_str(
                "language map names an unknown group: ",
            ).concat(name.as_str()),
            ParseError::LanguagePattern(text) => String::from_str(
                "unusable language pattern: ",
            ).concat(text.as_str()),
        }
    }
}

/// The rules of one group that were dropped: why, rule by rule in order.
pub struct GroupErrors {
    pub group: String,
    pub messages: Vec<String>,
}

pub struct GroupErrorsView {
    pub group: Seq<char>,
    pub messages: Seq<Seq<char>>,
}

impl View for GroupErrors {
    type V = GroupErrorsView;

    open spec fn view(&self) -> GroupErrorsView {
        GroupErrorsView { group: self.group@, messages: self.messages.deep_view() }
    }
}

/// The views of an error log, group by group.
pub open spec fn log_views(log: Seq<GroupErrors>) -> Seq<GroupErrorsView> {
    Seq::new(log.len(), |i: int| log[i]@)
}

/// What is noted for a rule that names no pattern at all.
pub open spec fn no_pattern_message() -> Seq<char> {
    "a rule needs a pattern before or after the break"@
}

/// A pattern that is left out is the empty pattern.
pub open spec fn pattern_or_empty(pattern: Option<Seq<char>>) -> Seq<char> {
    match pattern {
        Some(pattern) => pattern,
        None => Seq::empty(),
    }
}

impl RuleSourceView {
    /// Why the rule is dropped, if it is: it names no pattern, or the
    /// engine refuses one of its patterns.
    pub open spec fn error(self) -> Option<Seq<char>> {
        if self.before is None && self.after is None {
            Some(no_pattern_message())
        } else {
            rule_error(pattern_or_empty(self.before), pattern_or_empty(self.after))
        }
    }

    /// The rule once compiled.
    pub open spec fn compiled(self) -> RuleView {
        RuleView {
            before: pattern_or_empty(self.before),
            after: pattern_or_empty(self.after),
            breaks: self.breaks,
        }
    }
}

/// The usable rules among `rules`, compiled, in their order.
pub open spec fn usable_rules(rules: Seq<RuleSourceView>) -> Seq<RuleView>
    decreases rules.len(),
{
    if rules.len() == 0 {
        Seq::empty()
    } else if rules.last().error() is None {
        usable_rules(rules.drop_last()).push(rules.last().compiled())
    } else {
        usable_rules(rules.drop_last())
    }
}

/// What is noted for the rules among `rules` that are dropped, in their
/// order.
pub open spec fn dropped_rules(rules: Seq<RuleSourceView>) -> Seq<Seq<char>>
    decreases rules.len(),
{
    if rules.len() == 0 {
        Seq::empty()
    } else {
        match rules.last().error() {
            Some(message) => dropped_rules(rules.drop_last()).push(message),
            None => dropped_rules(rules.drop_last()),
        }
    }
}

impl GroupSourceView {
    /// The group once compiled: its usable rules under its name.
    pub open spec fn compiled(self) -> RuleGroupView {
        RuleGroupView { name: self.name, rules: usable_rules(self.rules) }
    }

    /// What is noted for the group.
    pub open spec fn errors(self) -> GroupErrorsView {
        GroupErrorsView { group: self.name, messages: dropped_rules(self.rules) }
    }
}

/// The index of the group that bears `name` among the first `count`
/// groups; of several, the last.
pub open spec fn group_named(groups: Seq<GroupSourceView>, name: Seq<char>, count: int) -> Option<
    int,
>
    decreases count,
{
    if count <= 0 {
        None
    } else if groups[count - 1].name == name {
        Some(count - 1)
    } else {
        group_named(groups, name, count - 1)
    }
}

/// The indices of the groups that bear `names`, or the first name that no
/// group bears.
pub open spec fn groups_named(groups: Seq<GroupSourceView>, names: Seq<Seq<char>>) -> Result<
    Seq<int>,
    ParseErrorView,
>
    decreases names.len(),
{
    if names.len() == 0 {
        Ok(Seq::empty())
    } else {
        match groups_named(groups, names.drop_last()) {
            Err(error) => Err(error),
            Ok(indices) => match group_named(groups, names.last(), groups.len() as int) {
                None => Err(ParseErrorView::UnknownGroup(names.last())),
                Some(index) => Ok(indices.push(index)),
            },
        }
    }
}

/// A language map entry once compiled, or why the rule set fails on it:
/// it names a group that no group bears, or its language pattern is
/// refused.
pub open spec fn compiled_entry(groups: Seq<GroupSourceView>, map: MapSourceView) -> Result<
    LanguageMapEntryView,
    ParseErrorView,
> {
    match groups_named(groups, map.groups) {
        Err(error) => Err(error),
        Ok(indices) => match pattern_error(map.pattern, Anchor::Whole) {
            Some(message) => Err(ParseErrorView::LanguagePattern(message)),
            None => Ok(
                LanguageMapEntryView { pattern: map.pattern, groups: indices, halt: map.halt },
            ),
        },
    }
}

/// The language map once compiled, or the error of the first entry that
/// has one.
pub open spec fn compiled_entries(groups: Seq<GroupSourceView>, maps: Seq<MapSourceView>) -> Result<
    Seq<LanguageMapEntryView>,
    ParseErrorView,
>
    decreases maps.len(),
{
    if maps.len() == 0 {
        Ok(Seq::empty())
    } else {
        match compiled_entries(groups, maps.drop_last()) {
            Err(error) => Err(error),
            Ok(entries) => match compiled_entry(groups, maps.last()) {
                Err(error) => Err(error),
                Ok(entry) => Ok(entries.push(entry)),
            },
        }
    }
}

/// What compiling a written rule set gives.
pub struct Compiled {
    pub ruleset: RulesetView,
    pub log: Seq<GroupErrorsView>,
}

/// The compiled rule set with its error log, or why there is none.
pub open spec fn compiled(source: RulesetSourceView) -> Result<Compiled, ParseErrorView> {
    match compiled_entries(source.groups, source.maps) {
        Err(error) => Err(error),
        Ok(entries) => Ok(
            Compiled {
                ruleset: RulesetView {
                    groups: Seq::new(source.groups.len(), |i: int| source.groups[i].compiled()),
                    entries,
                },
                log: Seq::new(source.groups.len(), |i: int| source.groups[i].errors()),
            },
        ),
    }
}

/// Every written rule is either kept or noted, never both: the usable
/// rules are the compiled forms of exactly the rules without an error, and
/// the log holds the error of each of the others.
pub proof fn rules_are_kept_or_noted(rules: Seq<RuleSourceView>)
    ensures
        usable_rules(rules).len() + dropped_rules(rules).len() == rules.len(),
        forall|i: int|
            0 <= i < rules.len() && (#[trigger] rules[i]).error() is None ==> usable_rules(
                rules,
            ).contains(rules[i].compiled()),
        forall|i: int|
            0 <= i < rules.len() && (#[trigger] rules[i]).error() is Some ==> dropped_rules(
                rules,
            ).contains(rules[i].error()->Some_0),
        forall|kept: RuleView| #[trigger]
            usable_rules(rules).contains(kept) ==> exists|i: int|
                0 <= i < rules.len() && (#[trigger] rules[i]).error() is None
                    && rules[i].compiled() == kept,
        forall|noted: Seq<char>| #[trigger]
            dropped_rules(rules).contains(noted) ==> exists|i: int|
                0 <= i < rules.len() && (#[trigger] rules[i]).error() == Some(noted),
    decreases rules.len(),
{
    if rules.len() > 0 {
        let front = rules.drop_last();
        let last = rules.last();
        rules_are_kept_or_noted(front);
        let usable = usable_rules(rules);
        let dropped = dropped_rules(rules);
        let usable_front = usable_rules(front);
        let dropped_front = dropped_rules(front);
        assert forall|i: int| 0 <= i < rules.len() && (#[trigger] rules[i]).error()
            is None implies usable.contains(rules[i].compiled()) by {
            if i < front.len() {
                assert(front[i] == rules[i]);
                assert(usable_front.contains(rules[i].compiled()));
                let k = choose|k: int|
                    0 <= k < usable_front.len() && usable_front[k] == rules[i].compiled();
                assert(usable[k] == rules[i].compiled());
            } else {
                assert(usable[usable_front.len() as int] == last.compiled());
            }
        }
        assert forall|i: int| 0 <= i < rules.len() && (#[trigger] rules[i]).error()
            is Some implies dropped.contains(rules[i].error()->Some_0) by {
            if i < front.len() {
                assert(front[i] == rules[i]);
                assert(dropped_front.contains(rules[i].error()->Some_0));
                let k = choose|k: int|
                    0 <= k < dropped_front.len() && dropped_front[k] == rules[i].error()->Some_0;
                assert(dropped[k] == rules[i].error()->Some_0);
            } else {
                assert(dropped[dropped_front.len() as int] == last.error()->Some_0);
            }
        }
        assert forall|kept: RuleView| #[trigger] usable.contains(kept) implies exists|i: int|
            0 <= i < rules.len() && (#[trigger] rules[i]).error() is None && rules[i].compiled()
                == kept by {
            let k = choose|k: int| 0 <= k < usable.len() && usable[k] == kept;
            if k < usable_front.len() {
                assert(usable_front[k] == kept);
                assert(usable_front.contains(kept));
                let i = choose|i: int|
                    0 <= i < front.len() && (#[trigger] front[i]).error() is None
                        && front[i].compiled() == kept;
                assert(rules[i] == front[i]);
            } else {
                assert(rules[rules.len() - 1] == last);
            }
        }
        assert forall|noted: Seq<char>| #[trigger] dropped.contains(noted) implies exists|i: int|
            0 <= i < rules.len() && (#[trigger] rules[i]).error() == Some(noted) by {
            let k = choose|k: int| 0 <= k < dropped.len() && dropped[k] == noted;
            if k < dropped_front.len() {
                assert(dropped_front[k] == noted);
                assert(dropped_front.contains(noted));
                let i = choose|i: int|
                    0 <= i < front.len() && (#[trigger] front[i]).error() == Some(noted);
                assert(rules[i] == front[i]);
            } else {
                assert(rules[rules.len() - 1] == last);
            }
        }
    }
}

/// No rule can fail a rule set: compiling fails only on the language map.
pub proof fn only_the_language_map_fails(source: RulesetSourceView)
    ensures
        compiled(source) is Err <==> compiled_entries(source.groups, source.maps) is Err,
{
}

impl RuleSource {
    /// Compiles the rule, or reports why it is dropped.
    pub fn compile(&self) -> (r: Result<Rule, String>)
        ensures
            match r {
                Ok(rule) => self@.error() is None && rule@ == self@.compiled(),
                Err(message) => self@.error() == Some(message@),
            },
    {
        proof {
            reveal_strlit("");
            assert(""@ =~= Seq::<char>::empty());
        }
        match (&self.before, &self.after) {
            (None, None) => Err(
                String::from_str("a rule needs a pattern before or after the break"),
            ),
            (Some(before), None) => Rule::new(before.as_str(), "", self.breaks),
            (None, Some(after)) => Rule::new("", after.as_str(), self.breaks),
            (Some(before), Some(after)) => Rule::new(before.as_str(), after.as_str(), self.breaks),
        }
    }
}

impl GroupSource {
    /// Compiles the group: its usable rules, and what is noted for the
    /// others.
    pub fn compile(&self) -> (r: (RuleGroup, GroupErrors))
        ensures
            r.0@ == self@.compiled(),
            r.1@ == self@.errors(),
    {
        let ghost written = self@.rules;
        let mut rules: Vec<Rule> = Vec::new();
        let mut messages: Vec<String> = Vec::new();
        let mut i: usize = 0;
        proof {
            assert(written.take(0) =~= Seq::<RuleSourceView>::empty());
            assert(rule_views(rules@) =~= usable_rules(written.take(0)));
            assert(messages.deep_view() =~= dropped_rules(written.take(0)));
        }
        while i < self.rules.len()
            invariant
                i <= self.rules.len(),
                written == self@.rules,
                rule_views(rules@) == usable_rules(written.take(i as int)),
                messages.deep_view() == dropped_rules(written.take(i as int)),
            decreases self.rules.len() - i,
        {
            let ghost kept = rule_views(rules@);
            let ghost noted = messages.deep_view();
            proof {
                assert(written.take(i + 1).drop_last() =~= written.take(i as int));
                assert(written.take(i + 1).last() == self.rules@[i as int]@);
            }
            match self.rules[i].compile() {
                Ok(rule) => {
                    rules.push(rule);
                    assert(rule_views(rules@) =~= kept.push(rule@));
                },
                Err(message) => {
                    messages.push(message);
                    assert(messages.deep_view() =~= noted.push(message@));
                },
            }
            i += 1;
        }
        assert(written.take(i as int) =~= written);
        let name = self.name.clone();
        let group = self.name.clone();
        (RuleGroup::new(name, rules), GroupErrors { group, messages })
    }
}

/// The index of the last group that bears `name`.
fn find_group(groups: &Vec<GroupSource>, name: &String) -> (r: Option<usize>)
    ensures
        match r {
            Some(index) => index < groups@.len() && group_named(
                group_source_views(groups@),
                name@,
                groups@.len() as int,
            ) == Some(index as int),
            None => group_named(group_source_views(groups@), name@, groups@.len() as int)
                is None,
        },
{
    let ghost views = group_source_views(groups@);
    let mut i: usize = groups.len();
    while i > 0
        invariant
            i <= groups.len(),
            views == group_source_views(groups@),
            group_named(views, name@, groups@.len() as int) == group_named(views, name@, i as int),
        decreases i,
    {
        if groups[i - 1].name == *name {
            assert(views[i - 1].name == name@);
            return Some(i - 1);
        }
        assert(views[i - 1].name != name@);
        i -= 1;
    }
    None
}

/// The indices of the groups that bear `names`, or the first name that no
/// group bears.
fn find_groups(groups: &Vec<GroupSource>, names: &Vec<String>) -> (r: Result<
    Vec<usize>,
    ParseError,
>)
    ensures
        match r {
            Ok(indices) => groups_named(group_source_views(groups@), names.deep_view()) == Ok::<
                Seq<int>,
                ParseErrorView,
            >(group_indices(indices@)) && forall|k: int|
                0 <= k < indices@.len() ==> indices@[k] < groups@.len(),
            Err(error) => groups_named(group_source_views(groups@), names.deep_view()) == Err::<
                Seq<int>,
                ParseErrorView,
            >(error@),
        },
{
    let ghost views = group_source_views(groups@);
    let ghost wanted = names.deep_view();
    let mut indices: Vec<usize> = Vec::new();
    let mut k: usize = 0;
    proof {
        assert(wanted.take(0) =~= Seq::<Seq<char>>::empty());
        assert(group_indices(indices@) =~= Seq::<int>::empty());
    }
    while k < names.len()
        invariant
            k <= names.len(),
            views == group_source_views(groups@),
            wanted == names.deep_view(),
            groups_named(views, wanted.take(k as int)) == Ok::<Seq<int>, ParseErrorView>(
                group_indices(indices@),
            ),
            forall|j: int| 0 <= j < indices@.len() ==> indices@[j] < groups@.len(),
        decreases names.len() - k,
    {
        let ghost found = group_indices(indices@);
        proof {
            assert(wanted.take(k + 1).drop_last() =~= wanted.take(k as int));
            assert(wanted.take(k + 1).last() == names@[k as int]@);
        }
        match find_group(groups, &names[k]) {
            None => {
                proof {
                    missing_group_fails(views, wanted, k + 1);
                }
                return Err(ParseError::UnknownGroup(names[k].clone()));
            },
            Some(index) => {
                indices.push(index);
                assert(group_indices(indices@) =~= found.push(index as int));
            },
        }
        k += 1;
    }
    assert(wanted.take(k as int) =~= wanted);
    Ok(indices)
}

/// Once a name among the first `count` has failed, the whole list fails
/// with the same error.
proof fn missing_group_fails(groups: Seq<GroupSourceView>, names: Seq<Seq<char>>, count: int)
    requires
        0 <= count <= names.len(),
        groups_named(groups, names.take(count)) is Err,
    ensures
        groups_named(groups, names) == groups_named(groups, names.take(count)),
    decreases names.len() - count,
{
    if count < names.len() {
        assert(names.take(count + 1).drop_last() =~= names.take(count));
        missing_group_fails(groups, names, count + 1);
    } else {
        assert(names.take(count) =~= names);
    }
}

/// Once an entry among the first `count` has failed, the whole language
/// map fails with the same error.
proof fn failed_entry_fails(groups: Seq<GroupSourceView>, maps: Seq<MapSourceView>, count: int)
    requires
        0 <= count <= maps.len(),
        compiled_entries(groups, maps.take(count)) is Err,
    ensures
        compiled_entries(groups, maps) == compiled_entries(groups, maps.take(count)),
    decreases maps.len() - count,
{
    if count < maps.len() {
        assert(maps.take(count + 1).drop_last() =~= maps.take(count));
        failed_entry_fails(groups, maps, count + 1);
    } else {
        assert(maps.take(count) =~= maps);
    }
}

/// Compiles one language map entry against the written groups.
fn compile_entry(groups: &Vec<GroupSource>, map: &MapSource) -> (r: Result<
    LanguageMapEntry,
    ParseError,
>)
    ensures
        match r {
            Ok(entry) => compiled_entry(group_source_views(groups@), map@) == Ok::<
                LanguageMapEntryView,
                ParseErrorView,
            >(entry@) && forall|k: int|
                0 <= k < entry@.groups.len() ==> 0 <= #[trigger] entry@.groups[k] < groups@.len(),
            Err(error) => compiled_entry(group_source_views(groups@), map@) == Err::<
                LanguageMapEntryView,
                ParseErrorView,
            >(error@),
        },
{
    match find_groups(groups, &map.groups) {
        Err(error) => Err(error),
        Ok(indices) => {
            let ghost bound = group_indices(indices@);
            match LanguageMapEntry::new(map.pattern.as_str(), indices, map.halt) {
                Err(message) => Err(ParseError::LanguagePattern(message)),
                Ok(entry) => {
                    assert(entry@.groups == bound);
                    Ok(entry)
                },
            }
        },
    }
}

impl RulesetSource {
    /// Compiles the rule set.
    ///
    /// Every group is kept, with the rules of it that the engine accepts;
    /// the log holds one entry for each group, in order, with what is noted
    /// for its dropped rules. The rule set fails on the first language map
    /// entry that names an unknown group or has an unusable pattern.
    pub fn compile(&self) -> (r: Result<(Ruleset, Vec<GroupErrors>), ParseError>)
        ensures
            match r {
                Ok(pair) => compiled(self@) == Ok::<Compiled, ParseErrorView>(
                    Compiled { ruleset: pair.0@, log: log_views(pair.1@) },
                ),
                Err(error) => compiled(self@) == Err::<Compiled, ParseErrorView>(error@),
            },
    {
        let ghost written = self@.groups;
        let ghost maps = self@.maps;
        let mut entries: Vec<LanguageMapEntry> = Vec::new();
        let mut m: usize = 0;
        proof {
            assert(maps.take(0) =~= Seq::<MapSourceView>::empty());
            assert(entry_views(entries@) =~= Seq::<LanguageMapEntryView>::empty());
        }
        while m < self.maps.len()
            invariant
                m <= self.maps.len(),
                written == self@.groups,
                maps == self@.maps,
                compiled_entries(written, maps.take(m as int)) == Ok::<
                    Seq<LanguageMapEntryView>,
                    ParseErrorView,
                >(entry_views(entries@)),
                forall|j: int, k: int|
                    0 <= j < entries@.len() && 0 <= k < entries@[j]@.groups.len() ==> 0 <= (
                    #[trigger] entries@[j]@.groups[k]) < self.groups@.len(),
            decreases self.maps.len() - m,
        {
            let ghost bound = entry_views(entries@);
            proof {
                assert(maps.take(m + 1).drop_last() =~= maps.take(m as int));
                assert(maps.take(m + 1).last() == self.maps@[m as int]@);
            }
            match compile_entry(&self.groups, &self.maps[m]) {
                Err(error) => {
                    proof {
                        failed_entry_fails(written, maps, m + 1);
                    }
                    return Err(error);
                },
                Ok(entry) => {
                    entries.push(entry);
                    assert(entry_views(entries@) =~= bound.push(entry@));
                },
            }
            m += 1;
        }
        assert(maps.take(m as int) =~= maps);
        let mut groups: Vec<RuleGroup> = Vec::new();
        let mut log: Vec<GroupErrors> = Vec::new();
        let mut g: usize = 0;
        while g < self.groups.len()
            invariant
                g <= self.groups.len(),
                written == self@.groups,
                groups@.len() == g,
                log@.len() == g,
                forall|j: int| 0 <= j < g ==> (#[trigger] groups@[j])@ == written[j].compiled(),
                forall|j: int| 0 <= j < g ==> (#[trigger] log@[j])@ == written[j].errors(),
            decreases self.groups.len() - g,
        {
            let (group, errors) = self.groups[g].compile();
            groups.push(group);
            log.push(errors);
            g += 1;
        }
        proof {
            assert(group_views(groups@) =~= Seq::new(
                written.len(),
                |i: int| written[i].compiled(),
            ));
            assert(log_views(log@) =~= Seq::new(written.len(), |i: int| written[i].errors()));
            let view = RulesetView {
                groups: group_views(groups@),
                entries: entry_views(entries@),
            };
            assert(view.well_formed()) by {
                assert forall|i: int, k: int|
                    0 <= i < view.entries.len() && 0 <= k < view.entries[i].groups.len() implies 0
                    <= (#[trigger] view.entries[i].groups[k]) < view.groups.len() by {
                    assert(0 <= entries@[i]@.groups[k] < self.groups@.len());
                }
            }
        }
        Ok((Ruleset::from_parts(groups, entries), log))
    }
}

} // verus!

