//! A rule set, and the resolution of a language code to its rules.
//!
//! A rule set holds named groups of rules and an ordered list of language
//! map entries. Resolution is a fold over the entries in their order: each
//! entry whose pattern matches the language code contributes its groups,
//! a group that is already in is not taken again, and an entry that halts
//! ends the fold.
use vstd::prelude::*;
use crate::pattern::{pattern_error, pattern_matches, Anchor, Matcher};
use crate::rules::{rule_views, ResolvedRules, Rule, RuleView};

verus! {

/// What a rule group is: its name and its rules, in order.
pub struct RuleGroupView {
    pub name: Seq<char>,
    pub rules: Seq<RuleView>,
}

/// A named, ordered list of rules.
pub struct RuleGroup {
    name: String,
    rules: Vec<Rule>,
}

impl View for RuleGroup {
    type V = RuleGroupView;

    closed spec fn view(&self) -> RuleGroupView {
        RuleGroupView { name: self.name@, rules: rule_views(self.rules@) }
    }
}

impl RuleGroup {
    /// A group with the given name and rules.
    pub fn new(name: String, rules: Vec<Rule>) -> (r: RuleGroup)
        ensures
            r@ == (RuleGroupView { name: name@, rules: rule_views(rules@) }),
    {
        RuleGroup { name, rules }
    }

    /// The group's name.
    pub fn name(&self) -> (r: &str)
        ensures
            r@ == self@.name,
    {
        self.name.as_str()
    }

    /// How many rules the group holds.
    pub fn len(&self) -> (r: usize)
        ensures
            r == self@.rules.len(),
    {
        self.rules.len()
    }

    /// The rule at `index`, if there is one.
    pub fn get(&self, index: usize) -> (r: Option<&Rule>)
        ensures
            match r {
                Some(rule) => index < self@.rules.len() && rule@ == self@.rules[index as int],
                None => index >= self@.rules.len(),
            },
    {
        if index < self.rules.len() {
            Some(&self.rules[index])
        } else {
            None
        }
    }
}

/// Group indices as mathematical integers.
pub open spec fn group_indices(groups: Seq<usize>) -> Seq<int> {
    Seq::new(groups.len(), |i: int| groups[i] as int)
}

/// What a language map entry is: the pattern a language code is held
/// against, the groups it activates, by their index in the rule set, and
/// whether resolution stops once it has matched.
pub struct LanguageMapEntryView {
    pub pattern: Seq<char>,
    pub groups: Seq<int>,
    pub halt: bool,
}

impl LanguageMapEntryView {
    /// Whether the entry is for the language code: its pattern matches the
    /// whole code, letter case ignored.
    pub open spec fn matches(self, code: Seq<char>) -> bool {
        pattern_matches(self.pattern, Anchor::Whole, code)
    }
}

/// One entry of a rule set's ordered language map.
pub struct LanguageMapEntry {
    language: Matcher,
    groups: Vec<usize>,
    halt: bool,
}

impl View for LanguageMapEntry {
    type V = LanguageMapEntryView;

    closed spec fn view(&self) -> LanguageMapEntryView {
        LanguageMapEntryView {
            pattern: self.language@.pattern,
            groups: group_indices(self.groups@),
            halt: self.halt,
        }
    }
}

impl LanguageMapEntry {
    #[verifier::type_invariant]
    spec fn whole_code(self) -> bool {
        self.language@.anchor == Anchor::Whole
    }

    /// Compiles an entry, or reports why its language pattern cannot be
    /// used.
    pub fn new(pattern: &str, groups: Vec<usize>, halt: bool) -> (r: Result<
        LanguageMapEntry,
        String,
    >)
        ensures
            match r {
                Ok(entry) => pattern_error(pattern@, Anchor::Whole) is None && entry@ == (
                LanguageMapEntryView {
                    pattern: pattern@,
                    groups: group_indices(groups@),
                    halt,
                }),
                Err(message) => pattern_error(pattern@, Anchor::Whole) == Some(message@),
            },
    {
        match Matcher::new(pattern, Anchor::Whole) {
            Err(message) => Err(message),
            Ok(language) => Ok(LanguageMapEntry { language, groups, halt }),
        }
    }

    /// The language pattern as it was given.
    pub fn pattern(&self) -> (r: &str)
        ensures
            r@ == self@.pattern,
    {
        self.language.pattern()
    }

    /// Whether resolution stops once this entry has matched.
    pub fn halt(&self) -> (r: bool)
        ensures
            r == self@.halt,
    {
        self.halt
    }

    /// Whether the entry is for the language code.
    pub fn matches(&self, code: &str) -> (r: bool)
        ensures
            r == self@.matches(code@),
    {
        proof {
            use_type_invariant(self);
        }
        self.language.accepts(code)
    }
}

/// The views of a list of groups, in order.
pub open spec fn group_views(groups: Seq<RuleGroup>) -> Seq<RuleGroupView> {
    Seq::new(groups.len(), |i: int| groups[i]@)
}

/// The views of a list of entries, in order.
pub open spec fn entry_views(entries: Seq<LanguageMapEntry>) -> Seq<LanguageMapEntryView> {
    Seq::new(entries.len(), |i: int| entries[i]@)
}

/// What a rule set is: its groups and its language map, both in order.
pub struct RulesetView {
    pub groups: Seq<RuleGroupView>,
    pub entries: Seq<LanguageMapEntryView>,
}

impl RulesetView {
    /// Every group that an entry names exists.
    pub open spec fn well_formed(self) -> bool {
        forall|i: int, k: int|
            0 <= i < self.entries.len() && 0 <= k < self.entries[i].groups.len() ==> 0 <= (
            #[trigger] self.entries[i].groups[k]) < self.groups.len()
    }
}

/// The state of a resolution: the groups chosen so far, in order, and
/// whether an entry has halted it.
pub struct Selection {
    pub chosen: Seq<int>,
    pub halted: bool,
}

/// `chosen` with the groups of `groups` appended in order, leaving out
/// each one that is already there.
pub open spec fn included(chosen: Seq<int>, groups: Seq<int>) -> Seq<int>
    decreases groups.len(),
{
    if groups.len() == 0 {
        chosen
    } else {
        let rest = included(chosen, groups.drop_last());
        if rest.contains(groups.last()) {
            rest
        } else {
            rest.push(groups.last())
        }
    }
}

/// The resolution of `code` over the first `count` entries.
pub open spec fn selection(
    entries: Seq<LanguageMapEntryView>,
    code: Seq<char>,
    count: int,
) -> Selection
    decreases count,
{
    if count <= 0 {
        Selection { chosen: Seq::empty(), halted: false }
    } else {
        let earlier = selection(entries, code, count - 1);
        let entry = entries[count - 1];
        if earlier.halted || !entry.matches(code) {
            earlier
        } else {
            Selection { chosen: included(earlier.chosen, entry.groups), halted: entry.halt }
        }
    }
}

/// The groups that apply to `code`, in the order in which the language map
/// brings them in.
pub open spec fn selected_groups(entries: Seq<LanguageMapEntryView>, code: Seq<char>) -> Seq<int> {
    selection(entries, code, entries.len() as int).chosen
}

/// The rules of the chosen groups, group after group.
pub open spec fn gathered(groups: Seq<RuleGroupView>, chosen: Seq<int>) -> Seq<RuleView> {
    Seq::new(chosen.len(), |k: int| groups[chosen[k]].rules).flatten()
}

/// The ordered rules that apply to `code` under a rule set.
pub open spec fn resolved(ruleset: RulesetView, code: Seq<char>) -> Seq<RuleView> {
    gathered(ruleset.groups, selected_groups(ruleset.entries, code))
}

/// Once a resolution has halted, later entries do not change it.
pub proof fn halted_selection_is_final(
    entries: Seq<LanguageMapEntryView>,
    code: Seq<char>,
    at: int,
    later: int,
)
    requires
        0 <= at <= later,
        selection(entries, code, at).halted,
    ensures
        selection(entries, code, later) == selection(entries, code, at),
    decreases later - at,
{
    if at < later {
        halted_selection_is_final(entries, code, at, later - 1);
    }
}

/// A resolution over the first `count` entries reads no entry after them.
pub proof fn selection_reads_prefix(
    entries: Seq<LanguageMapEntryView>,
    code: Seq<char>,
    kept: int,
    count: int,
)
    requires
        0 <= count <= kept <= entries.len(),
    ensures
        selection(entries.take(kept), code, count) == selection(entries, code, count),
    decreases count,
{
    if count > 0 {
        selection_reads_prefix(entries, code, kept, count - 1);
        assert(entries.take(kept)[count - 1] == entries[count - 1]);
    }
}

/// Cascading halt: an entry that matches the language code and halts keeps
/// every later entry out. The groups chosen, and so the rules resolved, are
/// those of the language map cut off after that entry, whether or not later
/// entries match too.
pub proof fn halt_stops_cascade(ruleset: RulesetView, code: Seq<char>, stop: int)
    requires
        0 <= stop < ruleset.entries.len(),
        ruleset.entries[stop].matches(code),
        ruleset.entries[stop].halt,
    ensures
        selected_groups(ruleset.entries, code) == selected_groups(
            ruleset.entries.take(stop + 1),
            code,
        ),
        resolved(ruleset, code) == resolved(
            RulesetView { groups: ruleset.groups, entries: ruleset.entries.take(stop + 1) },
            code,
        ),
{
    let entries = ruleset.entries;
    assert(selection(entries, code, stop + 1).halted);
    halted_selection_is_final(entries, code, stop + 1, entries.len() as int);
    selection_reads_prefix(entries, code, stop + 1, stop + 1);
}

/// Where no entry matches the language code, no group is chosen and no
/// rule is resolved.
pub proof fn unmatched_language_resolves_empty(ruleset: RulesetView, code: Seq<char>)
    requires
        forall|i: int| 0 <= i < ruleset.entries.len() ==> !(#[trigger] ruleset.entries[i]).matches(
            code,
        ),
    ensures
        selected_groups(ruleset.entries, code) == Seq::<int>::empty(),
        resolved(ruleset, code) == Seq::<RuleView>::empty(),
{
    unmatched_selection_is_empty(ruleset.entries, code, ruleset.entries.len() as int);
    let none = Seq::<int>::empty();
    assert(Seq::new(none.len(), |k: int| ruleset.groups[none[k]].rules) =~= Seq::<
        Seq<RuleView>,
    >::empty());
}

proof fn unmatched_selection_is_empty(
    entries: Seq<LanguageMapEntryView>,
    code: Seq<char>,
    count: int,
)
    requires
        count <= entries.len(),
        forall|i: int| 0 <= i < entries.len() ==> !(#[trigger] entries[i]).matches(code),
    ensures
        selection(entries, code, count) == (Selection { chosen: Seq::empty(), halted: false }),
    decreases count,
{
    if count > 0 {
        unmatched_selection_is_empty(entries, code, count - 1);
    }
}

/// Including groups keeps what was chosen in front, adds only groups from
/// the list, and never holds a group twice if it did not before.
pub proof fn included_keeps_distinct(chosen: Seq<int>, groups: Seq<int>)
    requires
        chosen.no_duplicates(),
    ensures
        included(chosen, groups).no_duplicates(),
        chosen.len() <= included(chosen, groups).len(),
        included(chosen, groups).take(chosen.len() as int) == chosen,
        forall|g: int| #[trigger]
            included(chosen, groups).contains(g) <==> chosen.contains(g) || groups.contains(g),
    decreases groups.len(),
{
    let all = included(chosen, groups);
    if groups.len() == 0 {
        assert(all.take(chosen.len() as int) =~= chosen);
    } else {
        let front = groups.drop_last();
        let rest = included(chosen, front);
        included_keeps_distinct(chosen, front);
        assert(rest.take(chosen.len() as int) == chosen);
        assert(all.take(chosen.len() as int) =~= rest.take(chosen.len() as int));
        assert forall|g: int| #[trigger] all.contains(g) <==> chosen.contains(g) || groups.contains(
            g,
        ) by {
            if all.contains(g) {
                let i = choose|i: int| 0 <= i < all.len() && all[i] == g;
                if i < rest.len() {
                    assert(rest[i] == g);
                    assert(rest.contains(g));
                    if front.contains(g) {
                        let k = choose|k: int| 0 <= k < front.len() && front[k] == g;
                        assert(groups[k] == g);
                    }
                } else {
                    assert(groups[groups.len() - 1] == g);
                }
            }
            if chosen.contains(g) {
                assert(rest.contains(g));
                let i = choose|i: int| 0 <= i < rest.len() && rest[i] == g;
                assert(all[i] == g);
            }
            if groups.contains(g) {
                let k = choose|k: int| 0 <= k < groups.len() && groups[k] == g;
                if k < front.len() {
                    assert(front[k] == g);
                    assert(front.contains(g));
                    assert(rest.contains(g));
                    let i = choose|i: int| 0 <= i < rest.len() && rest[i] == g;
                    assert(all[i] == g);
                } else if rest.contains(g) {
                    let i = choose|i: int| 0 <= i < rest.len() && rest[i] == g;
                    assert(all[i] == g);
                } else {
                    assert(all[rest.len() as int] == g);
                }
            }
        }
    }
}

/// No group is resolved twice.
pub proof fn selected_groups_are_distinct(
    entries: Seq<LanguageMapEntryView>,
    code: Seq<char>,
    count: int,
)
    ensures
        selection(entries, code, count).chosen.no_duplicates(),
    decreases count,
{
    if count > 0 {
        selected_groups_are_distinct(entries, code, count - 1);
        included_keeps_distinct(selection(entries, code, count - 1).chosen, entries[count - 1].groups);
    }
}

/// Whether resolution gets as far as entry `index` and takes it: the entry
/// matches the language code, and no entry before it both matches and
/// halts.
pub open spec fn reached(entries: Seq<LanguageMapEntryView>, code: Seq<char>, index: int) -> bool {
    &&& 0 <= index < entries.len()
    &&& entries[index].matches(code)
    &&& forall|j: int| 0 <= j < index && (#[trigger] entries[j]).matches(code) ==> !entries[j].halt
}

/// What a resolution over the first `count` entries has done: it has halted
/// exactly when one of them matches and halts, and it has chosen exactly the
/// groups of those that it reached.
proof fn selection_takes_reached_entries(
    entries: Seq<LanguageMapEntryView>,
    code: Seq<char>,
    count: int,
)
    requires
        0 <= count <= entries.len(),
    ensures
        selection(entries, code, count).halted <==> exists|j: int|
            0 <= j < count && (#[trigger] entries[j]).matches(code) && entries[j].halt,
        forall|group: int| #[trigger]
            selection(entries, code, count).chosen.contains(group) <==> exists|i: int|
                0 <= i < count && #[trigger] reached(entries, code, i)
                    && entries[i].groups.contains(group),
    decreases count,
{
    let now = selection(entries, code, count);
    if count > 0 {
        let earlier = selection(entries, code, count - 1);
        let entry = entries[count - 1];
        selection_takes_reached_entries(entries, code, count - 1);
        selected_groups_are_distinct(entries, code, count - 1);
        included_keeps_distinct(earlier.chosen, entry.groups);
        if earlier.halted {
            let j = choose|j: int|
                0 <= j < count - 1 && (#[trigger] entries[j]).matches(code) && entries[j].halt;
            assert(!reached(entries, code, count - 1));
            assert forall|group: int| #[trigger] now.chosen.contains(group) <==> exists|i: int|
                0 <= i < count && #[trigger] reached(entries, code, i)
                    && entries[i].groups.contains(group) by {
                if exists|i: int|
                    0 <= i < count && #[trigger] reached(entries, code, i)
                        && entries[i].groups.contains(group) {
                    let i = choose|i: int|
                        0 <= i < count && #[trigger] reached(entries, code, i)
                            && entries[i].groups.contains(group);
                    assert(i < count - 1);
                }
            }
        } else if !entry.matches(code) {
            assert(!reached(entries, code, count - 1));
            assert forall|group: int| #[trigger] now.chosen.contains(group) <==> exists|i: int|
                0 <= i < count && #[trigger] reached(entries, code, i)
                    && entries[i].groups.contains(group) by {
                if exists|i: int|
                    0 <= i < count && #[trigger] reached(entries, code, i)
                        && entries[i].groups.contains(group) {
                    let i = choose|i: int|
                        0 <= i < count && #[trigger] reached(entries, code, i)
                            && entries[i].groups.contains(group);
                    assert(i < count - 1);
                }
            }
            if exists|j: int|
                0 <= j < count && (#[trigger] entries[j]).matches(code) && entries[j].halt {
                let j = choose|j: int|
                    0 <= j < count && (#[trigger] entries[j]).matches(code) && entries[j].halt;
                assert(j < count - 1);
            }
        } else {
            assert(reached(entries, code, count - 1));
            assert(now.chosen == included(earlier.chosen, entry.groups));
            assert forall|group: int| #[trigger] now.chosen.contains(group) <==> exists|i: int|
                0 <= i < count && #[trigger] reached(entries, code, i)
                    && entries[i].groups.contains(group) by {
                if now.chosen.contains(group) {
                    if earlier.chosen.contains(group) {
                        let i = choose|i: int|
                            0 <= i < count - 1 && #[trigger] reached(entries, code, i)
                                && entries[i].groups.contains(group);
                        assert(0 <= i < count && reached(entries, code, i));
                    } else {
                        assert(entry.groups.contains(group));
                    }
                }
                if exists|i: int|
                    0 <= i < count && #[trigger] reached(entries, code, i)
                        && entries[i].groups.contains(group) {
                    let i = choose|i: int|
                        0 <= i < count && #[trigger] reached(entries, code, i)
                            && entries[i].groups.contains(group);
                    if i < count - 1 {
                        assert(earlier.chosen.contains(group));
                    }
                }
            }
            if entry.halt {
                assert(entries[count - 1].matches(code) && entries[count - 1].halt);
            } else if exists|j: int|
                0 <= j < count && (#[trigger] entries[j]).matches(code) && entries[j].halt {
                let j = choose|j: int|
                    0 <= j < count && (#[trigger] entries[j]).matches(code) && entries[j].halt;
                assert(j < count - 1);
            }
        }
    }
}

/// The groups resolved for a language code are exactly the groups of the
/// entries that match the code and that no matching, halting entry
/// precedes.
pub proof fn selected_groups_are_those_reached(entries: Seq<LanguageMapEntryView>, code: Seq<char>)
    ensures
        forall|group: int| #[trigger]
            selected_groups(entries, code).contains(group) <==> exists|i: int| #[trigger]
                reached(entries, code, i) && entries[i].groups.contains(group),
{
    selection_takes_reached_entries(entries, code, entries.len() as int);
}

/// Gathering with one more group chosen appends that group's rules.
proof fn gathered_push(groups: Seq<RuleGroupView>, chosen: Seq<int>, group: int)
    ensures
        gathered(groups, chosen.push(group)) == gathered(groups, chosen) + groups[group].rules,
{
    let longer = chosen.push(group);
    let lists = Seq::new(chosen.len(), |k: int| groups[chosen[k]].rules);
    let longer_lists = Seq::new(longer.len(), |k: int| groups[longer[k]].rules);
    assert(longer_lists =~= lists.push(groups[group].rules));
    lists.lemma_flatten_push(groups[group].rules);
}

/// Whether `group` is among `chosen`.
fn holds(chosen: &Vec<usize>, group: usize) -> (r: bool)
    ensures
        r == group_indices(chosen@).contains(group as int),
{
    let mut i: usize = 0;
    while i < chosen.len()
        invariant
            i <= chosen.len(),
            forall|j: int| 0 <= j < i ==> group_indices(chosen@)[j] != group as int,
        decreases chosen.len() - i,
    {
        if chosen[i] == group {
            assert(group_indices(chosen@)[i as int] == group as int);
            return true;
        }
        i += 1;
    }
    false
}

/// Appends to `chosen` each group of `groups` that it does not hold yet.
fn add_groups(chosen: &mut Vec<usize>, groups: &Vec<usize>, Ghost(bound): Ghost<int>)
    requires
        forall|k: int| 0 <= k < old(chosen)@.len() ==> old(chosen)@[k] < bound,
        forall|k: int| 0 <= k < groups@.len() ==> groups@[k] < bound,
    ensures
        group_indices(final(chosen)@) == included(
            group_indices(old(chosen)@),
            group_indices(groups@),
        ),
        forall|k: int| 0 <= k < final(chosen)@.len() ==> final(chosen)@[k] < bound,
{
    let ghost start = group_indices(chosen@);
    let ghost wanted = group_indices(groups@);
    let mut k: usize = 0;
    assert(wanted.take(0) =~= Seq::<int>::empty());
    while k < groups.len()
        invariant
            k <= groups.len(),
            wanted == group_indices(groups@),
            group_indices(chosen@) == included(start, wanted.take(k as int)),
            forall|j: int| 0 <= j < chosen@.len() ==> chosen@[j] < bound,
            forall|j: int| 0 <= j < groups@.len() ==> groups@[j] < bound,
        decreases groups.len() - k,
    {
        let group = groups[k];
        let ghost before = group_indices(chosen@);
        proof {
            assert(wanted.take(k + 1).drop_last() =~= wanted.take(k as int));
            assert(wanted.take(k + 1).last() == group as int);
        }
        if !holds(chosen, group) {
            chosen.push(group);
            assert(group_indices(chosen@) =~= before.push(group as int));
        }
        k += 1;
    }
    assert(wanted.take(k as int) =~= wanted);
}

/// A rule set: named groups of rules and the ordered language map that
/// refers to them. It never changes once it is made.
pub struct Ruleset {
    groups: Vec<RuleGroup>,
    entries: Vec<LanguageMapEntry>,
}

impl View for Ruleset {
    type V = RulesetView;

    closed spec fn view(&self) -> RulesetView {
        RulesetView { groups: group_views(self.groups@), entries: entry_views(self.entries@) }
    }
}

/// Whether every group that the entry names is among the first `count`.
fn groups_exist(entry: &LanguageMapEntry, count: usize) -> (r: bool)
    ensures
        r == forall|k: int| 0 <= k < entry@.groups.len() ==> 0 <= #[trigger] entry@.groups[k] < count,
{
    let mut k: usize = 0;
    while k < entry.groups.len()
        invariant
            k <= entry.groups.len(),
            forall|j: int| 0 <= j < k ==> 0 <= #[trigger] entry@.groups[j] < count,
        decreases entry.groups.len() - k,
    {
        if entry.groups[k] >= count {
            assert(entry@.groups[k as int] >= count);
            return false;
        }
        k += 1;
    }
    true
}

impl Ruleset {
    #[verifier::type_invariant]
    spec fn references_resolve(self) -> bool {
        self@.well_formed()
    }

    /// A rule set of the given groups and entries, unless an entry names a
    /// group that does not exist.
    pub fn new(groups: Vec<RuleGroup>, entries: Vec<LanguageMapEntry>) -> (r: Option<Ruleset>)
        ensures
            match r {
                Some(ruleset) => ruleset@ == (RulesetView {
                    groups: group_views(groups@),
                    entries: entry_views(entries@),
                }) && ruleset@.well_formed(),
                None => !(RulesetView {
                    groups: group_views(groups@),
                    entries: entry_views(entries@),
                }).well_formed(),
            },
    {
        let ghost view = RulesetView {
            groups: group_views(groups@),
            entries: entry_views(entries@),
        };
        let mut i: usize = 0;
        while i < entries.len()
            invariant
                i <= entries.len(),
                view == (RulesetView {
                    groups: group_views(groups@),
                    entries: entry_views(entries@),
                }),
                forall|j: int, k: int|
                    0 <= j < i && 0 <= k < view.entries[j].groups.len() ==> 0 <= (
                    #[trigger] view.entries[j].groups[k]) < view.groups.len(),
            decreases entries.len() - i,
        {
            if !groups_exist(&entries[i], groups.len()) {
                proof {
                    let entry = view.entries[i as int];
                    let k = choose|k: int|
                        0 <= k < entry.groups.len() && !(0 <= #[trigger] entry.groups[k]
                            < groups.len());
                    assert(!(0 <= view.entries[i as int].groups[k] < view.groups.len()));
                }
                return None;
            }
            i += 1;
        }
        Some(Ruleset::from_parts(groups, entries))
    }

    /// A rule set of groups and entries that are known to fit together.
    pub(crate) fn from_parts(groups: Vec<RuleGroup>, entries: Vec<LanguageMapEntry>) -> (r: Ruleset)
        requires
            (RulesetView {
                groups: group_views(groups@),
                entries: entry_views(entries@),
            }).well_formed(),
        ensures
            r@ == (RulesetView { groups: group_views(groups@), entries: entry_views(entries@) }),
    {
        Ruleset { groups, entries }
    }

    /// How many groups the rule set holds.
    pub fn group_count(&self) -> (r: usize)
        ensures
            r == self@.groups.len(),
    {
        self.groups.len()
    }

    /// The group at `index`, if there is one.
    pub fn group(&self, index: usize) -> (r: Option<&RuleGroup>)
        ensures
            match r {
                Some(group) => index < self@.groups.len() && group@ == self@.groups[index as int],
                None => index >= self@.groups.len(),
            },
    {
        if index < self.groups.len() {
            Some(&self.groups[index])
        } else {
            None
        }
    }

    /// How many entries the language map holds.
    pub fn entry_count(&self) -> (r: usize)
        ensures
            r == self@.entries.len(),
    {
        self.entries.len()
    }

    /// The language map entry at `index`, if there is one.
    pub fn entry(&self, index: usize) -> (r: Option<&LanguageMapEntry>)
        ensures
            match r {
                Some(entry) => index < self@.entries.len() && entry@ == self@.entries[index as int],
                None => index >= self@.entries.len(),
            },
    {
        if index < self.entries.len() {
            Some(&self.entries[index])
        } else {
            None
        }
    }

    /// The groups that apply to the language code, in the order in which
    /// the language map brings them in.
    pub fn select(&self, code: &str) -> (chosen: Vec<usize>)
        ensures
            group_indices(chosen@) == selected_groups(self@.entries, code@),
            forall|k: int| 0 <= k < chosen@.len() ==> chosen@[k] < self@.groups.len(),
    {
        proof {
            use_type_invariant(self);
        }
        let ghost entries = self@.entries;
        let ghost bound = self.groups.len() as int;
        let mut chosen: Vec<usize> = Vec::new();
        let mut halted = false;
        let mut i: usize = 0;
        assert(group_indices(chosen@) =~= Seq::<int>::empty());
        while i < self.entries.len() && !halted
            invariant
                i <= self.entries.len(),
                entries == self@.entries,
                bound == self.groups.len(),
                self@.well_formed(),
                selection(entries, code@, i as int) == (Selection {
                    chosen: group_indices(chosen@),
                    halted,
                }),
                forall|k: int| 0 <= k < chosen@.len() ==> chosen@[k] < bound,
            decreases self.entries.len() - i,
        {
            let entry = &self.entries[i];
            assert(entry@ == entries[i as int]);
            if entry.matches(code) {
                proof {
                    assert forall|k: int| 0 <= k < entry.groups@.len() implies entry.groups@[k]
                        < bound by {
                        assert(entries[i as int].groups[k] == entry.groups@[k] as int);
                    }
                }
                add_groups(&mut chosen, &entry.groups, Ghost(bound));
                halted = entry.halt;
            }
            i += 1;
        }
        proof {
            if halted {
                halted_selection_is_final(entries, code@, i as int, entries.len() as int);
            }
        }
        chosen
    }

    /// The ordered rules that apply to the language code.
    ///
    /// Where no entry matches the code there are none, and splitting with
    /// them leaves every text whole.
    pub fn resolve(&self, code: &str) -> (r: ResolvedRules)
        ensures
            r@ == resolved(self@, code@),
    {
        let chosen = self.select(code);
        let ghost picks = group_indices(chosen@);
        let mut rules: Vec<Rule> = Vec::new();
        let mut k: usize = 0;
        proof {
            assert(picks.take(0) =~= Seq::<int>::empty());
            assert(Seq::new(0, |j: int| self@.groups[picks.take(0)[j]].rules) =~= Seq::<
                Seq<RuleView>,
            >::empty());
            assert(rule_views(rules@) =~= gathered(self@.groups, picks.take(0)));
        }
        while k < chosen.len()
            invariant
                k <= chosen.len(),
                picks == group_indices(chosen@),
                forall|j: int| 0 <= j < chosen@.len() ==> chosen@[j] < self@.groups.len(),
                rule_views(rules@) == gathered(self@.groups, picks.take(k as int)),
            decreases chosen.len() - k,
        {
            let group = &self.groups[chosen[k]];
            let ghost before = rule_views(rules@);
            let ghost wanted = group@.rules;
            let mut j: usize = 0;
            assert(before + wanted.take(0) =~= before);
            while j < group.rules.len()
                invariant
                    j <= group.rules.len(),
                    wanted == group@.rules,
                    rule_views(rules@) == before + wanted.take(j as int),
                decreases group.rules.len() - j,
            {
                let ghost sofar = rule_views(rules@);
                let rule = group.rules[j].clone();
                rules.push(rule);
                proof {
                    assert(rule_views(rules@) =~= sofar.push(wanted[j as int]));
                    assert(before + wanted.take(j + 1) =~= (before + wanted.take(j as int)).push(
                        wanted[j as int],
                    ));
                }
                j += 1;
            }
            proof {
                assert(wanted.take(j as int) =~= wanted);
                assert(picks.take(k + 1) =~= picks.take(k as int).push(picks[k as int]));
                gathered_push(self@.groups, picks.take(k as int), picks[k as int]);
                assert(self@.groups[picks[k as int]] == group@);
            }
            k += 1;
        }
        assert(picks.take(k as int) =~= picks);
        ResolvedRules::new(rules)
    }
}

} // verus!

