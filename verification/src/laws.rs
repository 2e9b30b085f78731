//! What holds across parsing, resolving and splitting.
use vstd::prelude::*;
use crate::pattern::{pattern_error, pattern_matches, Anchor};
use crate::rules::RuleView;
use crate::ruleset::{
    gathered,
    included,
    resolved,
    selected_groups,
    selection,
    unmatched_language_resolves_empty,
    LanguageMapEntryView,
    RulesetView,
};
use crate::segment::{no_rules_one_segment, segments};
use crate::source::{
    compiled,
    compiled_entries,
    compiled_entry,
    dropped_rules,
    group_named,
    groups_named,
    usable_rules,
    GroupErrorsView,
    GroupSourceView,
    MapSourceView,
    ParseErrorView,
    RuleSourceView,
    RulesetSourceView,
};

verus! {

/// A language that no entry of the language map matches resolves to no
/// rule, and every text is then a single segment: itself.
pub proof fn unmatched_language_leaves_text_whole(
    ruleset: RulesetView,
    code: Seq<char>,
    text: Seq<char>,
)
    requires
        forall|i: int| 0 <= i < ruleset.entries.len() ==> !(#[trigger] ruleset.entries[i]).matches(
            code,
        ),
    ensures
        resolved(ruleset, code).len() == 0,
        segments(resolved(ruleset, code), text) == seq![text],
{
    unmatched_language_resolves_empty(ruleset, code);
    no_rules_one_segment(resolved(ruleset, code), text);
}

/// Whenever a language resolves to no rule, every text is a single
/// segment: itself.
pub proof fn empty_resolution_leaves_text_whole(
    ruleset: RulesetView,
    code: Seq<char>,
    text: Seq<char>,
)
    requires
        resolved(ruleset, code).len() == 0,
    ensures
        segments(resolved(ruleset, code), text) == seq![text],
{
    no_rules_one_segment(resolved(ruleset, code), text);
}

/// The written rule set of one group, with one rule that the engine
/// refuses and one that it accepts, and of one language map entry for that
/// group.
pub open spec fn two_rule_source(
    name: Seq<char>,
    bad: RuleSourceView,
    good: RuleSourceView,
    pattern: Seq<char>,
    halt: bool,
) -> RulesetSourceView {
    RulesetSourceView {
        groups: seq![GroupSourceView { name, rules: seq![bad, good] }],
        maps: seq![MapSourceView { pattern, groups: seq![name], halt }],
    }
}

/// Graceful degradation: a rule set with one rule that the engine refuses
/// and one that it accepts still compiles. For a language that its entry
/// matches, the rules resolved are the accepted rule alone, and the log
/// holds the engine's words on the refused one under the group's name.
pub proof fn refused_rule_is_left_out(
    name: Seq<char>,
    bad: RuleSourceView,
    good: RuleSourceView,
    pattern: Seq<char>,
    halt: bool,
    code: Seq<char>,
)
    requires
        bad.error() is Some,
        good.error() is None,
        pattern_error(pattern, Anchor::Whole) is None,
        pattern_matches(pattern, Anchor::Whole, code),
    ensures
        compiled(two_rule_source(name, bad, good, pattern, halt)) is Ok,
        resolved(compiled(two_rule_source(name, bad, good, pattern, halt))->Ok_0.ruleset, code)
            == seq![good.compiled()],
        compiled(two_rule_source(name, bad, good, pattern, halt))->Ok_0.log
            == seq![GroupErrorsView { group: name, messages: seq![bad.error()->Some_0] }],
{
    let source = two_rule_source(name, bad, good, pattern, halt);
    let rules = seq![bad, good];
    let none = Seq::<RuleSourceView>::empty();
    assert(rules.drop_last() =~= seq![bad]);
    assert(seq![bad].drop_last() =~= none);
    assert(usable_rules(none) =~= Seq::<RuleView>::empty());
    assert(usable_rules(seq![bad]) =~= Seq::<RuleView>::empty());
    assert(usable_rules(rules) =~= seq![good.compiled()]);
    assert(dropped_rules(none) =~= Seq::<Seq<char>>::empty());
    assert(dropped_rules(seq![bad]) =~= seq![bad.error()->Some_0]);
    assert(dropped_rules(rules) =~= seq![bad.error()->Some_0]);

    let names = seq![name];
    assert(names.drop_last() =~= Seq::<Seq<char>>::empty());
    assert(groups_named(source.groups, names.drop_last()) == Ok::<
        Seq<int>,
        ParseErrorView,
    >(Seq::<int>::empty()));
    assert(group_named(source.groups, name, 1) == Some(0int));
    assert(groups_named(source.groups, names) == Ok::<Seq<int>, ParseErrorView>(
        Seq::<int>::empty().push(0int),
    ));
    let entry = LanguageMapEntryView { pattern, groups: Seq::<int>::empty().push(0int), halt };
    let map = source.maps[0];
    assert(compiled_entry(source.groups, map) == Ok::<
        LanguageMapEntryView,
        ParseErrorView,
    >(entry));
    assert(source.maps.drop_last() =~= Seq::<MapSourceView>::empty());
    assert(compiled_entries(source.groups, source.maps.drop_last()) == Ok::<
        Seq<LanguageMapEntryView>,
        ParseErrorView,
    >(Seq::<LanguageMapEntryView>::empty()));
    let entries = Seq::<LanguageMapEntryView>::empty().push(entry);
    assert(compiled_entries(source.groups, source.maps) == Ok::<
        Seq<LanguageMapEntryView>,
        ParseErrorView,
    >(entries));

    let built = compiled(source)->Ok_0;
    assert(built.ruleset.entries == entries);
    assert(built.log =~= seq![
        GroupErrorsView { group: name, messages: seq![bad.error()->Some_0] },
    ]);

    let first = selection(entries, code, 0);
    assert(first.chosen =~= Seq::<int>::empty());
    assert(entry.groups.drop_last() =~= Seq::<int>::empty());
    assert(included(first.chosen, entry.groups.drop_last()) =~= Seq::<int>::empty());
    assert(!Seq::<int>::empty().contains(0int));
    assert(included(first.chosen, entry.groups) =~= seq![0int]);
    assert(selection(entries, code, 1).chosen == seq![0int]);
    assert(selected_groups(entries, code) == seq![0int]);
    let lists = Seq::new(1, |k: int| built.ruleset.groups[seq![0int][k]].rules);
    lists.lemma_flatten_singleton();
    assert(gathered(built.ruleset.groups, seq![0int]) == lists.flatten());
    assert(lists[0] == usable_rules(rules));
}

} // verus!
