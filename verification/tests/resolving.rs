use srx_segmenter::ruleset::{LanguageMapEntry, RuleGroup, Ruleset};
use srx_segmenter::rules::Rule;
use srx_segmenter::source::{GroupSource, MapSource, ParseError, RuleSource, RulesetSource};

fn written_rule(before: &str, after: &str, breaks: bool) -> RuleSource {
    RuleSource { before: Some(before.to_string()), after: Some(after.to_string()), breaks }
}

fn group(name: &str, rules: Vec<RuleSource>) -> GroupSource {
    GroupSource { name: name.to_string(), rules }
}

fn map(pattern: &str, group: &str, halt: bool) -> MapSource {
    MapSource { pattern: pattern.to_string(), groups: vec![group.to_string()], halt }
}

fn compile(source: RulesetSource) -> Ruleset {
    match source.compile() {
        Ok((ruleset, _)) => ruleset,
        Err(error) => panic!("{}", error.message()),
    }
}

fn befores(ruleset: &Ruleset, code: &str) -> Vec<String> {
    let rules = ruleset.resolve(code);
    (0..rules.len()).map(|i| rules.get(i).expect("in range").before().to_string()).collect()
}

fn three_groups(halt_first: bool) -> RulesetSource {
    RulesetSource {
        groups: vec![
            group("english", vec![written_rule("Mr\\.", "\\s", false), written_rule("Dr\\.", "\\s", false)]),
            group("french", vec![written_rule("Mme\\.", "\\s", false)]),
            group("common", vec![written_rule("\\.", "\\s", true)]),
        ],
        maps: vec![
            map("en.*", "english", halt_first),
            map("fr.*", "french", false),
            map(".*", "common", false),
        ],
    }
}

#[test]
fn matching_entries_cascade_in_document_order() {
    let ruleset = compile(three_groups(false));
    assert_eq!(befores(&ruleset, "en"), vec!["Mr\\.", "Dr\\.", "\\."]);
    assert_eq!(befores(&ruleset, "fr"), vec!["Mme\\.", "\\."]);
    assert_eq!(befores(&ruleset, "de"), vec!["\\."]);
    assert_eq!(ruleset.select("en"), vec![0, 2]);
    assert_eq!(ruleset.select("fr_CA"), vec![1, 2]);
}

#[test]
fn halting_entry_keeps_later_entries_out() {
    let ruleset = compile(three_groups(true));
    assert_eq!(befores(&ruleset, "en"), vec!["Mr\\.", "Dr\\."]);
    assert_eq!(ruleset.select("en"), vec![0]);
    assert_eq!(befores(&ruleset, "fr"), vec!["Mme\\.", "\\."]);
    let rules = ruleset.resolve("en");
    assert_eq!(rules.split("Ask Mr. Smith. He knows."), vec!["Ask Mr. Smith. He knows.".to_string()]);
    let cascading = compile(three_groups(false)).resolve("en");
    assert_eq!(
        cascading.split("Ask Mr. Smith. He knows."),
        vec!["Ask Mr. Smith.".to_string(), " He knows.".to_string()]
    );
}

#[test]
fn language_codes_match_whole_and_without_case() {
    let ruleset = compile(three_groups(true));
    assert_eq!(ruleset.select("EN"), vec![0]);
    assert_eq!(ruleset.select("En-GB"), vec![0]);
    assert_eq!(ruleset.select("ben"), vec![2]);
}

#[test]
fn no_matching_entry_resolves_to_nothing() {
    let source = RulesetSource {
        groups: vec![group("english", vec![written_rule("\\.", "\\s", true)])],
        maps: vec![map("en", "english", false)],
    };
    let ruleset = compile(source);
    assert!(ruleset.select("xx").is_empty());
    let rules = ruleset.resolve("xx");
    assert_eq!(rules.len(), 0);
    assert_eq!(rules.split("Hello. World."), vec!["Hello. World.".to_string()]);
}

#[test]
fn a_group_is_resolved_once() {
    let source = RulesetSource {
        groups: vec![
            group("common", vec![written_rule("\\.", "\\s", true)]),
            group("english", vec![written_rule("Mr\\.", "\\s", false)]),
        ],
        maps: vec![
            map("en", "english", false),
            map("e.", "common", false),
            map(".*", "english", false),
            MapSource {
                pattern: "en".to_string(),
                groups: vec!["common".to_string(), "english".to_string(), "common".to_string()],
                halt: false,
            },
        ],
    };
    let ruleset = compile(source);
    assert_eq!(ruleset.select("en"), vec![1, 0]);
    assert_eq!(befores(&ruleset, "en"), vec!["Mr\\.", "\\."]);
    assert_eq!(ruleset.select("de"), vec![1]);
}

#[test]
fn refused_rule_is_dropped_and_noted() {
    let source = RulesetSource {
        groups: vec![group(
            "default",
            vec![written_rule("(?<=a)\\.", "\\s", true), written_rule("\\.", "\\s", true)],
        )],
        maps: vec![map("en", "default", false)],
    };
    let (ruleset, log) = match source.compile() {
        Ok(pair) => pair,
        Err(error) => panic!("{}", error.message()),
    };
    assert_eq!(befores(&ruleset, "en"), vec!["\\."]);
    assert_eq!(log.len(), 1);
    assert_eq!(log[0].group, "default");
    assert_eq!(log[0].messages.len(), 1);
    assert!(log[0].messages[0].contains("look-behind"));
    assert_eq!(ruleset.group_count(), 1);
    assert_eq!(ruleset.group(0).map(|group| group.len()), Some(1));
}

#[test]
fn rule_without_patterns_is_dropped_and_noted() {
    let source = RulesetSource {
        groups: vec![group(
            "default",
            vec![
                RuleSource { before: None, after: None, breaks: true },
                RuleSource { before: None, after: Some("\\n".to_string()), breaks: true },
            ],
        )],
        maps: vec![map(".*", "default", false)],
    };
    let (ruleset, log) = match source.compile() {
        Ok(pair) => pair,
        Err(error) => panic!("{}", error.message()),
    };
    assert_eq!(
        log[0].messages,
        vec!["a rule needs a pattern before or after the break".to_string()]
    );
    let rules = ruleset.resolve("any");
    assert_eq!(rules.len(), 1);
    assert_eq!(rules.split("a\nb"), vec!["a".to_string(), "\nb".to_string()]);
}

#[test]
fn unknown_group_fails_the_rule_set() {
    let source = RulesetSource {
        groups: vec![group("english", Vec::new())],
        maps: vec![map("en", "english", false), map("fr", "french", false)],
    };
    match source.compile() {
        Err(ParseError::UnknownGroup(name)) => assert_eq!(name, "french"),
        Err(other) => panic!("{}", other.message()),
        Ok(_) => panic!("the group does not exist"),
    }
}

#[test]
fn refused_language_pattern_fails_the_rule_set() {
    let source = RulesetSource {
        groups: vec![group("english", Vec::new())],
        maps: vec![map("(en", "english", false)],
    };
    match source.compile() {
        Err(ParseError::LanguagePattern(message)) => assert!(message.contains("unclosed group")),
        Err(other) => panic!("{}", other.message()),
        Ok(_) => panic!("the pattern does not compile"),
    }
}

#[test]
fn last_group_of_a_name_is_the_one_meant() {
    let source = RulesetSource {
        groups: vec![
            group("same", vec![written_rule("first", "", true)]),
            group("same", vec![written_rule("second", "", true)]),
        ],
        maps: vec![map(".*", "same", false)],
    };
    let ruleset = compile(source);
    assert_eq!(ruleset.select("en"), vec![1]);
    assert_eq!(befores(&ruleset, "en"), vec!["second"]);
}

#[test]
fn rule_set_of_parts_checks_its_references() {
    let rule = Rule::new("\\.", "\\s", true).ok().expect("compiles");
    let groups = vec![RuleGroup::new("only".to_string(), vec![rule])];
    let entry = LanguageMapEntry::new("en", vec![0], true).ok().expect("compiles");
    assert_eq!(entry.pattern(), "en");
    assert!(entry.halt());
    assert!(entry.matches("EN"));
    assert!(!entry.matches("end"));
    let ruleset = Ruleset::new(groups, vec![entry]).expect("group 0 exists");
    assert_eq!(ruleset.entry_count(), 1);
    assert_eq!(ruleset.group(0).map(|group| group.name().to_string()), Some("only".to_string()));
    assert!(ruleset.entry(1).is_none());
    assert_eq!(ruleset.resolve("en").len(), 1);

    let dangling = LanguageMapEntry::new("en", vec![1], true).ok().expect("compiles");
    assert!(Ruleset::new(vec![RuleGroup::new("only".to_string(), Vec::new())], vec![dangling]).is_none());
    assert!(LanguageMapEntry::new("e(n", Vec::new(), false).is_err());
}

#[test]
fn errors_read_as_sentences() {
    assert_eq!(ParseError::Missing("maprules".to_string()).message(), "missing in rule set: maprules");
    assert_eq!(
        ParseError::UnknownGroup("french".to_string()).message(),
        "language map names an unknown group: french"
    );
    assert_eq!(ParseError::InvalidFlag("maybe".to_string()).message(), "expected 'yes' or 'no', found: maybe");
    assert_eq!(ParseError::Malformed("x".to_string()).message(), "malformed rule set: x");
    assert_eq!(ParseError::Unexpected("maprule".to_string()).message(), "out of place in rule set: maprule");
    assert_eq!(ParseError::LanguagePattern("x".to_string()).message(), "unusable language pattern: x");
}
