use srx_segmenter::source::{GroupSource, MapSource, RuleSource, RulesetSource};

fn rule(before: &str, after: &str, breaks: bool) -> RuleSource {
    RuleSource { before: Some(before.to_string()), after: Some(after.to_string()), breaks }
}

fn english() -> RulesetSource {
    RulesetSource {
        groups: vec![GroupSource {
            name: "default".to_string(),
            rules: vec![rule("Mr\\.$", "^\\s", false), rule("\\.$", "^\\s", true)],
        }],
        maps: vec![MapSource {
            pattern: "en".to_string(),
            groups: vec!["default".to_string()],
            halt: true,
        }],
    }
}

#[test]
fn exception_suppresses_first_boundary() {
    let (ruleset, log) = match english().compile() {
        Ok(pair) => pair,
        Err(error) => panic!("{}", error.message()),
    };
    assert_eq!(log.len(), 1);
    assert!(log[0].messages.is_empty());
    let rules = ruleset.resolve("en");
    assert_eq!(rules.len(), 2);
    assert_eq!(
        rules.split("Mr. Smith went home. He left."),
        vec!["Mr. Smith went home.".to_string(), " He left.".to_string()]
    );
}

#[test]
fn unmatched_language_leaves_text_whole() {
    let (ruleset, _log) = match english().compile() {
        Ok(pair) => pair,
        Err(error) => panic!("{}", error.message()),
    };
    let rules = ruleset.resolve("xx");
    assert!(rules.is_empty());
    assert_eq!(rules.split("Hello. World."), vec!["Hello. World.".to_string()]);
}
