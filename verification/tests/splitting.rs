use srx_segmenter::pattern::{translate, Anchor, Matcher};
use srx_segmenter::rules::{ResolvedRules, Rule};
use srx_segmenter::segment::render;

fn rule(before: &str, after: &str, breaks: bool) -> Rule {
    match Rule::new(before, after, breaks) {
        Ok(rule) => rule,
        Err(message) => panic!("{}", message),
    }
}

fn sentence_rules() -> ResolvedRules {
    ResolvedRules::new(vec![
        rule("\\sMr\\.", "\\s", false),
        rule("[.?!]+", "\\s", true),
    ])
}

#[test]
fn segments_join_to_the_text() {
    let rules = sentence_rules();
    for text in [
        "",
        "a",
        ". ",
        "One. Two? Three! Four",
        "Ask Mr. Smith. He knows.",
        "Ünïcödé text. Más texto: ¿sí? Да. 日本語。",
        "  leading. and trailing.  ",
    ] {
        let segments = rules.split(text);
        assert_eq!(segments.concat(), text);
        assert!(!segments.is_empty());
    }
}

#[test]
fn splitting_twice_gives_the_same_segments() {
    let rules = sentence_rules();
    let text = "One. Two? Three! Ask Mr. Smith. Done.";
    assert_eq!(rules.split(text), rules.split(text));
    assert_eq!(rules.boundaries(text), rules.boundaries(text));
}

#[test]
fn no_rules_no_split() {
    let rules = ResolvedRules::new(Vec::new());
    assert!(rules.is_empty());
    assert_eq!(rules.len(), 0);
    assert_eq!(rules.split("Hello. World."), vec!["Hello. World.".to_string()]);
    assert!(rules.boundaries("Hello. World.").is_empty());
}

#[test]
fn empty_text_is_one_empty_segment() {
    assert_eq!(sentence_rules().split(""), vec![String::new()]);
    assert_eq!(ResolvedRules::new(Vec::new()).split(""), vec![String::new()]);
}

#[test]
fn earlier_exception_beats_later_break() {
    let exception_first = ResolvedRules::new(vec![
        rule("\\.", "\\s", false),
        rule("\\.", "\\s", true),
    ]);
    assert_eq!(exception_first.split("One. Two."), vec!["One. Two.".to_string()]);
    assert!(!exception_first.breaks_between("One.", " Two."));

    let break_first = ResolvedRules::new(vec![
        rule("\\.", "\\s", true),
        rule("\\.", "\\s", false),
    ]);
    assert_eq!(break_first.split("One. Two."), vec!["One.".to_string(), " Two.".to_string()]);
    assert!(break_first.breaks_between("One.", " Two."));
}

#[test]
fn break_rules_alone_break_only_where_they_apply() {
    let rules = ResolvedRules::new(vec![rule("!", "", true)]);
    assert_eq!(
        rules.split("Hey! You. There!Now"),
        vec!["Hey!".to_string(), " You. There!".to_string(), "Now".to_string()]
    );
    assert_eq!(rules.boundaries("Hey! You. There!Now"), vec![4, 16]);
}

#[test]
fn delimiter_stays_left_and_whitespace_goes_right() {
    let segments = sentence_rules().split("One.  Two.");
    assert_eq!(segments, vec!["One.".to_string(), "  Two.".to_string()]);
}

#[test]
fn the_ends_of_the_text_are_no_boundaries() {
    let everywhere = ResolvedRules::new(vec![rule("", "", true)]);
    assert_eq!(everywhere.split("abc"), vec!["a".to_string(), "b".to_string(), "c".to_string()]);
    assert_eq!(everywhere.boundaries("abc"), vec![1, 2]);
    assert_eq!(everywhere.split("a"), vec!["a".to_string()]);
    let at_end = ResolvedRules::new(vec![rule("\\.", "", true)]);
    assert_eq!(at_end.split("End."), vec!["End.".to_string()]);
}

#[test]
fn boundaries_count_characters_not_bytes() {
    let rules = ResolvedRules::new(vec![rule("。", "", true)]);
    assert_eq!(rules.boundaries("日本語。英語。"), vec![4]);
    assert_eq!(rules.split("日本語。英語。"), vec!["日本語。".to_string(), "英語。".to_string()]);
}

#[test]
fn patterns_see_the_whole_text_on_their_side() {
    let rules = ResolvedRules::new(vec![
        rule("^\\s*[0-9]+\\.", "\\s", false),
        rule("\\.", "\\s", true),
    ]);
    assert_eq!(
        rules.split("1. First item. 2. Second."),
        vec!["1. First item.".to_string(), " 2.".to_string(), " Second.".to_string()]
    );
}

#[test]
fn rule_reports_what_it_was_made_of() {
    let made = rule("a+", "b", false);
    assert_eq!(made.before(), "a+");
    assert_eq!(made.after(), "b");
    assert!(!made.breaks());
    assert!(made.applies("caa", "bd"));
    assert!(!made.applies("caa", "db"));
    assert!(!made.applies("aac", "bd"));
    let copy = made.clone();
    assert_eq!(copy.before(), "a+");
    assert!(copy.applies("a", "b"));
    let rules = ResolvedRules::new(vec![made, copy]);
    assert_eq!(rules.get(1).map(|rule| rule.after().to_string()), Some("b".to_string()));
    assert!(rules.get(2).is_none());
}

#[test]
fn refused_pattern_is_reported() {
    let refused = Rule::new("(?=lookahead)", "", true);
    match refused {
        Ok(_) => panic!("a look-ahead is not in the engine's dialect"),
        Err(message) => {
            assert!(message.contains("look-ahead"));
            assert_ne!(message, "(?=lookahead)");
        }
    }
    assert!(Rule::new("", "(", true).is_err());
    assert!(Rule::new("a)|(b", "", true).is_err());
}

#[test]
fn translation_pins_the_pattern() {
    assert_eq!(translate("a|b", Anchor::End), "(?:a|b)\\z");
    assert_eq!(translate("a|b", Anchor::Start), "\\A(?:a|b)");
    assert_eq!(translate("a|b", Anchor::Whole), "(?i)\\A(?:a|b)\\z");
}

#[test]
fn matcher_follows_its_anchor() {
    let end = Matcher::new("a|b", Anchor::End).ok().expect("compiles");
    assert!(end.accepts("xa"));
    assert!(end.accepts("xb"));
    assert!(!end.accepts("ax"));
    assert_eq!(end.pattern(), "a|b");
    assert_eq!(end.anchor(), Anchor::End);
    let start = Matcher::new("a|b", Anchor::Start).ok().expect("compiles");
    assert!(start.accepts("bx"));
    assert!(!start.accepts("xb"));
    let whole = Matcher::new("en.*", Anchor::Whole).ok().expect("compiles");
    assert!(whole.accepts("en"));
    assert!(whole.accepts("EN-us"));
    assert!(!whole.accepts("ben"));
    let copy = whole.clone();
    assert!(copy.accepts("En"));
    assert!(!copy.accepts("de"));
}

#[test]
fn segments_are_written_one_per_line() {
    assert_eq!(render(&vec!["One.".to_string(), " Two.".to_string()]), "One.\n Two.\n");
    assert_eq!(render(&vec![String::new()]), "\n");
    assert_eq!(render(&Vec::new()), "");
}
