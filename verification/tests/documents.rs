use srx_segmenter::document::{interpret, parse, read_source};
use srx_segmenter::markup::{Attribute, MarkupEvent};
use srx_segmenter::source::ParseError;
use std::str::FromStr;

const EXAMPLE: &str = r#"<?xml version="1.0"?>
<srx version="2.0"
	xmlns="http://www.lisa.org/srx20"
	xsi:schemaLocation="http://www.lisa.org/srx20 srx20.xsd"
	xmlns:xsi="http://www.w3.org/2001/XMLSchema-instance">
    <header segmentsubflows="yes" cascade="yes">
        <formathandle type="start" include="no"/>
        <formathandle type="end" include="yes"/>
        <formathandle type="isolated" include="yes"/>
    </header>
    <body>
        <languagerules>
            <languagerule languagerulename="Default">
                <!-- Common rules for most languages -->
                <rule break="no">
                    <beforebreak>^\s*[0-9]+\.</beforebreak>
                    <afterbreak>\s</afterbreak>
                </rule>
                <rule break="yes">
                    <afterbreak>\n</afterbreak>
                </rule>
                <rule break="yes">
                    <beforebreak>[\.\?!]+</beforebreak>
                    <afterbreak>\s</afterbreak>
                </rule>
            </languagerule>
            <languagerule languagerulename="English">
                <rule break="no">
                    <beforebreak>\s[Ee][Tt][Cc]\.</beforebreak>
                    <afterbreak>\s[a-z]</afterbreak>
                </rule>
                <rule break="no">
                    <beforebreak>\sMr\.</beforebreak>
                    <afterbreak>\s</afterbreak>
                </rule>
                <rule break="no">
                    <beforebreak>\sU\.K\.</beforebreak>
                    <afterbreak>\s</afterbreak>
                </rule>
            </languagerule>
            <languagerule languagerulename="French">
                <rule break="no">
                    <beforebreak>\s[Mm]lle\.</beforebreak>
                    <afterbreak>\s</afterbreak>
                </rule>
            </languagerule>
        </languagerules>
        <maprules>
            <languagemap languagepattern="[Ee][Nn].*" languagerulename="English"/>
            <languagemap languagepattern="[Ff][Rr].*" languagerulename="French"/>
            <languagemap languagepattern=".*" languagerulename="Default"/>
        </maprules>
    </body>
</srx>
"#;

fn document(cascade: &str, rules: &str, maps: &str) -> String {
    format!(
        "<srx><header cascade=\"{}\"/><body><languagerules>{}</languagerules><maprules>{}</maprules></body></srx>",
        cascade, rules, maps
    )
}

fn open(name: &str, attributes: Vec<(&str, &str)>) -> MarkupEvent {
    MarkupEvent::Open {
        name: name.to_string(),
        attributes: attributes
            .into_iter()
            .map(|(name, value)| Attribute::new(name.to_string(), value.to_string()))
            .collect(),
    }
}

fn text(text: &str) -> MarkupEvent {
    MarkupEvent::Text(text.to_string())
}

#[test]
fn example_document_parses_and_splits() {
    let (ruleset, log) = match parse(EXAMPLE) {
        Ok(pair) => pair,
        Err(error) => panic!("{}", error.message()),
    };
    assert_eq!(ruleset.group_count(), 3);
    assert_eq!(ruleset.entry_count(), 3);
    assert_eq!(log.len(), 3);
    assert_eq!(log[0].group, "Default");
    assert!(log.iter().all(|group| group.messages.is_empty()));
    assert_eq!(ruleset.select("en"), vec![1, 0]);
    assert_eq!(ruleset.select("fr"), vec![2, 0]);
    assert_eq!(ruleset.select("ja"), vec![0]);
    let english = ruleset.resolve("en");
    assert_eq!(english.len(), 6);
    assert_eq!(
        english.split("The U.K. Prime Minister, Mr. Blair, was seen out with his family today. He is well."),
        vec![
            "The U.K. Prime Minister, Mr. Blair, was seen out with his family today.".to_string(),
            " He is well.".to_string()
        ]
    );
    let french = ruleset.resolve("fr");
    assert_eq!(
        french.split("Mr. Blair is here. Good."),
        vec!["Mr.".to_string(), " Blair is here.".to_string(), " Good.".to_string()]
    );
}

#[test]
fn agrees_with_the_srx_crate_on_its_example() {
    let (ruleset, _) = match parse(EXAMPLE) {
        Ok(pair) => pair,
        Err(error) => panic!("{}", error.message()),
    };
    let reference = srx::SRX::from_str(EXAMPLE).ok().expect("the example is valid");
    for code in ["en", "fr", "de"] {
        let ours = ruleset.resolve(code);
        let theirs = reference.language_rules(code);
        assert_eq!(ours.len(), theirs.len());
        for line in [
            "The U.K. Prime Minister, Mr. Blair, was seen out with his family today. He is well.",
            "Hello. World.",
            "1. First point. 2. Second point! Is that all? Yes, etc. and so on.",
            "La Mlle. Dupont est ici. Bien.",
            "No boundary here",
        ] {
            let expected: Vec<String> = theirs.split(line).map(|part| part.to_string()).collect();
            assert_eq!(ours.split(line), expected);
        }
    }
}

#[test]
fn refused_rule_does_not_fail_the_document() {
    let rules = "<languagerule languagerulename=\"default\">\
        <rule break=\"yes\"><beforebreak>(?&lt;!Mr)\\.</beforebreak><afterbreak>\\s</afterbreak></rule>\
        <rule break=\"yes\"><beforebreak>\\.</beforebreak><afterbreak>\\s</afterbreak></rule>\
        </languagerule>";
    let maps = "<languagemap languagepattern=\"en\" languagerulename=\"default\"/>";
    let (ruleset, log) = match parse(&document("yes", rules, maps)) {
        Ok(pair) => pair,
        Err(error) => panic!("{}", error.message()),
    };
    let resolved = ruleset.resolve("en");
    assert_eq!(resolved.len(), 1);
    assert_eq!(resolved.get(0).map(|rule| rule.before().to_string()), Some("\\.".to_string()));
    assert_eq!(log.len(), 1);
    assert_eq!(log[0].group, "default");
    assert_eq!(log[0].messages.len(), 1);
    assert!(log[0].messages[0].contains("look-behind"));
    assert_eq!(resolved.split("One. Two."), vec!["One.".to_string(), " Two.".to_string()]);
}

#[test]
fn cascade_flag_decides_whether_entries_halt() {
    let rules = "<languagerule languagerulename=\"a\"><rule break=\"no\"><beforebreak>Mr\\.</beforebreak></rule></languagerule>\
        <languagerule languagerulename=\"b\"><rule break=\"yes\"><beforebreak>\\.</beforebreak><afterbreak>\\s</afterbreak></rule></languagerule>";
    let maps = "<languagemap languagepattern=\"en\" languagerulename=\"a\"/>\
        <languagemap languagepattern=\".*\" languagerulename=\"b\"/>";
    let cascading = parse(&document("yes", rules, maps)).ok().expect("valid").0;
    assert_eq!(cascading.select("en"), vec![0, 1]);
    assert_eq!(cascading.entry(0).map(|entry| entry.halt()), Some(false));
    let halting = parse(&document("no", rules, maps)).ok().expect("valid").0;
    assert_eq!(halting.select("en"), vec![0]);
    assert_eq!(halting.select("de"), vec![1]);
    assert_eq!(halting.entry(0).map(|entry| entry.halt()), Some(true));
}

#[test]
fn malformed_markup_fails() {
    for broken in ["", "<srx>", "<srx><header cascade=\"yes\"></srx>", "not markup", "<srx></srx><srx></srx>"] {
        match parse(broken) {
            Err(ParseError::Malformed(message)) => assert!(!message.is_empty()),
            Err(other) => panic!("{}", other.message()),
            Ok(_) => panic!("not a document: {}", broken),
        }
    }
}

#[test]
fn missing_parts_fail() {
    let cases = [
        ("<rules/>", "srx"),
        ("<srx><body><languagerules/><maprules/></body></srx>", "header"),
        ("<srx><header/><body><languagerules/><maprules/></body></srx>", "cascade"),
        ("<srx><header cascade=\"yes\"/><body><maprules/></body></srx>", "languagerules"),
        ("<srx><header cascade=\"yes\"/><body><languagerules/></body></srx>", "maprules"),
        ("<srx><header cascade=\"yes\"/></srx>", "languagerules"),
        (
            "<srx><header cascade=\"yes\"/><body><languagerules><languagerule/></languagerules><maprules/></body></srx>",
            "languagerulename",
        ),
        (
            "<srx><header cascade=\"yes\"/><body><languagerules><languagerule languagerulename=\"a\"><rule/></languagerule></languagerules><maprules/></body></srx>",
            "break",
        ),
        (
            "<srx><header cascade=\"yes\"/><body><languagerules/><maprules><languagemap languagerulename=\"a\"/></maprules></body></srx>",
            "languagepattern",
        ),
        (
            "<srx><header cascade=\"yes\"/><body><languagerules/><maprules><languagemap languagepattern=\"a\"/></maprules></body></srx>",
            "languagerulename",
        ),
    ];
    for (text, lacking) in cases {
        match parse(text) {
            Err(ParseError::Missing(name)) => assert_eq!(name, lacking),
            Err(other) => panic!("{}", other.message()),
            Ok(_) => panic!("{} is missing", lacking),
        }
    }
}

#[test]
fn unknown_elements_in_the_body_fail() {
    let cases = [
        ("<srx><header cascade=\"yes\"/><body><rules/></body></srx>", "rules"),
        (&document("yes", "<rule break=\"yes\"/>", ""), "rule"),
        (&document("yes", "<languagerule languagerulename=\"a\"><languagemap/></languagerule>", ""), "languagemap"),
        (
            &document("yes", "<languagerule languagerulename=\"a\"><rule break=\"no\"><before/></rule></languagerule>", ""),
            "before",
        ),
        (
            &document(
                "yes",
                "<languagerule languagerulename=\"a\"><rule break=\"no\"><beforebreak>a<b/></beforebreak></rule></languagerule>",
                "",
            ),
            "b",
        ),
        (&document("yes", "", "<maprule maprulename=\"x\"><languagemap languagepattern=\"en\" languagerulename=\"a\"/></maprule>"), "maprule"),
        (&document("yes", "", "<languagemap languagepattern=\"en\" languagerulename=\"a\"><rule/></languagemap>"), "rule"),
    ];
    for (text, stray) in cases {
        match parse(text) {
            Err(ParseError::Unexpected(name)) => assert_eq!(name, stray),
            Err(other) => panic!("{}", other.message()),
            Ok(_) => panic!("{} is out of place", stray),
        }
    }
}

#[test]
fn unknown_elements_outside_the_body_are_passed_over() {
    let text = "<srx><note><body><maprules/></body></note>\
        <header cascade=\"no\"><formathandle type=\"start\"><header/></formathandle></header>\
        <body><languagerules/><maprules/></body><trailer/></srx>";
    let (ruleset, log) = match parse(text) {
        Ok(pair) => pair,
        Err(error) => panic!("{}", error.message()),
    };
    assert_eq!(ruleset.group_count(), 0);
    assert_eq!(ruleset.entry_count(), 0);
    assert!(log.is_empty());
}

#[test]
fn flags_say_yes_or_no() {
    match parse(&document("maybe", "", "")) {
        Err(ParseError::InvalidFlag(value)) => assert_eq!(value, "maybe"),
        _ => panic!("cascade is neither yes nor no"),
    }
    let rules = "<languagerule languagerulename=\"a\"><rule break=\"Yes\"/></languagerule>";
    match parse(&document("no", rules, "")) {
        Err(ParseError::InvalidFlag(value)) => assert_eq!(value, "Yes"),
        _ => panic!("break is neither yes nor no"),
    }
}

#[test]
fn dangling_group_fails_the_document() {
    let maps = "<languagemap languagepattern=\"en\" languagerulename=\"nowhere\"/>";
    match parse(&document("yes", "", maps)) {
        Err(ParseError::UnknownGroup(name)) => assert_eq!(name, "nowhere"),
        _ => panic!("the group does not exist"),
    }
}

#[test]
fn refused_language_pattern_fails_the_document() {
    let rules = "<languagerule languagerulename=\"a\"/>";
    let maps = "<languagemap languagepattern=\"e[n\" languagerulename=\"a\"/>";
    match parse(&document("yes", rules, maps)) {
        Err(ParseError::LanguagePattern(message)) => assert!(message.contains("unclosed character class")),
        _ => panic!("the pattern does not compile"),
    }
}

#[test]
fn events_are_read_by_nesting() {
    let events = vec![
        MarkupEvent::Other,
        open("srx", vec![("version", "2.0")]),
        open("header", vec![("segmentsubflows", "yes"), ("cascade", "no")]),
        open("formathandle", vec![]),
        open("rule", vec![]),
        text("passed over"),
        MarkupEvent::Close,
        MarkupEvent::Close,
        MarkupEvent::Close,
        open("extension", vec![]),
        open("languagemap", vec![("languagepattern", "xx")]),
        MarkupEvent::Close,
        MarkupEvent::Close,
        open("body", vec![]),
        text("stray text"),
        open("languagerules", vec![]),
        open("languagerule", vec![("languagerulename", "g")]),
        open("rule", vec![("break", "no")]),
        open("beforebreak", vec![]),
        text("Mr"),
        MarkupEvent::Other,
        text("\\."),
        MarkupEvent::Close,
        open("afterbreak", vec![]),
        MarkupEvent::Close,
        MarkupEvent::Close,
        open("rule", vec![("break", "yes")]),
        MarkupEvent::Close,
        MarkupEvent::Close,
        MarkupEvent::Close,
        open("maprules", vec![]),
        open("languagemap", vec![("languagepattern", "en"), ("languagerulename", "g")]),
        MarkupEvent::Close,
        MarkupEvent::Close,
        MarkupEvent::Close,
        MarkupEvent::Close,
        MarkupEvent::Other,
    ];
    let source = match read_source(&events) {
        Ok(source) => source,
        Err(error) => panic!("{}", error.message()),
    };
    assert_eq!(source.groups.len(), 1);
    assert_eq!(source.groups[0].name, "g");
    assert_eq!(source.groups[0].rules.len(), 2);
    assert_eq!(source.groups[0].rules[0].before, Some("Mr\\.".to_string()));
    assert_eq!(source.groups[0].rules[0].after, Some(String::new()));
    assert!(!source.groups[0].rules[0].breaks);
    assert_eq!(source.groups[0].rules[1].before, None);
    assert_eq!(source.groups[0].rules[1].after, None);
    assert!(source.groups[0].rules[1].breaks);
    assert_eq!(source.maps.len(), 1);
    assert_eq!(source.maps[0].pattern, "en");
    assert_eq!(source.maps[0].groups, vec!["g".to_string()]);
    assert!(source.maps[0].halt);

    let (ruleset, log) = match interpret(&events) {
        Ok(pair) => pair,
        Err(error) => panic!("{}", error.message()),
    };
    assert_eq!(ruleset.resolve("en").len(), 1);
    assert_eq!(log[0].messages.len(), 1);
}

#[test]
fn events_that_do_not_nest_fail() {
    match read_source(&vec![MarkupEvent::Close]) {
        Err(ParseError::Malformed(message)) => assert_eq!(message, "an element closes that was not opened"),
        _ => panic!("nothing was open"),
    }
    match read_source(&vec![open("srx", vec![]), open("body", vec![])]) {
        Err(ParseError::Malformed(message)) => assert_eq!(message, "the document ends inside an element"),
        _ => panic!("the root is still open"),
    }
    match read_source(&vec![open("srx", vec![]), MarkupEvent::Close, open("srx", vec![])]) {
        Err(ParseError::Malformed(message)) => assert_eq!(message, "content after the rule set"),
        _ => panic!("there is a second root"),
    }
    match read_source(&Vec::new()) {
        Err(ParseError::Missing(name)) => assert_eq!(name, "srx"),
        _ => panic!("there is no root"),
    }
    let headless = vec![
        open("srx", vec![]),
        open("body", vec![]),
        open("maprules", vec![]),
        open("languagemap", vec![("languagepattern", "en"), ("languagerulename", "g")]),
    ];
    match read_source(&headless) {
        Err(ParseError::Missing(name)) => assert_eq!(name, "header"),
        _ => panic!("the header has to come first"),
    }
}
