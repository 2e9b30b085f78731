use srx_segmenter::cursor::Cursor;
use srx_segmenter::rules::{ResolvedRules, Rule};

#[test]
fn cursor_passes_characters_of_every_width() {
    let text = "aé日😀z";
    let mut cursor = Cursor::new(text);
    let mut seen = Vec::new();
    while !cursor.at_end() {
        let (left, right) = cursor.sides();
        seen.push((cursor.position(), left.to_string(), right.to_string()));
        cursor.advance();
    }
    assert_eq!(
        seen,
        vec![
            (0, "".to_string(), "aé日😀z".to_string()),
            (1, "a".to_string(), "é日😀z".to_string()),
            (2, "aé".to_string(), "日😀z".to_string()),
            (3, "aé日".to_string(), "😀z".to_string()),
            (4, "aé日😀".to_string(), "z".to_string()),
        ]
    );
    assert_eq!(cursor.position(), 5);
    assert_eq!(cursor.sides(), ("aé日😀z", ""));
    assert_eq!(cursor.text(), text);
}

#[test]
fn cursor_on_the_empty_text_is_at_its_end() {
    let cursor = Cursor::new("");
    assert!(cursor.at_end());
    assert_eq!(cursor.position(), 0);
    assert_eq!(cursor.sides(), ("", ""));
}

#[test]
fn long_line_is_split_in_one_walk() {
    let rule = Rule::new("[.?!]", "\\s", true).ok().expect("compiles");
    let rules = ResolvedRules::new(vec![rule]);
    let sentence = "Ünïcödé sentence number one is here. ";
    let text = sentence.repeat(2000);
    let segments = rules.split(&text);
    assert_eq!(segments.len(), 2001);
    assert_eq!(segments[0], "Ünïcödé sentence number one is here.");
    assert_eq!(segments[1999], " Ünïcödé sentence number one is here.");
    assert_eq!(segments[2000], " ");
    assert_eq!(segments.concat(), text);
}
