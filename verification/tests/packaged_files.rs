use srx_segmenter::packaged::{choose_srx, packaged_path};
use srx_segmenter::text::same_text;

#[test]
fn each_language_has_its_file() {
    for lang in ["da", "de", "en", "fr", "nl", "pl", "pt", "ro", "sk", "sr", "tr", "uk"] {
        assert_eq!(choose_srx(lang), "language_tools.segment.srx");
    }
    for lang in ["bg", "cs", "es", "me", "mk", "mt", "sl", "sq", "sv"] {
        assert_eq!(choose_srx(lang), "OmegaT.srx");
    }
    for lang in ["el", "et", "fi", "hr", "hu", "is", "lt", "lv"] {
        assert_eq!(choose_srx(lang), "PTDR.srx");
    }
    for lang in ["it", "nb", "nn"] {
        assert_eq!(choose_srx(lang), "NonAggresive.srx");
    }
}

#[test]
fn other_languages_get_the_default_file() {
    for lang in ["", "xx", "EN", "eng", "ja", "e", "en "] {
        assert_eq!(choose_srx(lang), "default.srx");
    }
}

#[test]
fn packaged_file_lies_under_data() {
    assert_eq!(packaged_path("/usr/lib/pkg", "en"), "/usr/lib/pkg/data/language_tools.segment.srx");
    assert_eq!(packaged_path("", "zz"), "/data/default.srx");
}

#[test]
fn texts_compare_by_their_characters() {
    assert!(same_text("", ""));
    assert!(same_text("héllo", "héllo"));
    assert!(!same_text("hello", "hellp"));
    assert!(!same_text("hello", "hell"));
    assert!(!same_text("é", "e"));
}
