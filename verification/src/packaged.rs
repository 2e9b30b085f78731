//! The rule files that are packaged with the tool, and which of them serves
//! a language best.
use vstd::prelude::*;
use crate::text::same_text;

verus! {

/// Languages that the LanguageTool rules segment best.
pub open spec fn language_tool_serves(lang: Seq<char>) -> bool {
    lang == "da"@ || lang == "de"@ || lang == "en"@ || lang == "fr"@ || lang == "nl"@ || lang
        == "pl"@ || lang == "pt"@ || lang == "ro"@ || lang == "sk"@ || lang == "sr"@ || lang
        == "tr"@ || lang == "uk"@
}

/// Languages that the OmegaT rules segment best.
pub open spec fn omegat_serves(lang: Seq<char>) -> bool {
    lang == "bg"@ || lang == "cs"@ || lang == "es"@ || lang == "me"@ || lang == "mk"@ || lang
        == "mt"@ || lang == "sl"@ || lang == "sq"@ || lang == "sv"@
}

/// Languages that the PTDR rules segment best.
pub open spec fn ptdr_serves(lang: Seq<char>) -> bool {
    lang == "el"@ || lang == "et"@ || lang == "fi"@ || lang == "hr"@ || lang == "hu"@ || lang
        == "is"@ || lang == "lt"@ || lang == "lv"@
}

/// Languages that the non-aggressive rules segment best.
pub open spec fn non_aggressive_serves(lang: Seq<char>) -> bool {
    lang == "it"@ || lang == "nb"@ || lang == "nn"@
}

/// The packaged rule file for a language code.
pub open spec fn packaged_file(lang: Seq<char>) -> Seq<char> {
    if language_tool_serves(lang) {
        "language_tools.segment.srx"@
    } else if omegat_serves(lang) {
        "OmegaT.srx"@
    } else if ptdr_serves(lang) {
        "PTDR.srx"@
    } else if non_aggressive_serves(lang) {
        "NonAggresive.srx"@
    } else {
        "default.srx"@
    }
}

/// Where the packaged rule file for a language lies under the directory of
/// the package.
pub open spec fn packaged_location(package: Seq<char>, lang: Seq<char>) -> Seq<char> {
    package + "/data/"@ + packaged_file(lang)
}

/// The name of the packaged rule file that serves a language code best;
/// `default.srx` for a code that no other file is known to serve.
pub fn choose_srx(lang: &str) -> (r: &'static str)
    ensures
        r@ == packaged_file(lang@),
{
    if same_text(lang, "da") || same_text(lang, "de") || same_text(lang, "en") || same_text(
        lang,
        "fr",
    ) || same_text(lang, "nl") || same_text(lang, "pl") || same_text(lang, "pt") || same_text(
        lang,
        "ro",
    ) || same_text(lang, "sk") || same_text(lang, "sr") || same_text(lang, "tr") || same_text(
        lang,
        "uk",
    ) {
        "language_tools.segment.srx"
    } else if same_text(lang, "bg") || same_text(lang, "cs") || same_text(lang, "es")
        || same_text(lang, "me") || same_text(lang, "mk") || same_text(lang, "mt") || same_text(
        lang,
        "sl",
    ) || same_text(lang, "sq") || same_text(lang, "sv") {
        "OmegaT.srx"
    } else if same_text(lang, "el") || same_text(lang, "et") || same_text(lang, "fi")
        || same_text(lang, "hr") || same_text(lang, "hu") || same_text(lang, "is") || same_text(
        lang,
        "lt",
    ) || same_text(lang, "lv") {
        "PTDR.srx"
    } else if same_text(lang, "it") || same_text(lang, "nb") || same_text(lang, "nn") {
        "NonAggresive.srx"
    } else {
        "default.srx"
    }
}

/// The path of the packaged rule file for a language, given the directory
/// of the package.
pub fn packaged_path(package: &str, lang: &str) -> (r: String)
    ensures
        r@ == packaged_location(package@, lang@),
{
    String::from_str(package).concat("/data/").concat(choose_srx(lang))
}

} // verus!
