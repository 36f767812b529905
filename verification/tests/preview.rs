use blocko::highlight::{classify_token, highlight_code_line, TokenClass};
use blocko::theme::{pin_rgb, token_rgb};
use blocko::types::{code_language_keywords, PinDataType, TargetLanguage};

fn spans(line: &str, lang: TargetLanguage) -> Vec<(String, TokenClass)> {
    let kw = code_language_keywords(lang);
    highlight_code_line(line, &kw).into_iter().map(|s| (s.text, s.class)).collect()
}

fn sp(text: &str, class: TokenClass) -> (String, TokenClass) {
    (text.to_string(), class)
}

#[test]
fn comment_lines_are_one_span() {
    assert_eq!(spans("    // note \"x\" 1", TargetLanguage::Rust), vec![sp("    // note \"x\" 1", TokenClass::Comment)]);
    assert_eq!(spans("# num_0 = 1", TargetLanguage::Python), vec![sp("# num_0 = 1", TokenClass::Comment)]);
    assert_eq!(spans("  #include <iostream>", TargetLanguage::Cpp), vec![sp("  #include <iostream>", TokenClass::Comment)]);
}

#[test]
fn words_strings_and_numbers() {
    assert_eq!(
        spans("  let x = \"hi there\" + 12;", TargetLanguage::Rust),
        vec![
            sp(" ", TokenClass::Plain),
            sp(" ", TokenClass::Plain),
            sp("let", TokenClass::Keyword),
            sp(" ", TokenClass::Plain),
            sp("x", TokenClass::Plain),
            sp(" ", TokenClass::Plain),
            sp("=", TokenClass::Plain),
            sp(" ", TokenClass::Plain),
            sp("\"hi there\"", TokenClass::Str),
            sp(" ", TokenClass::Plain),
            sp("+", TokenClass::Plain),
            sp(" ", TokenClass::Plain),
            sp("12", TokenClass::Number),
            sp(";", TokenClass::Plain),
        ]
    );
}

#[test]
fn macro_names_and_unterminated_strings() {
    assert_eq!(
        spans("println!(\"{}\", num_0);", TargetLanguage::Rust),
        vec![
            sp("println!", TokenClass::Plain),
            sp("(", TokenClass::Plain),
            sp("\"{}\"", TokenClass::Str),
            sp(",", TokenClass::Plain),
            sp(" ", TokenClass::Plain),
            sp("num_0", TokenClass::Plain),
            sp(")", TokenClass::Plain),
            sp(";", TokenClass::Plain),
        ]
    );
    assert_eq!(spans("x\"ab", TargetLanguage::Rust), vec![sp("x", TokenClass::Plain), sp("\"ab", TokenClass::Plain)]);
    assert!(spans("", TargetLanguage::Python).is_empty());
}

#[test]
fn token_classes() {
    let py = code_language_keywords(TargetLanguage::Python);
    assert_eq!(classify_token("while", &py), TokenClass::Keyword);
    assert_eq!(classify_token("3abc", &py), TokenClass::Number);
    assert_eq!(classify_token("While", &py), TokenClass::Plain);
    assert_eq!(classify_token("", &py), TokenClass::Plain);
}

#[test]
fn keyword_lists() {
    let rs = code_language_keywords(TargetLanguage::Rust);
    assert_eq!(rs.len(), 16);
    assert_eq!(rs[0], "fn");
    assert!(code_language_keywords(TargetLanguage::JavaScript).contains(&"console"));
    assert!(code_language_keywords(TargetLanguage::Cpp).contains(&"endl"));
    assert_eq!(code_language_keywords(TargetLanguage::Python).len(), 18);
}

#[test]
fn colours() {
    assert_eq!(token_rgb(TokenClass::Keyword), (200, 140, 230));
    assert_eq!(token_rgb(TokenClass::Comment), (110, 110, 120));
    assert_eq!(pin_rgb(PinDataType::Number), (100, 170, 240));
    assert_eq!(pin_rgb(PinDataType::Exec), (235, 235, 240));
    assert_eq!(pin_rgb(PinDataType::Semantic(0)), (180, 180, 180));
    assert_eq!(pin_rgb(PinDataType::Semantic(77)), (180, 180, 180));
}
