use rare_events::chapter::{Chapter1Marks, Chapter2Marks, ChapterAnchor, ChapterReading};
use rare_events::code_editor::{Code, DisplayLanguage};

#[test]
fn anchors_print_their_tags() {
    assert_eq!(
        ChapterAnchor::Chapter1(Chapter1Marks::First).get_string(),
        "#chapter1-first"
    );
    assert_eq!(
        ChapterAnchor::Chapter1(Chapter1Marks::Second).get_string(),
        "#chapter1-second"
    );
    assert_eq!(
        ChapterAnchor::Chapter2(Chapter2Marks::First).get_string(),
        "#chapter2-first"
    );
    assert_eq!(ChapterAnchor::Invalid.get_string(), "#Invalid");
    assert_eq!(Chapter1Marks::Second.get_string(), "chapter1-second");
}

#[test]
fn anchors_parse_back() {
    assert_eq!(
        ChapterAnchor::read_str("chapter1-first"),
        Some(ChapterAnchor::Chapter1(Chapter1Marks::First))
    );
    assert_eq!(
        ChapterAnchor::read_str("Chapter01-SECOND"),
        Some(ChapterAnchor::Chapter1(Chapter1Marks::Second))
    );
    assert_eq!(
        ChapterAnchor::read_str("chapter2-first-and-more"),
        Some(ChapterAnchor::Chapter2(Chapter2Marks::First))
    );
    assert_eq!(ChapterAnchor::read_str("chapter3-first"), None);
    assert_eq!(ChapterAnchor::read_str("chapter1-third"), None);
    assert_eq!(ChapterAnchor::read_str("nodashes"), None);
    assert_eq!(ChapterAnchor::read_str(""), None);
    assert_eq!(Chapter1Marks::read_str("First"), Some(Chapter1Marks::First));
    assert_eq!(Chapter1Marks::read_str("third"), None);
    assert_eq!(Chapter2Marks::read_str("fIrSt"), Some(Chapter2Marks::First));
}

#[test]
fn code_snippets_remember_their_languages() {
    let rust_only = Code::new_rust("fn main() {}".to_string());
    assert_eq!(rust_only.current_display_language, DisplayLanguage::Rust);
    assert!(rust_only.c_code.is_none());
    assert!(!rust_only.both_available());

    let c_only = Code::new_c("int main(void) { return 0; }".to_string());
    assert_eq!(c_only.current_display_language, DisplayLanguage::C);
    assert!(c_only.rust_code.is_none());

    let both = Code::new("fn main() {}".to_string(), "int main(void) {}".to_string());
    assert!(both.both_available());
    assert!(both.show_code);
}

#[test]
fn the_default_anchor_is_the_first_mark() {
    assert_eq!(
        ChapterAnchor::default(),
        ChapterAnchor::Chapter1(Chapter1Marks::First)
    );
}
