use wikidump::links::{extract_links, extract_links_from_chars, scan_link};
use wikidump::text::chars_of;

fn links(text: &str) -> Vec<String> {
    extract_links(text)
}

#[test]
fn plain_and_piped_links_give_their_targets() {
    assert_eq!(links("[[Cat]] text [[Dog|Canine]]"), vec!["Cat".to_string(), "Dog".to_string()]);
}

#[test]
fn text_without_links_gives_nothing() {
    assert!(links("").is_empty());
    assert!(links("no links here").is_empty());
    assert!(links("[single] brackets").is_empty());
}

#[test]
fn repeated_targets_are_kept() {
    assert_eq!(links("[[A]][[B]][[A]]"), vec!["A", "B", "A"]);
}

#[test]
fn malformed_brackets_are_passed_over() {
    assert!(links("[[]]").is_empty());
    assert!(links("[[|x]]").is_empty());
    assert!(links("[[open").is_empty());
    assert!(links("[[a]").is_empty());
    assert!(links("[[a]x]").is_empty());
    assert!(links("[[a|b").is_empty());
    assert!(links("[[a|b]").is_empty());
    assert!(links("[[a").is_empty());
    assert!(links("]]a[[").is_empty());
}

#[test]
fn a_link_can_start_at_the_second_of_three_brackets() {
    assert_eq!(links("[[[a]]"), vec!["a"]);
    assert_eq!(links("[[x[[y]]"), vec!["y"]);
}

#[test]
fn an_empty_display_text_is_accepted() {
    assert_eq!(links("[[a|]]"), vec!["a"]);
}

#[test]
fn a_display_text_may_hold_bars() {
    assert_eq!(links("[[File:x.png|thumb|caption]]"), vec!["File:x.png"]);
}

#[test]
fn a_link_nested_in_a_display_text_is_the_one_found() {
    assert_eq!(links("[[File:x.png|see [[Cat]] here]]"), vec!["Cat"]);
}

#[test]
fn targets_keep_their_spelling() {
    assert_eq!(links("[[ Main Page ]] [[Zürich|Zurich]] [[日本]]"), vec![" Main Page ", "Zürich", "日本"]);
}

#[test]
fn scan_link_reports_the_span() {
    let chars = chars_of("ab[[cd|ef]]gh");
    assert_eq!(scan_link(&chars, 2), Some((6, 11)));
    assert_eq!(scan_link(&chars, 0), None);
    assert_eq!(scan_link(&chars, 3), None);
    assert_eq!(scan_link(&chars, 12), None);
    let short = chars_of("[[a]]");
    assert_eq!(scan_link(&short, 0), Some((3, 5)));
    assert_eq!(scan_link(&short, 1), None);
}

#[test]
fn links_from_chars_agree_with_links_from_text() {
    let text = "x [[One]] y [[Two|2]] z [[";
    assert_eq!(extract_links_from_chars(&chars_of(text)), links(text));
}
