use wikidump::error::DumpError;
use wikidump::escape::decode;
use wikidump::scan::{has_reserved_prefix, is_end, scan_events, ScanState};
use wikidump::token::{classify, find_attribute, Attribute, Event, Mode, Tag, Token};

fn at(offset: u64, token: Token) -> Event {
    Event { token, offset }
}

fn start(name: &str) -> Token {
    Token::StartTag(name.to_string())
}

fn end(name: &str) -> Token {
    Token::EndTag(name.to_string())
}

fn text(content: &str) -> Token {
    Token::Text(content.to_string())
}

fn redirect(target: &str) -> Token {
    Token::EmptyTag(
        "redirect".to_string(),
        vec![Attribute { key: "title".to_string(), value: target.to_string() }],
    )
}

fn numbered(tokens: Vec<Token>) -> Vec<Event> {
    let mut events = Vec::new();
    let mut offset = 0u64;
    for token in tokens {
        offset += 10;
        events.push(at(offset, token));
    }
    events
}

fn revision_page(title: &str, editors: &[&str]) -> Vec<Token> {
    let mut tokens = vec![start("page"), start("title"), text(title), end("title")];
    for editor in editors {
        tokens.push(start("revision"));
        tokens.push(start("contributor"));
        tokens.push(start("username"));
        tokens.push(text(editor));
        tokens.push(end("username"));
        tokens.push(start("id"));
        tokens.push(text("17"));
        tokens.push(end("id"));
        tokens.push(end("contributor"));
        tokens.push(end("revision"));
    }
    tokens.push(end("page"));
    tokens
}

fn strings(items: &[&str]) -> Vec<String> {
    items.iter().map(|s| s.to_string()).collect()
}

#[test]
fn entity_references_are_resolved() {
    assert_eq!(decode("AT&amp;T", 7), Ok("AT&T".to_string()));
    assert_eq!(decode("&lt;b&gt; &quot;x&quot; &apos;y&apos; &#65;&#x42;", 7), Ok("<b> \"x\" 'y' AB".to_string()));
    assert_eq!(decode("plain", 7), Ok("plain".to_string()));
    assert_eq!(decode("", 7), Ok(String::new()));
}

#[test]
fn bad_entity_references_are_parse_errors_at_the_offset() {
    assert_eq!(decode("&bogus;", 7), Err(DumpError::Parse { offset: 7 }));
    assert_eq!(decode("a & b", 99), Err(DumpError::Parse { offset: 99 }));
    assert_eq!(decode("&#0;", 1), Err(DumpError::Parse { offset: 1 }));
    assert_eq!(decode("&amp", 2), Err(DumpError::Parse { offset: 2 }));
}

#[test]
fn elements_are_known_by_the_end_of_their_names() {
    assert_eq!(classify(Mode::Articles, "page"), Tag::Page);
    assert_eq!(classify(Mode::Articles, "mw:page"), Tag::Page);
    assert_eq!(classify(Mode::Articles, "title"), Tag::Title);
    assert_eq!(classify(Mode::Articles, "text"), Tag::Payload);
    assert_eq!(classify(Mode::Articles, "username"), Tag::Other);
    assert_eq!(classify(Mode::Revisions, "username"), Tag::Payload);
    assert_eq!(classify(Mode::Revisions, "text"), Tag::Other);
    assert_eq!(classify(Mode::Revisions, "redirect"), Tag::Redirect);
    assert_eq!(classify(Mode::Revisions, "pages"), Tag::Other);
    assert_eq!(classify(Mode::Revisions, ""), Tag::Other);
    assert_eq!(classify(Mode::Articles, "redirecttitle"), Tag::Title);
}

#[test]
fn the_first_attribute_of_a_key_is_found() {
    let attributes = vec![
        Attribute { key: "id".to_string(), value: "1".to_string() },
        Attribute { key: "title".to_string(), value: "first".to_string() },
        Attribute { key: "title".to_string(), value: "second".to_string() },
    ];
    assert_eq!(find_attribute(&attributes, &"title".to_string()), Some(&"first".to_string()));
    assert_eq!(find_attribute(&attributes, &"name".to_string()), None);
    assert_eq!(find_attribute(&Vec::new(), &"title".to_string()), None);
}

#[test]
fn reserved_prefixes_are_user_and_talk() {
    assert!(has_reserved_prefix("User:Alice"));
    assert!(has_reserved_prefix("Talk:Main Page"));
    assert!(has_reserved_prefix("User:"));
    assert!(!has_reserved_prefix("user:alice"));
    assert!(!has_reserved_prefix("Alice"));
    assert!(!has_reserved_prefix("A User:B"));
    assert!(!has_reserved_prefix(""));
}

#[test]
fn only_the_end_of_the_stream_is_an_end() {
    assert!(is_end(&Token::EndOfStream));
    assert!(!is_end(&start("page")));
    assert!(!is_end(&text("")));
}

#[test]
fn a_page_is_committed_when_it_closes() {
    let mut state = ScanState::new(Mode::Revisions);
    let events = numbered(revision_page("Cat", &["bob"]));
    let last = events.len() - 1;
    for event in &events[..last] {
        assert_eq!(state.step(event), Ok(()));
        assert_eq!(state.pages(), 0);
        assert_eq!(state.entries().len(), 0);
    }
    assert_eq!(state.step(&events[last]), Ok(()));
    assert_eq!(state.pages(), 1);
    assert_eq!(state.entries().len(), 1);
    assert_eq!(state.entries().title(0), "Cat");
    assert_eq!(state.entries().list(0), &strings(&["bob"]));
}

#[test]
fn editors_of_a_page_are_committed_once_each() {
    let events = numbered(revision_page("Cat", &["bob", "carol", "bob", "bob"]));
    let state = scan_events(Mode::Revisions, &events, None).unwrap();
    assert_eq!(state.pages(), 1);
    let mut editors = state.entries().list(0).clone();
    editors.sort();
    assert_eq!(editors, strings(&["bob", "carol"]));
}

#[test]
fn a_user_page_leaves_no_trace_and_is_not_counted() {
    let mut tokens = revision_page("User:Alice", &["alice", "bob"]);
    tokens.insert(4, redirect("Elsewhere"));
    let state = scan_events(Mode::Revisions, &numbered(tokens), None).unwrap();
    assert_eq!(state.pages(), 0);
    assert_eq!(state.entries().len(), 0);
    assert_eq!(state.redirects().len(), 0);
}

#[test]
fn a_talk_page_between_articles_is_skipped() {
    let mut tokens = revision_page("Cat", &["bob"]);
    tokens.extend(revision_page("Talk:Cat", &["carol"]));
    tokens.extend(revision_page("Dog", &["dave"]));
    let state = scan_events(Mode::Revisions, &numbered(tokens), None).unwrap();
    assert_eq!(state.pages(), 2);
    assert_eq!(state.entries().len(), 2);
    assert_eq!(state.entries().title(0), "Cat");
    assert_eq!(state.entries().title(1), "Dog");
    assert_eq!(state.entries().list(1), &strings(&["dave"]));
}

#[test]
fn user_pages_are_articles_in_the_articles_mode() {
    let tokens = vec![
        start("page"), start("title"), text("User:Alice"), end("title"),
        start("text"), text("[[Cat]]"), end("text"), end("page"),
    ];
    let state = scan_events(Mode::Articles, &numbered(tokens), None).unwrap();
    assert_eq!(state.pages(), 1);
    assert_eq!(state.entries().title(0), "User:Alice");
    assert_eq!(state.entries().list(0), &strings(&["Cat"]));
}

#[test]
fn a_page_without_editors_has_an_empty_entry() {
    let state = scan_events(Mode::Revisions, &numbered(revision_page("Cat", &[])), None).unwrap();
    assert_eq!(state.pages(), 1);
    assert_eq!(state.entries().len(), 1);
    assert!(state.entries().list(0).is_empty());
}

#[test]
fn a_page_that_closes_without_a_title_is_malformed() {
    let tokens = vec![start("page"), start("username"), text("bob"), end("username"), end("page")];
    let events = numbered(tokens);
    assert_eq!(
        scan_events(Mode::Revisions, &events, None).err(),
        Some(DumpError::MalformedPage { offset: 50 })
    );
    let mut state = ScanState::new(Mode::Revisions);
    for event in &events[..4] {
        assert_eq!(state.step(event), Ok(()));
    }
    assert_eq!(state.step(&events[4]), Err(DumpError::MalformedPage { offset: 50 }));
    assert_eq!(state.pages(), 0);
    assert_eq!(state.entries().len(), 0);
}

#[test]
fn a_redirect_before_the_title_is_malformed() {
    let tokens = vec![start("page"), redirect("B"), start("title"), text("A"), end("title"), end("page")];
    assert_eq!(
        scan_events(Mode::Articles, &numbered(tokens), None).err(),
        Some(DumpError::MalformedPage { offset: 20 })
    );
}

#[test]
fn a_redirect_without_a_target_is_malformed() {
    let tokens = vec![
        start("page"), start("title"), text("A"), end("title"),
        Token::EmptyTag("redirect".to_string(), vec![Attribute { key: "to".to_string(), value: "B".to_string() }]),
        end("page"),
    ];
    assert_eq!(
        scan_events(Mode::Articles, &numbered(tokens), None).err(),
        Some(DumpError::MalformedPage { offset: 50 })
    );
}

#[test]
fn a_bad_entity_in_a_title_is_a_parse_error() {
    let tokens = vec![start("page"), start("title"), text("A &bad; B"), end("title"), end("page")];
    assert_eq!(
        scan_events(Mode::Articles, &numbered(tokens), None).err(),
        Some(DumpError::Parse { offset: 30 })
    );
}

#[test]
fn text_outside_titles_and_payloads_is_not_looked_at() {
    let tokens = vec![
        text("&bad;"), start("page"), start("comment"), text("&bad;"), end("comment"),
        start("title"), text("A"), end("title"), end("page"),
    ];
    let state = scan_events(Mode::Revisions, &numbered(tokens), None).unwrap();
    assert_eq!(state.pages(), 1);
}

#[test]
fn titles_and_names_are_unescaped() {
    let tokens = vec![
        start("page"), start("title"), text("AT&amp;T"), end("title"), redirect("R&amp;D"),
        start("username"), text("&lt;bob&gt;"), end("username"), end("page"),
    ];
    let state = scan_events(Mode::Revisions, &numbered(tokens), None).unwrap();
    assert_eq!(state.entries().title(0), "AT&T");
    assert_eq!(state.entries().list(0), &strings(&["<bob>"]));
    assert_eq!(state.redirects().source(0), "AT&T");
    assert_eq!(state.redirects().target(0), "R&D");
}

#[test]
fn empty_elements_other_than_redirects_are_passed_over() {
    let tokens = vec![
        start("page"), start("title"), text("A"), end("title"),
        Token::EmptyTag("text".to_string(), vec![Attribute { key: "bytes".to_string(), value: "0".to_string() }]),
        Token::EmptyTag("minor".to_string(), Vec::new()),
        end("page"),
    ];
    let state = scan_events(Mode::Articles, &numbered(tokens), None).unwrap();
    assert_eq!(state.pages(), 1);
    assert_eq!(state.redirects().len(), 0);
    assert!(state.entries().list(0).is_empty());
}

#[test]
fn the_scan_stops_at_the_page_limit() {
    let mut tokens = revision_page("A", &["a"]);
    tokens.extend(revision_page("B", &["b"]));
    tokens.extend(revision_page("C", &["c"]));
    let events = numbered(tokens);
    let two = scan_events(Mode::Revisions, &events, Some(2)).unwrap();
    assert_eq!(two.pages(), 2);
    assert_eq!(two.entries().len(), 2);
    assert!(two.limit_reached(Some(2)));
    assert!(!two.limit_reached(Some(3)));
    assert!(!two.limit_reached(None));
    let none = scan_events(Mode::Revisions, &events, Some(0)).unwrap();
    assert_eq!(none.pages(), 0);
    assert_eq!(none.entries().len(), 0);
    let all = scan_events(Mode::Revisions, &events, Some(10)).unwrap();
    assert_eq!(all.pages(), 3);
}

#[test]
fn skipped_pages_do_not_count_towards_the_limit() {
    let mut tokens = revision_page("User:A", &["a"]);
    tokens.extend(revision_page("B", &["b"]));
    tokens.extend(revision_page("C", &["c"]));
    let state = scan_events(Mode::Revisions, &numbered(tokens), Some(1)).unwrap();
    assert_eq!(state.pages(), 1);
    assert_eq!(state.entries().title(0), "B");
}

#[test]
fn the_scan_stops_at_the_end_of_the_stream() {
    let mut tokens = revision_page("A", &["a"]);
    tokens.push(Token::EndOfStream);
    tokens.extend(revision_page("B", &["b"]));
    let state = scan_events(Mode::Revisions, &numbered(tokens), None).unwrap();
    assert_eq!(state.pages(), 1);
    let mut single = ScanState::new(Mode::Revisions);
    assert_eq!(single.step(&at(0, Token::EndOfStream)), Ok(()));
    assert_eq!(single.pages(), 0);
}

#[test]
fn a_title_seen_twice_has_one_entry() {
    let mut tokens = revision_page("A", &["bob", "carol"]);
    tokens.extend(revision_page("B", &["bob"]));
    tokens.extend(revision_page("A", &["dave", "bob"]));
    let state = scan_events(Mode::Revisions, &numbered(tokens), None).unwrap();
    assert_eq!(state.pages(), 3);
    assert_eq!(state.entries().len(), 2);
    assert_eq!(state.entries().list(0), &strings(&["bob", "carol", "dave"]));
}

#[test]
fn the_parts_of_a_step_can_be_called_one_by_one() {
    let mut state = ScanState::new(Mode::Articles);
    state.open("page");
    assert!(!state.wants_text());
    state.open("title");
    assert!(state.wants_text());
    state.read("A".to_string());
    assert_eq!(state.close("title", 1), Ok(()));
    assert_eq!(state.redirect_to("B".to_string(), 2), Ok(()));
    assert_eq!(state.mark("redirect", &vec![Attribute { key: "title".to_string(), value: "C".to_string() }], 3), Ok(()));
    state.open("text");
    state.read("[[X]]".to_string());
    assert_eq!(state.close("text", 4), Ok(()));
    assert_eq!(state.close("page", 5), Ok(()));
    assert_eq!(state.pages(), 1);
    let (redirects, entries) = state.into_tables();
    assert_eq!(redirects.len(), 1);
    assert_eq!(redirects.target(0), "C");
    assert_eq!(entries.len(), 0);
    let mut fresh = ScanState::new(Mode::Articles);
    assert_eq!(fresh.redirect_to("B".to_string(), 9), Err(DumpError::MalformedPage { offset: 9 }));
}

#[test]
fn white_space_between_elements_is_passed_over() {
    let tokens = vec![
        start("page"), text("\n  "), start("title"), text("A"), text("  "), end("title"),
        start("username"), text("\n"), text("bob"), text(""), end("username"), end("page"),
    ];
    let state = scan_events(Mode::Revisions, &numbered(tokens), None).unwrap();
    assert_eq!(state.entries().title(0), "A");
    assert_eq!(state.entries().list(0), &strings(&["bob"]));
}

#[test]
fn white_space_inside_text_is_kept() {
    let tokens = vec![
        start("page"), start("title"), text(" Main Page "), end("title"), end("page"),
    ];
    let state = scan_events(Mode::Revisions, &numbered(tokens), None).unwrap();
    assert_eq!(state.entries().title(0), " Main Page ");
}
