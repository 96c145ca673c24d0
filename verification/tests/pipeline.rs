use wikidump::error::DumpError;
use wikidump::graph::{build_graph, build_row, process_articles, LinkGraph};
use wikidump::index::TitleIndex;
use wikidump::lists::TitleLists;
use wikidump::output::{edge_line, edge_list, editor_line, title_line};
use wikidump::redirect::RedirectMap;
use wikidump::revisions::process_revisions;
use wikidump::token::{Attribute, Event, Token};

fn start(name: &str) -> Token {
    Token::StartTag(name.to_string())
}

fn end(name: &str) -> Token {
    Token::EndTag(name.to_string())
}

fn text(content: &str) -> Token {
    Token::Text(content.to_string())
}

fn article(title: &str, body: &str) -> Vec<Token> {
    vec![
        start("page"), start("title"), text(title), end("title"),
        start("revision"), start("text"), text(body), end("text"), end("revision"),
        end("page"),
    ]
}

fn redirect_page(title: &str, target: &str) -> Vec<Token> {
    vec![
        start("page"), start("title"), text(title), end("title"),
        Token::EmptyTag(
            "redirect".to_string(),
            vec![Attribute { key: "title".to_string(), value: target.to_string() }],
        ),
        start("revision"), start("text"), text(&format!("#REDIRECT [[{}]]", target)), end("text"),
        end("revision"), end("page"),
    ]
}

fn history(title: &str, redirect: Option<&str>, editors: &[&str]) -> Vec<Token> {
    let mut tokens = vec![start("page"), start("title"), text(title), end("title")];
    if let Some(target) = redirect {
        tokens.push(Token::EmptyTag(
            "redirect".to_string(),
            vec![Attribute { key: "title".to_string(), value: target.to_string() }],
        ));
    }
    for editor in editors {
        tokens.push(start("username"));
        tokens.push(text(editor));
        tokens.push(end("username"));
    }
    tokens.push(end("page"));
    tokens
}

fn events(pages: Vec<Vec<Token>>) -> Vec<Event> {
    let mut events = Vec::new();
    let mut offset = 0u64;
    for token in pages.into_iter().flatten() {
        offset += 1;
        events.push(Event { token, offset });
    }
    events.push(Event { token: Token::EndOfStream, offset: offset + 1 });
    events
}

fn titles(graph: &LinkGraph) -> Vec<String> {
    (0..graph.len()).map(|a| graph.title(a).clone()).collect()
}

fn number(graph: &LinkGraph, title: &str) -> usize {
    graph.titles().position(title).unwrap()
}

fn strings(items: &[&str]) -> Vec<String> {
    items.iter().map(|s| s.to_string()).collect()
}

#[test]
fn a_link_to_a_redirect_leads_to_its_target() {
    let graph = process_articles(
        &events(vec![redirect_page("A", "B"), article("B", "see [[C]]"), article("X", "see [[A]]")]),
        None,
    )
    .unwrap();
    assert_eq!(titles(&graph), strings(&["B", "X"]));
    let b = number(&graph, "B");
    let x = number(&graph, "X");
    assert_eq!(graph.row(x), &vec![b]);
    assert!(graph.row(b).is_empty());
    assert_eq!(graph.titles().position("A"), None);
}

#[test]
fn links_into_a_chain_lead_to_its_end() {
    let graph = process_articles(
        &events(vec![
            article("X", "[[A]] [[B]] [[C]] [[D]]"),
            redirect_page("A", "B"),
            redirect_page("B", "C"),
            redirect_page("C", "D"),
            article("D", ""),
        ]),
        None,
    )
    .unwrap();
    assert_eq!(titles(&graph), strings(&["X", "D"]));
    assert_eq!(graph.row(0), &vec![1, 1, 1, 1]);
}

#[test]
fn a_link_into_a_cycle_fails_the_run() {
    let result = process_articles(
        &events(vec![redirect_page("A", "B"), redirect_page("B", "A"), article("X", "[[Y]] [[B]] [[A]]")]),
        None,
    );
    assert_eq!(result.err(), Some(DumpError::RedirectCycle { title: "B".to_string() }));
}

#[test]
fn a_cycle_that_no_article_links_to_does_no_harm_to_the_graph() {
    let graph = process_articles(
        &events(vec![redirect_page("A", "B"), redirect_page("B", "A"), article("X", "[[X]]")]),
        None,
    )
    .unwrap();
    assert_eq!(titles(&graph), strings(&["X"]));
    assert_eq!(graph.row(0), &vec![0]);
}

#[test]
fn a_cycle_fails_the_editor_run() {
    let result = process_revisions(
        &events(vec![history("X", None, &["bob"]), history("A", Some("B"), &[]), history("B", Some("A"), &[])]),
        None,
    );
    assert_eq!(result.err(), Some(DumpError::RedirectCycle { title: "A".to_string() }));
}

#[test]
fn the_numbers_of_n_articles_are_zero_to_n_less_one() {
    let names = ["q", "w", "e", "r", "t", "y"];
    let pages = names.iter().map(|n| article(n, "[[q]] [[nowhere]] [[y]]")).collect();
    let graph = process_articles(&events(pages), None).unwrap();
    assert_eq!(graph.len(), names.len());
    let mut seen = vec![false; names.len()];
    for name in names {
        let n = number(&graph, name);
        assert!(n < names.len());
        assert!(!seen[n]);
        seen[n] = true;
        assert_eq!(graph.title(n), name);
    }
    assert!(seen.iter().all(|s| *s));
    assert_eq!(titles(&graph), strings(&names));
}

#[test]
fn a_link_to_a_page_behind_the_limit_is_left_out() {
    let pages = vec![article("A", "[[B]] [[C]] [[A]]"), article("B", "[[C]]"), article("C", "[[A]]")];
    let cut = process_articles(&events(pages.clone()), Some(2)).unwrap();
    assert_eq!(titles(&cut), strings(&["A", "B"]));
    assert_eq!(cut.row(0), &vec![1, 0]);
    assert!(cut.row(1).is_empty());
    let whole = process_articles(&events(pages), None).unwrap();
    assert_eq!(whole.row(0), &vec![1, 2, 0]);
    assert_eq!(whole.row(1), &vec![2]);
    assert_eq!(whole.row(2), &vec![0]);
}

#[test]
fn repeated_links_are_repeated_edges() {
    let graph = process_articles(&events(vec![article("A", "[[B]] [[B|again]]"), article("B", "")]), None).unwrap();
    assert_eq!(edge_list(&graph), vec![(0, 1), (0, 1)]);
}

#[test]
fn the_edge_list_and_the_title_index_fit_together() {
    let graph = process_articles(
        &events(vec![
            article("A", "[[B]] [[Z]]"),
            article("Lonely", "no links"),
            article("B", "[[A]] [[B]]"),
            redirect_page("Z", "B"),
        ]),
        None,
    )
    .unwrap();
    let edges = edge_list(&graph);
    assert_eq!(edges, vec![(0, 2), (0, 2), (2, 0), (2, 2)]);
    let title_lines: Vec<String> = (0..graph.len()).map(|a| title_line(a, graph.title(a))).collect();
    assert_eq!(title_lines, strings(&["0\t\"A\"\n", "1\t\"Lonely\"\n", "2\t\"B\"\n"]));
    for (source, target) in &edges {
        assert!(*source < title_lines.len());
        assert!(*target < title_lines.len());
    }
    let edge_lines: Vec<String> = edges.iter().map(|(s, t)| edge_line(*s, *t)).collect();
    assert_eq!(edge_lines, strings(&["0 2\n", "0 2\n", "2 0\n", "2 2\n"]));
    for a in 0..graph.len() {
        let linked = !graph.row(a).is_empty() || (0..graph.len()).any(|b| graph.row(b).contains(&a));
        let listed = edges.iter().any(|(s, t)| *s == a || *t == a);
        assert_eq!(linked, listed);
    }
}

#[test]
fn a_redirect_page_has_no_links_of_its_own() {
    let graph = process_articles(&events(vec![redirect_page("A", "B"), article("B", "")]), None).unwrap();
    assert_eq!(titles(&graph), strings(&["B"]));
    assert!(edge_list(&graph).is_empty());
}

#[test]
fn a_title_that_is_also_a_redirect_is_no_article() {
    let graph = process_articles(
        &events(vec![article("A", "[[B]]"), article("B", "[[A]]"), redirect_page("A", "B")]),
        None,
    )
    .unwrap();
    assert_eq!(titles(&graph), strings(&["B"]));
    assert_eq!(graph.row(0), &vec![0]);
}

#[test]
fn an_empty_stream_gives_empty_tables() {
    let graph = process_articles(&events(Vec::new()), None).unwrap();
    assert_eq!(graph.len(), 0);
    assert!(edge_list(&graph).is_empty());
    let lists = process_revisions(&Vec::new(), None).unwrap();
    assert_eq!(lists.len(), 0);
}

#[test]
fn editors_are_listed_under_articles() {
    let lists = process_revisions(
        &events(vec![
            history("Cat", None, &["bob", "bob", "carol", "bob"]),
            history("User:Alice", None, &["alice"]),
            history("Feline", Some("Cat"), &["dave", "bob"]),
            history("Dog", None, &[]),
        ]),
        None,
    )
    .unwrap();
    assert_eq!(lists.len(), 2);
    assert_eq!(lists.title(0), "Cat");
    assert_eq!(lists.list(0), &strings(&["bob", "carol", "dave"]));
    assert_eq!(lists.title(1), "Dog");
    assert!(lists.list(1).is_empty());
    let mut lines = Vec::new();
    for i in 0..lists.len() {
        for editor in lists.list(i) {
            lines.push(editor_line(lists.title(i), editor));
        }
    }
    assert_eq!(lines, strings(&["Cat bob\n", "Cat carol\n", "Cat dave\n"]));
}

#[test]
fn editors_of_a_redirect_to_an_unseen_page_go_under_its_title() {
    let lists = process_revisions(&events(vec![history("Old", Some("New"), &["bob"])]), None).unwrap();
    assert_eq!(lists.len(), 1);
    assert_eq!(lists.title(0), "New");
    assert_eq!(lists.list(0), &strings(&["bob"]));
}

#[test]
fn the_page_limit_bounds_the_editor_run() {
    let pages = vec![history("A", None, &["a"]), history("B", None, &["b"]), history("C", None, &["c"])];
    let lists = process_revisions(&events(pages), Some(1)).unwrap();
    assert_eq!(lists.len(), 1);
    assert_eq!(lists.title(0), "A");
}

#[test]
fn scan_errors_come_through_the_pipelines() {
    let broken = events(vec![vec![start("page"), end("page")]]);
    assert_eq!(process_articles(&broken, None).err(), Some(DumpError::MalformedPage { offset: 2 }));
    assert_eq!(process_revisions(&broken, None).err(), Some(DumpError::MalformedPage { offset: 2 }));
}

#[test]
fn rows_are_built_from_lists_and_redirects() {
    let mut index = TitleIndex::new();
    index.intern("A".to_string());
    index.intern("B".to_string());
    let mut redirects = RedirectMap::new();
    redirects.record("R".to_string(), "B".to_string());
    redirects.record("L".to_string(), "L".to_string());
    assert_eq!(build_row(&index, &redirects, 2, &strings(&["B", "R", "Q", "A"])), Ok(vec![1, 1, 0]));
    assert_eq!(build_row(&index, &redirects, 2, &strings(&["A", "L", "L"])), Err(1));
    assert_eq!(build_row(&index, &redirects, 0, &strings(&["A", "R"])), Err(1));
    let mut entries = TitleLists::new();
    entries.extend("A".to_string(), &strings(&["R", "A"]));
    entries.extend("R".to_string(), &strings(&["A"]));
    entries.extend("B".to_string(), &strings(&[]));
    let graph = build_graph(&entries, &redirects, 2).unwrap();
    assert_eq!(titles(&graph), strings(&["A", "B"]));
    assert_eq!(graph.row(0), &vec![1, 0]);
    entries.extend("B".to_string(), &strings(&["L"]));
    assert_eq!(
        build_graph(&entries, &redirects, 2).err(),
        Some(DumpError::RedirectCycle { title: "L".to_string() })
    );
}
