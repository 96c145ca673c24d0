use wikidump::lists::{contains_text, push_all, push_distinct, TitleLists};
use wikidump::index::TitleIndex;
use wikidump::redirect::RedirectMap;
use wikidump::revisions::{flatten, merge_editors};
use wikidump::error::DumpError;

fn map_of(pairs: &[(&str, &str)]) -> RedirectMap {
    let mut map = RedirectMap::new();
    for (source, target) in pairs {
        map.record(source.to_string(), target.to_string());
    }
    map
}

fn strings(items: &[&str]) -> Vec<String> {
    items.iter().map(|s| s.to_string()).collect()
}

#[test]
fn a_title_that_is_no_source_resolves_to_itself() {
    let map = map_of(&[("A", "B")]);
    assert_eq!(map.resolve("B", 0), Some("B"));
    assert_eq!(map.resolve("Z", 5), Some("Z"));
    assert_eq!(RedirectMap::new().resolve("A", 0), Some("A"));
}

#[test]
fn a_single_hop_is_followed() {
    let map = map_of(&[("A", "B")]);
    assert_eq!(map.resolve("A", 1), Some("B"));
    assert_eq!(map.resolve("A", 10), Some("B"));
}

#[test]
fn a_chain_resolves_to_its_end_from_every_link() {
    let map = map_of(&[("A", "B"), ("B", "C"), ("C", "D")]);
    assert_eq!(map.resolve("A", 3), Some("D"));
    assert_eq!(map.resolve("B", 3), Some("D"));
    assert_eq!(map.resolve("C", 3), Some("D"));
    assert_eq!(map.resolve("D", 3), Some("D"));
}

#[test]
fn the_hop_ceiling_is_exact() {
    let map = map_of(&[("A", "B"), ("B", "C"), ("C", "D")]);
    assert_eq!(map.resolve("A", 2), None);
    assert_eq!(map.resolve("A", 0), None);
    assert_eq!(map.resolve("B", 2), Some("D"));
    assert_eq!(map.resolve("C", 0), None);
}

#[test]
fn a_cycle_is_reported_at_every_ceiling() {
    let map = map_of(&[("A", "B"), ("B", "A")]);
    for hops in [0usize, 1, 2, 3, 100, 100_000] {
        assert_eq!(map.resolve("A", hops), None);
        assert_eq!(map.resolve("B", hops), None);
    }
    let own = map_of(&[("S", "S")]);
    assert_eq!(own.resolve("S", 50), None);
}

#[test]
fn a_chain_into_a_cycle_is_reported() {
    let map = map_of(&[("X", "A"), ("A", "B"), ("B", "A")]);
    assert_eq!(map.resolve("X", map.len()), None);
}

#[test]
fn declaring_a_source_again_replaces_its_target() {
    let mut map = map_of(&[("A", "B"), ("C", "D")]);
    map.record("A".to_string(), "E".to_string());
    assert_eq!(map.len(), 2);
    assert_eq!(map.source(0), "A");
    assert_eq!(map.target(0), "E");
    assert_eq!(map.source(1), "C");
    assert_eq!(map.target(1), "D");
    assert_eq!(map.target_of("A").map(|s| s.as_str()), Some("E"));
    assert_eq!(map.target_of("B"), None);
    assert_eq!(map.position("C"), Some(1));
    assert_eq!(map.position("D"), None);
}

#[test]
fn titles_are_numbered_in_first_seen_order() {
    let mut index = TitleIndex::new();
    assert_eq!(index.len(), 0);
    assert_eq!(index.intern("b".to_string()), 0);
    assert_eq!(index.intern("a".to_string()), 1);
    assert_eq!(index.intern("b".to_string()), 0);
    assert_eq!(index.intern("c".to_string()), 2);
    assert_eq!(index.len(), 3);
    assert_eq!(index.position("a"), Some(1));
    assert_eq!(index.position("z"), None);
    assert_eq!(index.title(2), "c");
    for i in 0..index.len() {
        assert_eq!(index.position(index.title(i)), Some(i));
    }
}

#[test]
fn lists_grow_under_their_titles() {
    let mut lists = TitleLists::new();
    lists.extend("A".to_string(), &strings(&["x", "y"]));
    lists.extend("B".to_string(), &strings(&[]));
    lists.extend("A".to_string(), &strings(&["x"]));
    assert_eq!(lists.len(), 2);
    assert_eq!(lists.title(0), "A");
    assert_eq!(lists.list(0), &strings(&["x", "y", "x"]));
    assert_eq!(lists.title(1), "B");
    assert!(lists.list(1).is_empty());
    assert_eq!(lists.position("B"), Some(1));
    assert_eq!(lists.position("C"), None);
}

#[test]
fn distinct_lists_take_each_item_once() {
    let mut lists = TitleLists::new();
    lists.extend_distinct("A".to_string(), &strings(&["bob", "bob", "carol", "bob"]));
    lists.extend_distinct("A".to_string(), &strings(&["dave", "carol"]));
    assert_eq!(lists.list(0), &strings(&["bob", "carol", "dave"]));
}

#[test]
fn list_helpers_append_and_search() {
    let mut list = strings(&["a"]);
    push_all(&mut list, &strings(&["a", "b"]));
    assert_eq!(list, strings(&["a", "a", "b"]));
    let mut set = strings(&["a"]);
    push_distinct(&mut set, &strings(&["a", "b", "b", "c"]));
    assert_eq!(set, strings(&["a", "b", "c"]));
    assert!(contains_text(&set, &"b".to_string()));
    assert!(!contains_text(&set, &"z".to_string()));
}

#[test]
fn flatten_gives_the_end_of_every_chain() {
    let map = map_of(&[("A", "B"), ("B", "C"), ("X", "Y")]);
    assert_eq!(flatten(&map, 3), Ok(strings(&["C", "C", "Y"])));
    assert_eq!(flatten(&map, 1), Ok(strings(&["C", "C", "Y"])));
    assert_eq!(flatten(&map, 0), Err(DumpError::RedirectCycle { title: "A".to_string() }));
}

#[test]
fn flatten_names_the_first_redirect_on_a_cycle() {
    let map = map_of(&[("Q", "R"), ("A", "B"), ("B", "A")]);
    assert_eq!(flatten(&map, map.len()), Err(DumpError::RedirectCycle { title: "A".to_string() }));
}

#[test]
fn editors_of_redirects_move_to_the_end_of_the_chain() {
    let mut lists = TitleLists::new();
    lists.extend_distinct("Old".to_string(), &strings(&["bob", "carol"]));
    lists.extend_distinct("Kept".to_string(), &strings(&["dave"]));
    lists.extend_distinct("New".to_string(), &strings(&["carol", "erin"]));
    lists.extend_distinct("Older".to_string(), &strings(&["frank"]));
    let map = map_of(&[("Old", "New"), ("Older", "Old")]);
    let merged = merge_editors(&lists, &map, map.len()).unwrap();
    assert_eq!(merged.len(), 2);
    assert_eq!(merged.title(0), "New");
    assert_eq!(merged.list(0), &strings(&["bob", "carol", "erin", "frank"]));
    assert_eq!(merged.title(1), "Kept");
    assert_eq!(merged.list(1), &strings(&["dave"]));
    for i in 0..merged.len() {
        assert_eq!(map.position(merged.title(i)), None);
    }
}

#[test]
fn merging_fails_on_a_cycle_even_where_nothing_hangs_on_it() {
    let mut lists = TitleLists::new();
    lists.extend_distinct("Kept".to_string(), &strings(&["dave"]));
    let map = map_of(&[("A", "B"), ("B", "A")]);
    assert_eq!(
        merge_editors(&lists, &map, map.len()).err(),
        Some(DumpError::RedirectCycle { title: "A".to_string() })
    );
}
