//! The link graph: articles by number, each with the numbers of the
//! articles that its links lead to.
//!
//! An article is a page that is no redirect. Its number is its place among
//! the articles in the order in which they were first seen. A link leads to
//! the title where the chain of redirects from its target ends; a link that
//! leads to no article is left out.

use vstd::prelude::*;
use crate::assoc::{distinct_keys, has_key, keys_of};
use crate::error::DumpError;
use crate::index::{lemma_numbers_dense, number_of, TitleIndex};
use crate::lists::TitleLists;
use crate::redirect::{follow, lemma_ceiling_suffices, RedirectMap};
use crate::scan::{initial, scan_events, scanned};
use crate::text::texts;
use crate::token::{event_views, Event, Mode};

verus! {

/// What a graph holds: the titles by number, and for each the numbers that
/// its links lead to, in the order of the links.
pub struct GraphView {
    pub titles: Seq<Seq<char>>,
    pub rows: Seq<Seq<usize>>,
}

/// The test for an entry whose title is no source of a redirect.
pub open spec fn is_article(redirects: Seq<(Seq<char>, Seq<char>)>) -> spec_fn(
    (Seq<char>, Seq<Seq<char>>),
) -> bool {
    |e: (Seq<char>, Seq<Seq<char>>)| !has_key(redirects, e.0)
}

/// The entries of the articles.
pub open spec fn articles(
    entries: Seq<(Seq<char>, Seq<Seq<char>>)>,
    redirects: Seq<(Seq<char>, Seq<char>)>,
) -> Seq<(Seq<char>, Seq<Seq<char>>)> {
    entries.filter(is_article(redirects))
}

/// The number of the article that a link leads to, if it leads to one.
pub open spec fn link_number(
    titles: Seq<Seq<char>>,
    redirects: Seq<(Seq<char>, Seq<char>)>,
    hops: nat,
) -> spec_fn(Seq<char>) -> Option<usize> {
    |link: Seq<char>|
        match follow(redirects, link, hops) {
            Some(end) => number_of(titles, end),
            None => None,
        }
}

/// The numbers that `links` lead to.
pub open spec fn row_of(
    titles: Seq<Seq<char>>,
    redirects: Seq<(Seq<char>, Seq<char>)>,
    hops: nat,
    links: Seq<Seq<char>>,
) -> Seq<usize> {
    links.filter_map(link_number(titles, redirects, hops))
}

/// The graph of the scanned entries.
pub open spec fn graph_of(
    entries: Seq<(Seq<char>, Seq<Seq<char>>)>,
    redirects: Seq<(Seq<char>, Seq<char>)>,
    hops: nat,
) -> GraphView {
    let kept = articles(entries, redirects);
    let titles = keys_of(kept);
    GraphView {
        titles,
        rows: kept.map_values(|e: (Seq<char>, Seq<Seq<char>>)| row_of(titles, redirects, hops, e.1)),
    }
}

/// Whether the chain of every link of every article ends within `hops`
/// redirects.
pub open spec fn links_end(
    kept: Seq<(Seq<char>, Seq<Seq<char>>)>,
    redirects: Seq<(Seq<char>, Seq<char>)>,
    hops: nat,
) -> bool {
    forall|a: int, k: int|
        0 <= a < kept.len() && 0 <= k < kept[a].1.len() ==> follow(
            redirects,
            #[trigger] kept[a].1[k],
            hops,
        ) is Some
}

/// Whether link `k` of article `a` is the first link whose chain does not
/// end within `hops` redirects.
pub open spec fn first_unending_link(
    kept: Seq<(Seq<char>, Seq<Seq<char>>)>,
    redirects: Seq<(Seq<char>, Seq<char>)>,
    hops: nat,
    a: int,
    k: int,
) -> bool {
    &&& 0 <= a < kept.len()
    &&& 0 <= k < kept[a].1.len()
    &&& follow(redirects, kept[a].1[k], hops) is None
    &&& forall|j: int| 0 <= j < k ==> follow(redirects, #[trigger] kept[a].1[j], hops) is Some
    &&& links_end(kept.take(a), redirects, hops)
}

/// The articles of a dump with their links, by number.
pub struct LinkGraph {
    titles: TitleIndex,
    rows: Vec<Vec<usize>>,
}

impl View for LinkGraph {
    type V = GraphView;

    closed spec fn view(&self) -> GraphView {
        GraphView { titles: self.titles@, rows: self.rows@.map_values(|row: Vec<usize>| row@) }
    }
}

/// Whether every article has its row and every number in a row is the
/// number of an article.
pub open spec fn well_shaped(g: GraphView) -> bool {
    &&& g.titles.no_duplicates()
    &&& g.rows.len() == g.titles.len()
    &&& forall|a: int, k: int|
        0 <= a < g.rows.len() && 0 <= k < g.rows[a].len() ==> (#[trigger] g.rows[a][k])
            < g.titles.len()
}

/// A row holds numbers of titles only.
pub proof fn lemma_row_in_range(
    titles: Seq<Seq<char>>,
    redirects: Seq<(Seq<char>, Seq<char>)>,
    hops: nat,
    links: Seq<Seq<char>>,
)
    requires
        titles.no_duplicates(),
        titles.len() <= usize::MAX,
    ensures
        forall|k: int|
            0 <= k < row_of(titles, redirects, hops, links).len() ==> (#[trigger] row_of(
                titles,
                redirects,
                hops,
                links,
            )[k]) < titles.len(),
    decreases links.len(),
{
    if links.len() > 0 {
        let f = link_number(titles, redirects, hops);
        let front = links.drop_last().filter_map(f);
        lemma_row_in_range(titles, redirects, hops, links.drop_last());
        lemma_numbers_dense(titles);
        let whole = links.filter_map(f);
        match f(links.last()) {
            Some(n) => {
                assert(whole == front + seq![n]);
                let end = follow(redirects, links.last(), hops).unwrap();
                assert(number_of(titles, end) == Some(n));
            },
            None => {
                assert(whole == front);
            },
        }
        assert forall|k: int| 0 <= k < whole.len() implies (#[trigger] whole[k]) < titles.len() by {
            if k < front.len() {
                assert(whole[k] == row_of(titles, redirects, hops, links.drop_last())[k]);
            }
        }
    }
}

/// A link adds to a row the number of the article that it leads to, and
/// nothing where it leads to none: to a page that was not scanned, or to one
/// that is no article.
pub proof fn lemma_row_push(
    titles: Seq<Seq<char>>,
    redirects: Seq<(Seq<char>, Seq<char>)>,
    hops: nat,
    links: Seq<Seq<char>>,
    link: Seq<char>,
)
    ensures
        row_of(titles, redirects, hops, links.push(link)) == match link_number(
            titles,
            redirects,
            hops,
        )(link) {
            Some(n) => row_of(titles, redirects, hops, links).push(n),
            None => row_of(titles, redirects, hops, links),
        },
{
    let f = link_number(titles, redirects, hops);
    assert(links.push(link).drop_last() =~= links);
    assert(links.push(link).last() == link);
    if let Some(n) = f(link) {
        assert(links.filter_map(f) + seq![n] =~= links.filter_map(f).push(n));
    }
}

/// The articles are the scanned titles that are no redirects: each stands
/// once, and none is a source of a redirect.
pub proof fn lemma_articles(
    entries: Seq<(Seq<char>, Seq<Seq<char>>)>,
    redirects: Seq<(Seq<char>, Seq<char>)>,
)
    requires
        distinct_keys(entries),
    ensures
        distinct_keys(articles(entries, redirects)),
        forall|a: int|
            0 <= a < articles(entries, redirects).len() ==> {
                &&& !has_key(redirects, (#[trigger] articles(entries, redirects)[a]).0)
                &&& entries.contains(articles(entries, redirects)[a])
            },
        forall|i: int|
            0 <= i < entries.len() && !has_key(redirects, (#[trigger] entries[i]).0)
                ==> articles(entries, redirects).contains(entries[i]),
    decreases entries.len(),
{
    reveal(Seq::filter);
    let keep = is_article(redirects);
    let kept = articles(entries, redirects);
    if entries.len() > 0 {
        let front = entries.drop_last();
        let before = articles(front, redirects);
        lemma_articles(front, redirects);
        assert forall|a: int| 0 <= a < kept.len() implies {
            &&& !has_key(redirects, (#[trigger] kept[a]).0)
            &&& entries.contains(kept[a])
        } by {
            if a < before.len() {
                assert(kept[a] == before[a]);
                let i = choose|i: int| 0 <= i < front.len() && front[i] == before[a];
                assert(entries[i] == kept[a]);
            } else {
                assert(kept[a] == entries.last());
                assert(entries[entries.len() - 1] == kept[a]);
            }
        }
        assert forall|i: int|
            0 <= i < entries.len() && !has_key(redirects, (#[trigger] entries[i]).0) implies kept.contains(
            entries[i],
        ) by {
            if i < front.len() {
                assert(front[i] == entries[i]);
                let a = choose|a: int| 0 <= a < before.len() && before[a] == front[i];
                assert(kept[a] == entries[i]);
            } else {
                assert(kept[kept.len() - 1] == entries[i]);
            }
        }
        assert forall|a: int, b: int| 0 <= a < b < kept.len() implies (#[trigger] kept[a]).0 != (
        #[trigger] kept[b]).0 by {
            if b < before.len() {
                assert(before[a].0 != before[b].0);
            } else {
                assert(kept[a] == before[a]);
                let i = choose|i: int| 0 <= i < front.len() && front[i] == before[a];
                assert(entries[i].0 != entries[entries.len() - 1].0);
            }
        }
    }
}

/// As many hops as there are redirects are enough for the links: where any
/// number of hops lets the chains of all links end, that number does too.
pub proof fn lemma_links_end_at_ceiling(
    kept: Seq<(Seq<char>, Seq<Seq<char>>)>,
    redirects: Seq<(Seq<char>, Seq<char>)>,
    hops: nat,
)
    requires
        links_end(kept, redirects, hops),
    ensures
        links_end(kept, redirects, redirects.len()),
{
    assert forall|a: int, k: int| 0 <= a < kept.len() && 0 <= k < kept[a].1.len() implies follow(
        redirects,
        #[trigger] kept[a].1[k],
        redirects.len(),
    ) is Some by {
        lemma_ceiling_suffices(redirects, kept[a].1[k], hops);
    }
}

/// The graph of scanned entries is well shaped: its titles are distinct, so
/// that the numbers of `n` articles are exactly the numbers below `n`, each
/// article has its row, and the rows hold numbers of articles only. Every
/// scanned title that is no redirect is among the articles.
pub proof fn lemma_graph_well_shaped(
    entries: Seq<(Seq<char>, Seq<Seq<char>>)>,
    redirects: Seq<(Seq<char>, Seq<char>)>,
    hops: nat,
)
    requires
        distinct_keys(entries),
        entries.len() <= usize::MAX,
    ensures
        well_shaped(graph_of(entries, redirects, hops)),
        forall|a: int|
            0 <= a < graph_of(entries, redirects, hops).titles.len() ==> number_of(
                graph_of(entries, redirects, hops).titles,
                #[trigger] graph_of(entries, redirects, hops).titles[a],
            ) == Some(a as usize),
        forall|i: int|
            0 <= i < entries.len() && !has_key(redirects, (#[trigger] entries[i]).0) ==> number_of(
                graph_of(entries, redirects, hops).titles,
                entries[i].0,
            ) is Some,
{
    let kept = articles(entries, redirects);
    let g = graph_of(entries, redirects, hops);
    lemma_articles(entries, redirects);
    entries.lemma_filter_len(is_article(redirects));
    assert forall|a: int, b: int| 0 <= a < g.titles.len() && 0 <= b < g.titles.len() && a != b implies g.titles[a]
        != g.titles[b] by {
        if a < b {
            assert(kept[a].0 != kept[b].0);
        } else {
            assert(kept[b].0 != kept[a].0);
        }
    }
    lemma_numbers_dense(g.titles);
    assert forall|a: int, k: int| 0 <= a < g.rows.len() && 0 <= k < g.rows[a].len() implies (
    #[trigger] g.rows[a][k]) < g.titles.len() by {
        lemma_row_in_range(g.titles, redirects, hops, kept[a].1);
    }
    assert forall|i: int|
        0 <= i < entries.len() && !has_key(redirects, (#[trigger] entries[i]).0) implies number_of(
        g.titles,
        entries[i].0,
    ) is Some by {
        let a = choose|a: int| 0 <= a < kept.len() && kept[a] == entries[i];
        assert(g.titles[a] == entries[i].0);
    }
}

impl LinkGraph {
    /// The index is in order and the graph is well shaped.
    pub closed spec fn wf(&self) -> bool {
        &&& self.titles.wf()
        &&& well_shaped(self@)
    }

    /// What `wf` says of the graph as seen from outside.
    pub proof fn lemma_well_shaped(&self)
        requires
            self.wf(),
        ensures
            well_shaped(self@),
    {
    }

    /// How many articles the graph has.
    pub fn len(&self) -> (n: usize)
        requires
            self.wf(),
        ensures
            n == self@.titles.len(),
            n == self@.rows.len(),
    {
        self.rows.len()
    }

    /// The titles by number.
    pub fn titles(&self) -> (titles: &TitleIndex)
        requires
            self.wf(),
        ensures
            titles.wf(),
            titles@ == self@.titles,
    {
        &self.titles
    }

    /// The title of article `a`.
    pub fn title(&self, a: usize) -> (title: &String)
        requires
            self.wf(),
            a < self@.titles.len(),
        ensures
            title@ == self@.titles[a as int],
    {
        self.titles.title(a)
    }

    /// The numbers that the links of article `a` lead to.
    pub fn row(&self, a: usize) -> (row: &Vec<usize>)
        requires
            self.wf(),
            a < self@.rows.len(),
        ensures
            row@ == self@.rows[a as int],
    {
        &self.rows[a]
    }
}

/// The numbers that `links` lead to, or the first link whose chain does not
/// end within `max_hops` redirects.
pub fn build_row(titles: &TitleIndex, redirects: &RedirectMap, max_hops: usize, links: &Vec<String>) -> (r:
    Result<Vec<usize>, usize>)
    requires
        titles.wf(),
        redirects.wf(),
    ensures
        match r {
            Ok(row) => {
                &&& row@ == row_of(titles@, redirects@, max_hops as nat, texts(links@))
                &&& forall|k: int|
                    0 <= k < links@.len() ==> follow(
                        redirects@,
                        #[trigger] texts(links@)[k],
                        max_hops as nat,
                    ) is Some
            },
            Err(k) => {
                &&& k < links@.len()
                &&& follow(redirects@, links@[k as int]@, max_hops as nat) is None
                &&& forall|j: int|
                    0 <= j < k ==> follow(
                        redirects@,
                        #[trigger] texts(links@)[j],
                        max_hops as nat,
                    ) is Some
            },
        },
{
    let ghost all = texts(links@);
    let ghost f = link_number(titles@, redirects@, max_hops as nat);
    let mut row: Vec<usize> = Vec::new();
    let mut k: usize = 0;
    assert(all.take(0) =~= Seq::empty());
    while k < links.len()
        invariant
            titles.wf(),
            redirects.wf(),
            k <= links@.len(),
            all == texts(links@),
            f == link_number(titles@, redirects@, max_hops as nat),
            row@ == all.take(k as int).filter_map(f),
            forall|j: int| 0 <= j < k ==> follow(redirects@, #[trigger] all[j], max_hops as nat) is Some,
        decreases links@.len() - k,
    {
        proof {
            all.lemma_filter_map_take_succ(f, k as int);
            titles.lemma_distinct();
            lemma_numbers_dense(titles@);
        }
        match redirects.resolve(links[k].as_str(), max_hops) {
            Some(end) => {
                match titles.position(end) {
                    Some(n) => {
                        row.push(n);
                    },
                    None => {},
                }
            },
            None => {
                return Err(k);
            },
        }
        k += 1;
    }
    assert(all.take(k as int) =~= all);
    Ok(row)
}

/// Numbers the articles among `entries` and rewrites their links as numbers.
///
/// Fails on the first link of an article whose chain of redirects has not
/// ended after `max_hops` redirects, and names the link's target.
pub fn build_graph(entries: &TitleLists, redirects: &RedirectMap, max_hops: usize) -> (r: Result<
    LinkGraph,
    DumpError,
>)
    requires
        entries.wf(),
        redirects.wf(),
    ensures
        match r {
            Ok(graph) => {
                &&& links_end(articles(entries@, redirects@), redirects@, max_hops as nat)
                &&& graph.wf()
                &&& graph@ == graph_of(entries@, redirects@, max_hops as nat)
            },
            Err(e) => e matches DumpError::RedirectCycle { title } && exists|a: int, k: int|
                first_unending_link(
                    articles(entries@, redirects@),
                    redirects@,
                    max_hops as nat,
                    a,
                    k,
                ) && articles(entries@, redirects@)[a].1[k] == title@,
        },
{
    let ghost keep = is_article(redirects@);
    let ghost hops = max_hops as nat;
    let mut titles = TitleIndex::new();
    let mut kept: Vec<usize> = Vec::new();
    let mut i: usize = 0;
    proof {
        entries.lemma_distinct();
        reveal(Seq::filter);
        assert(entries@.take(0) =~= Seq::empty());
        assert(keys_of(Seq::<(Seq<char>, Seq<Seq<char>>)>::empty()) =~= Seq::<Seq<char>>::empty());
    }
    while i < entries.len()
        invariant
            entries.wf(),
            redirects.wf(),
            titles.wf(),
            distinct_keys(entries@),
            keep == is_article(redirects@),
            i <= entries@.len(),
            kept@.len() == titles@.len(),
            titles@ == keys_of(entries@.take(i as int).filter(keep)),
            forall|a: int|
                0 <= a < kept@.len() ==> (#[trigger] kept@[a]) < i && entries@[kept@[a] as int]
                    == entries@.take(i as int).filter(keep)[a],
        decreases entries@.len() - i,
    {
        let ghost before = entries@.take(i as int).filter(keep);
        proof {
            assert(entries@.take(i + 1) =~= entries@.take(i as int).push(entries@[i as int]));
            entries@.take(i as int).lemma_filter_push(entries@[i as int], keep);
        }
        let title = entries.title(i);
        if redirects.position(title.as_str()).is_none() {
            assert(!titles@.contains(title@)) by {
                if titles@.contains(title@) {
                    let a = choose|a: int| 0 <= a < titles@.len() && titles@[a] == title@;
                    assert(before[a].0 == title@);
                    assert(entries@[kept@[a] as int].0 == entries@[i as int].0);
                }
            }
            titles.intern(title.clone());
            kept.push(i);
            assert(titles@ =~= keys_of(before.push(entries@[i as int])));
        }
        i += 1;
    }
    assert(entries@.take(i as int) =~= entries@);
    let ghost arts = articles(entries@, redirects@);
    let mut rows: Vec<Vec<usize>> = Vec::new();
    let mut a: usize = 0;
    assert(arts.take(0) =~= Seq::empty());
    while a < kept.len()
        invariant
            entries.wf(),
            redirects.wf(),
            titles.wf(),
            hops == max_hops as nat,
            arts == articles(entries@, redirects@),
            titles@ == keys_of(arts),
            kept@.len() == arts.len(),
            forall|b: int|
                0 <= b < kept@.len() ==> (#[trigger] kept@[b]) < entries@.len()
                    && entries@[kept@[b] as int] == arts[b],
            a <= kept@.len(),
            rows@.len() == a,
            forall|b: int|
                0 <= b < a ==> (#[trigger] rows@[b])@ == row_of(titles@, redirects@, hops, arts[b].1),
            links_end(arts.take(a as int), redirects@, hops),
        decreases kept@.len() - a,
    {
        let links = entries.list(kept[a]);
        match build_row(&titles, redirects, max_hops, links) {
            Ok(row) => {
                assert(links_end(arts.take(a + 1), redirects@, hops)) by {
                    assert forall|b: int, k: int|
                        0 <= b < arts.take(a + 1).len() && 0 <= k < arts.take(a + 1)[b].1.len() implies follow(
                        redirects@,
                        #[trigger] arts.take(a + 1)[b].1[k],
                        hops,
                    ) is Some by {
                        if b < a {
                            assert(arts.take(a as int)[b].1[k] == arts.take(a + 1)[b].1[k]);
                        } else {
                            assert(texts(links@)[k] == arts[a as int].1[k]);
                        }
                    }
                }
                rows.push(row);
            },
            Err(k) => {
                assert(first_unending_link(arts, redirects@, hops, a as int, k as int)) by {
                    assert forall|j: int| 0 <= j < k implies follow(
                        redirects@,
                        #[trigger] arts[a as int].1[j],
                        hops,
                    ) is Some by {
                        assert(texts(links@)[j] == arts[a as int].1[j]);
                    }
                }
                return Err(DumpError::RedirectCycle { title: links[k].clone() });
            },
        }
        a += 1;
    }
    assert(arts.take(a as int) =~= arts);
    let graph = LinkGraph { titles, rows };
    proof {
        graph.titles.lemma_distinct();
        assert(graph@.rows =~= graph_of(entries@, redirects@, hops).rows);
        assert forall|b: int, k: int|
            0 <= b < graph@.rows.len() && 0 <= k < graph@.rows[b].len() implies (
        #[trigger] graph@.rows[b][k]) < graph@.titles.len() by {
            lemma_row_in_range(graph@.titles, redirects@, hops, arts[b].1);
        }
    }
    Ok(graph)
}

/// The link graph of the articles in a stream of events.
///
/// The events are scanned in the articles mode, up to the end of the stream
/// or until `max_pages` pages are committed. Then the articles are numbered
/// and their links rewritten, each chain of redirects being followed for as
/// many hops as there are redirects, which every chain that ends can do
/// with.
pub fn process_articles(events: &Vec<Event>, max_pages: Option<usize>) -> (r: Result<
    LinkGraph,
    DumpError,
>)
    ensures
        match scanned(initial(Mode::Articles), event_views(events@), max_pages) {
            Ok(end) => match r {
                Ok(graph) => {
                    &&& links_end(
                        articles(end.entries, end.redirects),
                        end.redirects,
                        end.redirects.len(),
                    )
                    &&& graph.wf()
                    &&& graph@ == graph_of(end.entries, end.redirects, end.redirects.len())
                },
                Err(e) => e matches DumpError::RedirectCycle { title } && exists|a: int, k: int|
                    first_unending_link(
                        articles(end.entries, end.redirects),
                        end.redirects,
                        end.redirects.len(),
                        a,
                        k,
                    ) && articles(end.entries, end.redirects)[a].1[k] == title@,
            },
            Err(e) => r matches Err(err) && err == e,
        },
{
    let state = scan_events(Mode::Articles, events, max_pages)?;
    let (redirects, entries) = state.into_tables();
    build_graph(&entries, &redirects, redirects.len())
}

} // verus!
