//! The editors of every article.
//!
//! A redirect is no article: after the scan, what was collected under a
//! redirect is moved to the title where its chain of redirects ends.

use vstd::prelude::*;
use crate::assoc::{
    distinct_keys, has_key, lemma_place, lemma_put, lemma_put_entries, place_of, put, value_of,
};
use crate::error::DumpError;
use crate::lists::{
    add_distinct, lemma_add_distinct, lemma_listed_distinct, listed, lists_distinct, TitleLists,
};
use crate::redirect::{follow, lemma_ceiling_suffices, lemma_follow_ends, RedirectMap};
use crate::scan::{initial, scan_events, scanned};
use crate::token::{event_views, Event, Mode};

verus! {

/// Whether the chain of every declared target ends within `hops` redirects.
pub open spec fn all_end(redirects: Seq<(Seq<char>, Seq<char>)>, hops: nat) -> bool {
    forall|i: int|
        0 <= i < redirects.len() ==> follow(redirects, (#[trigger] redirects[i]).1, hops) is Some
}

/// Whether the redirect at `i` is the first whose target's chain does not
/// end within `hops` redirects.
pub open spec fn first_unending(redirects: Seq<(Seq<char>, Seq<char>)>, hops: nat, i: int) -> bool {
    &&& 0 <= i < redirects.len()
    &&& follow(redirects, redirects[i].1, hops) is None
    &&& forall|j: int| 0 <= j < i ==> follow(redirects, (#[trigger] redirects[j]).1, hops) is Some
}

/// The title under which what was collected for `title` belongs: the end of
/// its chain of redirects, or itself where it is no redirect.
pub open spec fn home_of(redirects: Seq<(Seq<char>, Seq<char>)>, title: Seq<char>, hops: nat) -> Seq<
    char,
> {
    match value_of(redirects, title) {
        Some(target) => follow(redirects, target, hops).unwrap(),
        None => title,
    }
}

/// The entries with every list moved to the home of its title. Where several
/// titles have the same home their lists are joined, each editor once; the
/// homes stand in the order in which they first come up.
pub open spec fn merged(
    entries: Seq<(Seq<char>, Seq<Seq<char>>)>,
    redirects: Seq<(Seq<char>, Seq<char>)>,
    hops: nat,
) -> Seq<(Seq<char>, Seq<Seq<char>>)>
    decreases entries.len(),
{
    if entries.len() == 0 {
        Seq::empty()
    } else {
        let before = merged(entries.drop_last(), redirects, hops);
        let home = home_of(redirects, entries.last().0, hops);
        put(before, home, add_distinct(listed(before, home), entries.last().1))
    }
}

/// What is collected never ends up under a redirect: where all chains end,
/// the home of a title is no source.
pub proof fn lemma_home_is_no_source(
    redirects: Seq<(Seq<char>, Seq<char>)>,
    title: Seq<char>,
    hops: nat,
)
    requires
        all_end(redirects, hops),
    ensures
        !has_key(redirects, home_of(redirects, title, hops)),
{
    if has_key(redirects, title) {
        let p = place_of(redirects, title);
        assert(follow(redirects, redirects[p].1, hops) is Some);
        lemma_follow_ends(redirects, redirects[p].1, hops);
    }
}

/// As many hops as there are redirects are enough for the merge: where any
/// number of hops lets all chains end, that number does too, and every title
/// has the same home.
pub proof fn lemma_all_end_at_ceiling(redirects: Seq<(Seq<char>, Seq<char>)>, hops: nat)
    requires
        all_end(redirects, hops),
    ensures
        all_end(redirects, redirects.len()),
        forall|title: Seq<char>| #[trigger]
            home_of(redirects, title, redirects.len()) == home_of(redirects, title, hops),
{
    assert forall|i: int| 0 <= i < redirects.len() implies follow(
        redirects,
        (#[trigger] redirects[i]).1,
        redirects.len(),
    ) is Some by {
        lemma_ceiling_suffices(redirects, redirects[i].1, hops);
    }
    assert forall|title: Seq<char>| #[trigger]
        home_of(redirects, title, redirects.len()) == home_of(redirects, title, hops) by {
        if has_key(redirects, title) {
            let p = place_of(redirects, title);
            assert(follow(redirects, redirects[p].1, hops) is Some);
            lemma_ceiling_suffices(redirects, redirects[p].1, hops);
        }
    }
}

/// After the merge every title stands once and no list holds a name twice.
pub proof fn lemma_merged_distinct(
    entries: Seq<(Seq<char>, Seq<Seq<char>>)>,
    redirects: Seq<(Seq<char>, Seq<char>)>,
    hops: nat,
)
    ensures
        distinct_keys(merged(entries, redirects, hops)),
        lists_distinct(merged(entries, redirects, hops)),
    decreases entries.len(),
{
    if entries.len() > 0 {
        let before = merged(entries.drop_last(), redirects, hops);
        let home = home_of(redirects, entries.last().0, hops);
        let list = add_distinct(listed(before, home), entries.last().1);
        let after = merged(entries, redirects, hops);
        lemma_merged_distinct(entries.drop_last(), redirects, hops);
        lemma_listed_distinct(before, home);
        lemma_add_distinct(listed(before, home), entries.last().1);
        lemma_put(before, home, list);
        lemma_put_entries(before, home, list);
        assert forall|i: int| 0 <= i < after.len() implies (#[trigger] after[i]).1.no_duplicates() by {
            if after[i] != (home, list) {
                assert(after[i] == before[i]);
            }
        }
    }
}

/// After the merge no title is a source of a redirect, provided that all
/// chains end.
pub proof fn lemma_merged_homes(
    entries: Seq<(Seq<char>, Seq<Seq<char>>)>,
    redirects: Seq<(Seq<char>, Seq<char>)>,
    hops: nat,
)
    requires
        all_end(redirects, hops),
    ensures
        forall|i: int|
            0 <= i < merged(entries, redirects, hops).len() ==> !has_key(
                redirects,
                (#[trigger] merged(entries, redirects, hops)[i]).0,
            ),
    decreases entries.len(),
{
    if entries.len() > 0 {
        let before = merged(entries.drop_last(), redirects, hops);
        let home = home_of(redirects, entries.last().0, hops);
        let list = add_distinct(listed(before, home), entries.last().1);
        let after = merged(entries, redirects, hops);
        lemma_merged_homes(entries.drop_last(), redirects, hops);
        lemma_home_is_no_source(redirects, entries.last().0, hops);
        lemma_put_entries(before, home, list);
        assert forall|i: int| 0 <= i < after.len() implies !has_key(
            redirects,
            (#[trigger] after[i]).0,
        ) by {
            if after[i] != (home, list) {
                assert(after[i] == before[i]);
            }
        }
    }
}

/// After the merge the editors of a title are those of all the titles whose
/// home it is.
pub proof fn lemma_merged_editors(
    entries: Seq<(Seq<char>, Seq<Seq<char>>)>,
    redirects: Seq<(Seq<char>, Seq<char>)>,
    hops: nat,
    home: Seq<char>,
    name: Seq<char>,
)
    ensures
        listed(merged(entries, redirects, hops), home).contains(name) <==> exists|i: int|
            0 <= i < entries.len() && home_of(redirects, (#[trigger] entries[i]).0, hops) == home
                && entries[i].1.contains(name),
    decreases entries.len(),
{
    let collected = |es: Seq<(Seq<char>, Seq<Seq<char>>)>|
        exists|i: int|
            0 <= i < es.len() && home_of(redirects, (#[trigger] es[i]).0, hops) == home
                && es[i].1.contains(name);
    if entries.len() > 0 {
        let front = entries.drop_last();
        let before = merged(front, redirects, hops);
        let last_home = home_of(redirects, entries.last().0, hops);
        let list = add_distinct(listed(before, last_home), entries.last().1);
        let after = merged(entries, redirects, hops);
        lemma_merged_editors(front, redirects, hops, home, name);
        lemma_merged_distinct(front, redirects, hops);
        lemma_add_distinct(listed(before, last_home), entries.last().1);
        lemma_put(before, last_home, list);
        let here = last_home == home && entries.last().1.contains(name);
        assert(listed(after, home).contains(name) <==> listed(before, home).contains(name) || here);
        assert(collected(entries) <==> collected(front) || here) by {
            if collected(front) {
                let i = choose|i: int|
                    0 <= i < front.len() && home_of(redirects, (#[trigger] front[i]).0, hops)
                        == home && front[i].1.contains(name);
                assert(entries[i] == front[i]);
            }
            if here {
                assert(entries[entries.len() - 1] == entries.last());
            }
            if collected(entries) {
                let i = choose|i: int|
                    0 <= i < entries.len() && home_of(redirects, (#[trigger] entries[i]).0, hops)
                        == home && entries[i].1.contains(name);
                if i < front.len() {
                    assert(front[i] == entries[i]);
                }
            }
        }
    } else {
        assert(!has_key(merged(entries, redirects, hops), home));
    }
}

/// For each redirect, in order, the title where the chain of its target
/// ends.
///
/// Fails on the first redirect whose chain has not ended after `max_hops`
/// redirects behind its target, and names its source.
pub fn flatten(redirects: &RedirectMap, max_hops: usize) -> (r: Result<Vec<String>, DumpError>)
    requires
        redirects.wf(),
    ensures
        match r {
            Ok(ends) => {
                &&& all_end(redirects@, max_hops as nat)
                &&& ends@.len() == redirects@.len()
                &&& forall|i: int|
                    0 <= i < ends@.len() ==> follow(
                        redirects@,
                        redirects@[i].1,
                        max_hops as nat,
                    ) == Some(#[trigger] ends@[i]@)
            },
            Err(e) => e matches DumpError::RedirectCycle { title } && exists|i: int|
                first_unending(redirects@, max_hops as nat, i) && redirects@[i].0 == title@,
        },
{
    let mut ends: Vec<String> = Vec::new();
    let mut i: usize = 0;
    while i < redirects.len()
        invariant
            redirects.wf(),
            i <= redirects@.len(),
            ends@.len() == i,
            forall|j: int|
                0 <= j < i ==> follow(redirects@, redirects@[j].1, max_hops as nat) == Some(
                    #[trigger] ends@[j]@,
                ),
        decreases redirects@.len() - i,
    {
        match redirects.resolve(redirects.target(i).as_str(), max_hops) {
            Some(end) => {
                ends.push(end.to_owned());
            },
            None => {
                assert(first_unending(redirects@, max_hops as nat, i as int)) by {
                    assert forall|j: int| 0 <= j < i implies follow(
                        redirects@,
                        (#[trigger] redirects@[j]).1,
                        max_hops as nat,
                    ) is Some by {
                        assert(follow(redirects@, redirects@[j].1, max_hops as nat) == Some(
                            ends@[j]@,
                        ));
                    }
                }
                return Err(DumpError::RedirectCycle { title: redirects.source(i).clone() });
            },
        }
        i += 1;
    }
    assert forall|j: int| 0 <= j < redirects@.len() implies follow(
        redirects@,
        (#[trigger] redirects@[j]).1,
        max_hops as nat,
    ) is Some by {
        assert(follow(redirects@, redirects@[j].1, max_hops as nat) == Some(ends@[j]@));
    }
    Ok(ends)
}

/// Moves what was collected under redirects to the titles where their
/// chains end.
///
/// All redirects are followed first, also those under which nothing was
/// collected: one chain that does not end within `max_hops` redirects fails
/// the whole.
pub fn merge_editors(entries: &TitleLists, redirects: &RedirectMap, max_hops: usize) -> (r: Result<
    TitleLists,
    DumpError,
>)
    requires
        entries.wf(),
        redirects.wf(),
    ensures
        match r {
            Ok(lists) => {
                &&& all_end(redirects@, max_hops as nat)
                &&& lists.wf()
                &&& lists@ == merged(entries@, redirects@, max_hops as nat)
            },
            Err(e) => e matches DumpError::RedirectCycle { title } && exists|i: int|
                first_unending(redirects@, max_hops as nat, i) && redirects@[i].0 == title@,
        },
{
    let ends = flatten(redirects, max_hops)?;
    let mut lists = TitleLists::new();
    let mut i: usize = 0;
    assert(entries@.take(0) =~= Seq::empty());
    while i < entries.len()
        invariant
            entries.wf(),
            redirects.wf(),
            lists.wf(),
            i <= entries@.len(),
            ends@.len() == redirects@.len(),
            forall|j: int|
                0 <= j < ends@.len() ==> follow(
                    redirects@,
                    redirects@[j].1,
                    max_hops as nat,
                ) == Some(#[trigger] ends@[j]@),
            lists@ == merged(entries@.take(i as int), redirects@, max_hops as nat),
        decreases entries@.len() - i,
    {
        let title = entries.title(i);
        let home = match redirects.position(title.as_str()) {
            Some(p) => {
                proof {
                    redirects.lemma_distinct();
                    lemma_place(redirects@, p as int);
                    assert(follow(redirects@, redirects@[p as int].1, max_hops as nat) == Some(
                        ends@[p as int]@,
                    ));
                }
                ends[p].clone()
            },
            None => title.clone(),
        };
        assert(home@ == home_of(redirects@, entries@[i as int].0, max_hops as nat));
        assert(entries@.take(i + 1).drop_last() =~= entries@.take(i as int));
        lists.extend_distinct(home, entries.list(i));
        i += 1;
    }
    assert(entries@.take(i as int) =~= entries@);
    Ok(lists)
}

/// The editors of every article in a stream of events.
///
/// The events are scanned in the revisions mode, up to the end of the
/// stream or until `max_pages` pages are committed. Then the redirects are
/// followed, each for as many hops as there are redirects, which every chain
/// that ends can do with, and what was collected is moved to where they end.
pub fn process_revisions(events: &Vec<Event>, max_pages: Option<usize>) -> (r: Result<
    TitleLists,
    DumpError,
>)
    ensures
        match scanned(initial(Mode::Revisions), event_views(events@), max_pages) {
            Ok(end) => match r {
                Ok(lists) => {
                    &&& all_end(end.redirects, end.redirects.len())
                    &&& lists.wf()
                    &&& lists@ == merged(end.entries, end.redirects, end.redirects.len())
                },
                Err(e) => e matches DumpError::RedirectCycle { title } && exists|i: int|
                    first_unending(end.redirects, end.redirects.len(), i) && end.redirects[i].0
                        == title@,
            },
            Err(e) => r matches Err(err) && err == e,
        },
{
    let state = scan_events(Mode::Revisions, events, max_pages)?;
    let (redirects, entries) = state.into_tables();
    merge_editors(&entries, &redirects, redirects.len())
}

} // verus!
