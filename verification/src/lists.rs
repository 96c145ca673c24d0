//! Lists of texts kept under titles: the links of a page, or its editors.

use vstd::prelude::*;
use crate::assoc::{distinct_keys, has_key, lemma_place, place_of, put, value_of};
use crate::index::TitleIndex;
use crate::text::texts;

verus! {

/// `list`, followed by those of `items` that were not yet in it, each once,
/// in the order in which they first occur.
pub open spec fn add_distinct(list: Seq<Seq<char>>, items: Seq<Seq<char>>) -> Seq<Seq<char>>
    decreases items.len(),
{
    if items.len() == 0 {
        list
    } else {
        let so_far = add_distinct(list, items.drop_last());
        if so_far.contains(items.last()) {
            so_far
        } else {
            so_far.push(items.last())
        }
    }
}

/// What is listed under `key`: nothing where there is no such entry.
pub open spec fn listed(entries: Seq<(Seq<char>, Seq<Seq<char>>)>, key: Seq<char>) -> Seq<
    Seq<char>,
> {
    match value_of(entries, key) {
        Some(list) => list,
        None => Seq::empty(),
    }
}

/// Adding items one by one holds exactly what was there and what was added,
/// and repeats nothing that was not repeated before.
pub proof fn lemma_add_distinct(list: Seq<Seq<char>>, items: Seq<Seq<char>>)
    ensures
        forall|t: Seq<char>|
            add_distinct(list, items).contains(t) <==> list.contains(t) || items.contains(t),
        list.no_duplicates() ==> add_distinct(list, items).no_duplicates(),
        list.is_prefix_of(add_distinct(list, items)),
    decreases items.len(),
{
    if items.len() > 0 {
        let front = items.drop_last();
        let so_far = add_distinct(list, front);
        let after = add_distinct(list, items);
        lemma_add_distinct(list, front);
        assert forall|t: Seq<char>| after.contains(t) <==> list.contains(t) || items.contains(
            t,
        ) by {
            if items.contains(t) {
                let i = choose|i: int| 0 <= i < items.len() && items[i] == t;
                if i < front.len() {
                    assert(front[i] == t);
                }
            }
            if front.contains(t) {
                let i = choose|i: int| 0 <= i < front.len() && front[i] == t;
                assert(items[i] == t);
            }
            if !so_far.contains(items.last()) {
                assert(after[so_far.len() as int] == items.last());
                if so_far.contains(t) {
                    let i = choose|i: int| 0 <= i < so_far.len() && so_far[i] == t;
                    assert(after[i] == t);
                }
            }
            assert(items[items.len() - 1] == items.last());
        }
    }
}

/// Whether no list holds an item twice.
pub open spec fn lists_distinct(entries: Seq<(Seq<char>, Seq<Seq<char>>)>) -> bool {
    forall|i: int| 0 <= i < entries.len() ==> (#[trigger] entries[i]).1.no_duplicates()
}

/// What is listed under a title of such entries holds no item twice.
pub proof fn lemma_listed_distinct(entries: Seq<(Seq<char>, Seq<Seq<char>>)>, key: Seq<char>)
    requires
        lists_distinct(entries),
    ensures
        listed(entries, key).no_duplicates(),
{
    if has_key(entries, key) {
        let p = place_of(entries, key);
        assert(entries[p].1.no_duplicates());
    }
}

/// Whether `item` is in `list`.
pub fn contains_text(list: &Vec<String>, item: &String) -> (found: bool)
    ensures
        found == texts(list@).contains(item@),
{
    let mut i: usize = 0;
    while i < list.len()
        invariant
            i <= list.len(),
            forall|j: int| 0 <= j < i ==> texts(list@)[j] != item@,
        decreases list.len() - i,
    {
        if list[i] == *item {
            assert(texts(list@)[i as int] == item@);
            return true;
        }
        i += 1;
    }
    false
}

/// Appends to `list` those of `items` that it does not hold yet.
pub fn push_distinct(list: &mut Vec<String>, items: &Vec<String>)
    ensures
        texts(final(list)@) == add_distinct(texts(old(list)@), texts(items@)),
{
    let mut i: usize = 0;
    while i < items.len()
        invariant
            i <= items.len(),
            texts(list@) == add_distinct(texts(old(list)@), texts(items@).take(i as int)),
        decreases items.len() - i,
    {
        let ghost before = list@;
        assert(texts(items@).take(i + 1).drop_last() =~= texts(items@).take(i as int));
        if !contains_text(list, &items[i]) {
            list.push(items[i].clone());
            assert(texts(list@) =~= texts(before).push(items@[i as int]@));
        }
        i += 1;
    }
    assert(texts(items@).take(i as int) =~= texts(items@));
}

/// Appends `items` to `list`.
pub fn push_all(list: &mut Vec<String>, items: &Vec<String>)
    ensures
        texts(final(list)@) == texts(old(list)@) + texts(items@),
{
    let mut i: usize = 0;
    while i < items.len()
        invariant
            i <= items.len(),
            texts(list@) == texts(old(list)@) + texts(items@).take(i as int),
        decreases items.len() - i,
    {
        let ghost before = list@;
        list.push(items[i].clone());
        assert(texts(list@) =~= texts(before).push(items@[i as int]@));
        assert(texts(items@).take(i + 1) =~= texts(items@).take(i as int).push(items@[i as int]@));
        i += 1;
    }
    assert(texts(items@).take(i as int) =~= texts(items@));
}

/// Titles in the order in which they were first seen, each with a list of
/// texts.
pub struct TitleLists {
    titles: TitleIndex,
    lists: Vec<Vec<String>>,
}

impl View for TitleLists {
    type V = Seq<(Seq<char>, Seq<Seq<char>>)>;

    /// The entries as pairs of a title and its list.
    closed spec fn view(&self) -> Seq<(Seq<char>, Seq<Seq<char>>)> {
        Seq::new(self.lists@.len(), |i: int| (self.titles@[i], texts(self.lists@[i]@)))
    }
}

impl TitleLists {
    /// Every title has its list.
    pub closed spec fn wf(&self) -> bool {
        &&& self.titles.wf()
        &&& self.titles@.len() == self.lists@.len()
    }

    /// No title is listed twice.
    pub proof fn lemma_distinct(&self)
        requires
            self.wf(),
        ensures
            distinct_keys(self@),
    {
        self.titles.lemma_distinct();
    }

    /// No entries.
    pub fn new() -> (lists: TitleLists)
        ensures
            lists.wf(),
            lists@ == Seq::<(Seq<char>, Seq<Seq<char>>)>::empty(),
    {
        let lists = TitleLists { titles: TitleIndex::new(), lists: Vec::new() };
        assert(lists@ =~= Seq::<(Seq<char>, Seq<Seq<char>>)>::empty());
        lists
    }

    /// How many titles are listed.
    pub fn len(&self) -> (n: usize)
        ensures
            n == self@.len(),
    {
        self.lists.len()
    }

    /// The title of the entry at `i`.
    pub fn title(&self, i: usize) -> (title: &String)
        requires
            self.wf(),
            i < self@.len(),
        ensures
            title@ == self@[i as int].0,
    {
        self.titles.title(i)
    }

    /// The list of the entry at `i`.
    pub fn list(&self, i: usize) -> (list: &Vec<String>)
        requires
            i < self@.len(),
        ensures
            texts(list@) == self@[i as int].1,
    {
        &self.lists[i]
    }

    /// The place of the entry of `title`, if it has one.
    pub fn position(&self, title: &str) -> (found: Option<usize>)
        requires
            self.wf(),
        ensures
            match found {
                Some(i) => i < self@.len() && self@[i as int].0 == title@,
                None => !has_key(self@, title@),
            },
    {
        let found = self.titles.position(title);
        if found.is_none() {
            assert(!has_key(self@, title@)) by {
                if has_key(self@, title@) {
                    let p = place_of(self@, title@);
                    assert(self.titles@[p] == title@);
                }
            }
        }
        found
    }

    /// The place of the entry of `title`, which is made with an empty list
    /// where there was none.
    fn slot(&mut self, title: String) -> (i: usize)
        requires
            old(self).wf(),
        ensures
            final(self).wf(),
            i < final(self)@.len(),
            final(self)@ == put(old(self)@, title@, listed(old(self)@, title@)),
            final(self)@[i as int].0 == title@,
            final(self)@[i as int].1 == listed(old(self)@, title@),
    {
        let ghost before = *self;
        let ghost key = title@;
        proof {
            self.lemma_distinct();
        }
        let i = self.titles.intern(title);
        if i < self.lists.len() {
            proof {
                lemma_place(before@, i as int);
            }
            assert(self@ =~= put(before@, key, listed(before@, key)));
        } else {
            assert(!has_key(before@, key)) by {
                if has_key(before@, key) {
                    let p = place_of(before@, key);
                    assert(before.titles@[p] == key);
                }
            }
            self.lists.push(Vec::new());
            assert(texts(Seq::<String>::empty()) =~= Seq::<Seq<char>>::empty());
            assert(self@ =~= put(before@, key, listed(before@, key)));
        }
        i
    }

    /// Appends `items` to the list of `title`.
    pub fn extend(&mut self, title: String, items: &Vec<String>)
        requires
            old(self).wf(),
        ensures
            final(self).wf(),
            final(self)@ == put(old(self)@, title@, listed(old(self)@, title@) + texts(items@)),
    {
        let ghost before = *self;
        let ghost key = title@;
        proof {
            self.lemma_distinct();
        }
        let i = self.slot(title);
        let ghost middle = *self;
        proof {
            self.lemma_distinct();
            lemma_place(middle@, i as int);
        }
        push_all(&mut self.lists[i], items);
        assert(self@ =~= middle@.update(i as int, (key, listed(before@, key) + texts(items@))));
        assert(self@ =~= put(before@, key, listed(before@, key) + texts(items@)));
    }

    /// Appends to the list of `title` those of `items` that it does not hold
    /// yet.
    pub fn extend_distinct(&mut self, title: String, items: &Vec<String>)
        requires
            old(self).wf(),
        ensures
            final(self).wf(),
            final(self)@ == put(
                old(self)@,
                title@,
                add_distinct(listed(old(self)@, title@), texts(items@)),
            ),
    {
        let ghost before = *self;
        let ghost key = title@;
        proof {
            self.lemma_distinct();
        }
        let i = self.slot(title);
        let ghost middle = *self;
        proof {
            self.lemma_distinct();
            lemma_place(middle@, i as int);
        }
        push_distinct(&mut self.lists[i], items);
        assert(self@ =~= middle@.update(
            i as int,
            (key, add_distinct(listed(before@, key), texts(items@))),
        ));
        assert(self@ =~= put(
            before@,
            key,
            add_distinct(listed(before@, key), texts(items@)),
        ));
    }
}

} // verus!
