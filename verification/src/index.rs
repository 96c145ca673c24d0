//! Titles numbered in the order in which they are first seen.

use vstd::prelude::*;
use vstd::hash_map::StringHashMap;
use crate::text::texts;

verus! {

/// A list of distinct titles. The number of a title is its place in the
/// list, so the numbers in use are always `0..len`.
pub struct TitleIndex {
    titles: Vec<String>,
    slots: StringHashMap<usize>,
}

/// The number of `title` in `titles`: its place, where it has one.
pub open spec fn number_of(titles: Seq<Seq<char>>, title: Seq<char>) -> Option<usize> {
    if titles.contains(title) {
        Some(titles.index_of(title) as usize)
    } else {
        None
    }
}

/// Distinct titles and the numbers below their count stand one to one: the
/// title at place `i` has the number `i` and no other title has it.
pub proof fn lemma_numbers_dense(titles: Seq<Seq<char>>)
    requires
        titles.no_duplicates(),
        titles.len() <= usize::MAX,
    ensures
        forall|i: int| 0 <= i < titles.len() ==> number_of(titles, #[trigger] titles[i]) == Some(i as usize),
        forall|t: Seq<char>|
            #[trigger] number_of(titles, t) matches Some(n) ==> n < titles.len() && titles[n as int] == t,
{
    assert forall|i: int| 0 <= i < titles.len() implies number_of(titles, #[trigger] titles[i]) == Some(
        i as usize,
    ) by {
        let j = titles.index_of(titles[i]);
        assert(titles[j] == titles[i]);
    }
}

impl View for TitleIndex {
    type V = Seq<Seq<char>>;

    /// The titles by number.
    closed spec fn view(&self) -> Seq<Seq<char>> {
        texts(self.titles@)
    }
}

impl TitleIndex {
    /// The lookup table agrees with the list.
    pub closed spec fn wf(&self) -> bool {
        &&& forall|i: int|
            0 <= i < self.titles@.len() ==> {
                &&& self.slots@.contains_key(#[trigger] self.titles@[i]@)
                &&& self.slots@[self.titles@[i]@] == i
            }
        &&& forall|k: Seq<char>| #[trigger]
            self.slots@.contains_key(k) ==> {
                &&& self.slots@[k] < self.titles@.len()
                &&& self.titles@[self.slots@[k] as int]@ == k
            }
    }

    /// No title is listed twice, and the numbers fit the machine.
    pub proof fn lemma_distinct(&self)
        requires
            self.wf(),
        ensures
            self@.no_duplicates(),
            self@.len() <= usize::MAX,
    {
        assert(self.titles.len() == self.titles@.len());
        assert forall|i: int, j: int| 0 <= i < self@.len() && 0 <= j < self@.len() && i != j implies self@[i]
            != self@[j] by {
            assert(self.slots@[self.titles@[i]@] == i);
            assert(self.slots@[self.titles@[j]@] == j);
        }
    }

    /// An index without titles.
    pub fn new() -> (index: TitleIndex)
        ensures
            index.wf(),
            index@ == Seq::<Seq<char>>::empty(),
    {
        let index = TitleIndex { titles: Vec::new(), slots: StringHashMap::new() };
        assert(index@ =~= Seq::<Seq<char>>::empty());
        index
    }

    /// How many titles are numbered.
    pub fn len(&self) -> (n: usize)
        ensures
            n == self@.len(),
    {
        self.titles.len()
    }

    /// The number of `title`, if it has one.
    pub fn position(&self, title: &str) -> (found: Option<usize>)
        requires
            self.wf(),
        ensures
            match found {
                Some(i) => i < self@.len() && self@[i as int] == title@,
                None => !self@.contains(title@),
            },
    {
        match self.slots.get(title) {
            Some(i) => Some(*i),
            None => {
                assert forall|i: int| 0 <= i < self@.len() implies self@[i] != title@ by {
                    assert(self.slots@.contains_key(self.titles@[i]@));
                }
                None
            },
        }
    }

    /// The title with number `i`.
    pub fn title(&self, i: usize) -> (title: &String)
        requires
            i < self@.len(),
        ensures
            title@ == self@[i as int],
    {
        &self.titles[i]
    }

    /// The number of `title`, which is added at the end if it is new.
    pub fn intern(&mut self, title: String) -> (i: usize)
        requires
            old(self).wf(),
        ensures
            final(self).wf(),
            i < final(self)@.len(),
            final(self)@[i as int] == title@,
            old(self)@.contains(title@) ==> final(self)@ == old(self)@,
            !old(self)@.contains(title@) ==> final(self)@ == old(self)@.push(title@),
    {
        match self.position(title.as_str()) {
            Some(i) => i,
            None => {
                let i = self.titles.len();
                let ghost before = *self;
                self.slots.insert(title.clone(), i);
                self.titles.push(title);
                assert(self@ =~= before@.push(title@));
                assert forall|j: int| 0 <= j < self.titles@.len() implies {
                    &&& self.slots@.contains_key(#[trigger] self.titles@[j]@)
                    &&& self.slots@[self.titles@[j]@] == j
                } by {
                    if j < i {
                        assert(before@[j] == before.titles@[j]@);
                        assert(before.slots@.contains_key(before.titles@[j]@));
                    }
                }
                i
            },
        }
    }
}

} // verus!
