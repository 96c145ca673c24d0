//! Redirects: which title stands in for which, and where a chain of them ends.

use vstd::prelude::*;
use crate::assoc::{distinct_keys, has_key, lemma_place, place_of, put, value_of};
use crate::index::TitleIndex;

verus! {

/// The declared redirects, each a source title with its target, in the order
/// in which the sources were first seen. A source has one target: declaring
/// it again replaces the target.
pub struct RedirectMap {
    sources: TitleIndex,
    targets: Vec<String>,
}

impl View for RedirectMap {
    type V = Seq<(Seq<char>, Seq<char>)>;

    /// The redirects as pairs of source and target.
    closed spec fn view(&self) -> Seq<(Seq<char>, Seq<char>)> {
        Seq::new(self.targets@.len(), |i: int| (self.sources@[i], self.targets@[i]@))
    }
}

/// Where `title` leads when at most `hops` redirects are followed: the first
/// title on its chain that is no source, or `None` where the chain has not
/// ended after `hops` redirects.
pub open spec fn follow(redirects: Seq<(Seq<char>, Seq<char>)>, title: Seq<char>, hops: nat) -> Option<
    Seq<char>,
>
    decreases hops,
{
    match value_of(redirects, title) {
        None => Some(title),
        Some(next) => if hops == 0 {
            None
        } else {
            follow(redirects, next, (hops - 1) as nat)
        },
    }
}

/// A chain ends at a title that redirects no further.
pub proof fn lemma_follow_ends(redirects: Seq<(Seq<char>, Seq<char>)>, title: Seq<char>, hops: nat)
    ensures
        follow(redirects, title, hops) matches Some(end) ==> !has_key(redirects, end),
    decreases hops,
{
    if let Some(next) = value_of(redirects, title) {
        if hops > 0 {
            lemma_follow_ends(redirects, next, (hops - 1) as nat);
        }
    }
}

/// A chain that ends within `hops` redirects ends at the same title within
/// any larger number.
pub proof fn lemma_follow_more(
    redirects: Seq<(Seq<char>, Seq<char>)>,
    title: Seq<char>,
    hops: nat,
    more: nat,
)
    requires
        hops <= more,
        follow(redirects, title, hops) is Some,
    ensures
        follow(redirects, title, more) == follow(redirects, title, hops),
    decreases hops,
{
    if let Some(next) = value_of(redirects, title) {
        lemma_follow_more(redirects, next, (hops - 1) as nat, (more - 1) as nat);
    }
}

/// The title reached from `title` after exactly `steps` redirects, where its
/// chain is that long.
pub open spec fn walk(redirects: Seq<(Seq<char>, Seq<char>)>, title: Seq<char>, steps: nat) -> Option<
    Seq<char>,
>
    decreases steps,
{
    if steps == 0 {
        Some(title)
    } else {
        match value_of(redirects, title) {
            Some(next) => walk(redirects, next, (steps - 1) as nat),
            None => None,
        }
    }
}

/// Following a chain from its start is following it from any title on it,
/// with the hops up to there taken off.
pub proof fn lemma_follow_from(
    redirects: Seq<(Seq<char>, Seq<char>)>,
    title: Seq<char>,
    steps: nat,
    hops: nat,
)
    requires
        walk(redirects, title, steps) is Some,
    ensures
        follow(redirects, title, hops) == if hops >= steps {
            follow(redirects, walk(redirects, title, steps).unwrap(), (hops - steps) as nat)
        } else {
            None
        },
    decreases steps,
{
    if steps > 0 {
        let next = value_of(redirects, title).unwrap();
        if hops > 0 {
            lemma_follow_from(redirects, next, (steps - 1) as nat, (hops - 1) as nat);
        }
    }
}

/// A chain that comes back to a title on it does not end: it is reported
/// whatever the number of hops.
pub proof fn lemma_cycle_is_reported(
    redirects: Seq<(Seq<char>, Seq<char>)>,
    title: Seq<char>,
    steps: nat,
    hops: nat,
)
    requires
        steps >= 1,
        walk(redirects, title, steps) == Some(title),
    ensures
        follow(redirects, title, hops) is None,
    decreases hops,
{
    lemma_follow_from(redirects, title, steps, hops);
    if hops >= steps {
        lemma_cycle_is_reported(redirects, title, steps, (hops - steps) as nat);
    }
}

/// A chain that has not ended after `hops` redirects has a source at each
/// of its first `hops + 1` places.
proof fn lemma_unending_walk(
    redirects: Seq<(Seq<char>, Seq<char>)>,
    title: Seq<char>,
    hops: nat,
    steps: nat,
)
    requires
        follow(redirects, title, hops) is None,
        steps <= hops,
    ensures
        walk(redirects, title, steps) matches Some(at) && has_key(redirects, at),
    decreases steps,
{
    if steps > 0 {
        let next = value_of(redirects, title).unwrap();
        lemma_unending_walk(redirects, next, (hops - 1) as nat, (steps - 1) as nat);
    }
}

/// The way from one place of a chain to a later one.
proof fn lemma_walk_between(
    redirects: Seq<(Seq<char>, Seq<char>)>,
    title: Seq<char>,
    i: nat,
    j: nat,
)
    requires
        i <= j,
        walk(redirects, title, j) is Some,
    ensures
        walk(redirects, title, i) matches Some(at) && walk(redirects, at, (j - i) as nat) == walk(
            redirects,
            title,
            j,
        ),
    decreases i,
{
    if i > 0 {
        let next = value_of(redirects, title).unwrap();
        lemma_walk_between(redirects, next, (i - 1) as nat, (j - 1) as nat);
    }
}

/// Of `n + 1` numbers below `n`, two are the same.
proof fn lemma_pigeonhole(f: spec_fn(int) -> int, n: nat)
    requires
        forall|k: int| 0 <= k <= n ==> 0 <= #[trigger] f(k) < n,
    ensures
        exists|i: int, j: int| #![trigger f(i), f(j)] 0 <= i < j <= n && f(i) == f(j),
    decreases n,
{
    if n == 0 {
        let x = f(0int);
        assert(0 <= x < n);
    } else {
        let v = f(n as int);
        if exists|i: int| 0 <= i < n && #[trigger] f(i) == v {
            let i = choose|i: int| 0 <= i < n && #[trigger] f(i) == v;
            assert(f(i) == f(n as int));
        } else {
            let g = |k: int|
                if f(k) > v {
                    f(k) - 1
                } else {
                    f(k)
                };
            assert forall|k: int| 0 <= k <= n - 1 implies 0 <= #[trigger] g(k) < n - 1 by {
                assert(0 <= f(k) < n);
                assert(f(k) != v);
            }
            lemma_pigeonhole(g, (n - 1) as nat);
            let (i, j) = choose|i: int, j: int|
                #![trigger g(i), g(j)]
                0 <= i < j <= n - 1 && g(i) == g(j);
            assert(f(i) != v && f(j) != v);
            assert(f(i) == f(j));
        }
    }
}

/// As many hops as there are redirects are enough: a chain that ends at all
/// ends within them, so with that ceiling only chains that run in a circle
/// are reported.
pub proof fn lemma_ceiling_suffices(
    redirects: Seq<(Seq<char>, Seq<char>)>,
    title: Seq<char>,
    hops: nat,
)
    requires
        follow(redirects, title, hops) is Some,
    ensures
        follow(redirects, title, redirects.len()) == follow(redirects, title, hops),
{
    let n = redirects.len();
    if follow(redirects, title, n) is None {
        let f = |k: int| place_of(redirects, walk(redirects, title, k as nat).unwrap());
        assert forall|k: int| 0 <= k <= n implies 0 <= #[trigger] f(k) < n by {
            lemma_unending_walk(redirects, title, n, k as nat);
        }
        lemma_pigeonhole(f, n);
        let (i, j) = choose|i: int, j: int| #![trigger f(i), f(j)] 0 <= i < j <= n && f(i) == f(j);
        lemma_unending_walk(redirects, title, n, i as nat);
        lemma_unending_walk(redirects, title, n, j as nat);
        let at = walk(redirects, title, i as nat).unwrap();
        assert(walk(redirects, title, j as nat).unwrap() == at);
        lemma_walk_between(redirects, title, i as nat, j as nat);
        lemma_follow_from(redirects, title, i as nat, hops);
        if hops >= i {
            lemma_cycle_is_reported(redirects, at, (j - i) as nat, (hops - i) as nat);
        }
    } else if n <= hops {
        lemma_follow_more(redirects, title, n, hops);
    } else {
        lemma_follow_more(redirects, title, hops, n);
    }
}

/// Every title on a chain leads to the end of the chain.
pub proof fn lemma_chain_shares_end(
    redirects: Seq<(Seq<char>, Seq<char>)>,
    title: Seq<char>,
    steps: nat,
    hops: nat,
)
    requires
        follow(redirects, title, hops) is Some,
        walk(redirects, title, steps) is Some,
    ensures
        follow(redirects, walk(redirects, title, steps).unwrap(), hops) == follow(
            redirects,
            title,
            hops,
        ),
{
    lemma_follow_from(redirects, title, steps, hops);
    lemma_follow_more(
        redirects,
        walk(redirects, title, steps).unwrap(),
        (hops - steps) as nat,
        hops,
    );
}

impl RedirectMap {
    /// Every source has its target.
    pub closed spec fn wf(&self) -> bool {
        &&& self.sources.wf()
        &&& self.sources@.len() == self.targets@.len()
    }

    /// No source is listed twice.
    pub proof fn lemma_distinct(&self)
        requires
            self.wf(),
        ensures
            distinct_keys(self@),
    {
        self.sources.lemma_distinct();
    }

    /// No redirects.
    pub fn new() -> (map: RedirectMap)
        ensures
            map.wf(),
            map@ == Seq::<(Seq<char>, Seq<char>)>::empty(),
    {
        let map = RedirectMap { sources: TitleIndex::new(), targets: Vec::new() };
        assert(map@ =~= Seq::<(Seq<char>, Seq<char>)>::empty());
        map
    }

    /// How many sources are listed.
    pub fn len(&self) -> (n: usize)
        ensures
            n == self@.len(),
    {
        self.targets.len()
    }

    /// The source of the redirect at `i`.
    pub fn source(&self, i: usize) -> (title: &String)
        requires
            self.wf(),
            i < self@.len(),
        ensures
            title@ == self@[i as int].0,
    {
        self.sources.title(i)
    }

    /// The target of the redirect at `i`.
    pub fn target(&self, i: usize) -> (title: &String)
        requires
            i < self@.len(),
        ensures
            title@ == self@[i as int].1,
    {
        &self.targets[i]
    }

    /// The place of the redirect whose source is `title`, if there is one.
    pub fn position(&self, title: &str) -> (found: Option<usize>)
        requires
            self.wf(),
        ensures
            match found {
                Some(i) => i < self@.len() && self@[i as int].0 == title@,
                None => !has_key(self@, title@),
            },
    {
        let found = self.sources.position(title);
        if found.is_none() {
            assert(!has_key(self@, title@)) by {
                if has_key(self@, title@) {
                    let p = place_of(self@, title@);
                    assert(self.sources@[p] == title@);
                }
            }
        }
        found
    }

    /// The declared target of `title`, if it is a source.
    pub fn target_of(&self, title: &str) -> (target: Option<&String>)
        requires
            self.wf(),
        ensures
            match target {
                Some(t) => value_of(self@, title@) == Some(t@),
                None => value_of(self@, title@) is None,
            },
    {
        proof {
            self.lemma_distinct();
        }
        match self.sources.position(title) {
            Some(i) => {
                proof {
                    lemma_place(self@, i as int);
                }
                Some(&self.targets[i])
            },
            None => {
                assert(!has_key(self@, title@)) by {
                    if has_key(self@, title@) {
                        let p = place_of(self@, title@);
                        assert(self.sources@[p] == title@);
                    }
                }
                None
            },
        }
    }

    /// Declares that `source` redirects to `target`.
    pub fn record(&mut self, source: String, target: String)
        requires
            old(self).wf(),
        ensures
            final(self).wf(),
            final(self)@ == put(old(self)@, source@, target@),
    {
        let ghost before = *self;
        proof {
            self.lemma_distinct();
        }
        let ghost key = source@;
        let i = self.sources.intern(source);
        if i < self.targets.len() {
            proof {
                lemma_place(before@, i as int);
            }
            self.targets.set(i, target);
            assert(self@ =~= put(before@, key, target@));
        } else {
            assert(!has_key(before@, key)) by {
                if has_key(before@, key) {
                    let p = place_of(before@, key);
                    assert(before.sources@[p] == key);
                }
            }
            self.targets.push(target);
            assert(self@ =~= put(before@, key, target@));
        }
    }

    /// Follows the redirects from `title` to the title where its chain ends.
    ///
    /// Gives `None` where the chain has not ended after `max_hops` redirects,
    /// as every chain that runs in a circle does.
    pub fn resolve<'a>(&'a self, title: &'a str, max_hops: usize) -> (end: Option<&'a str>)
        requires
            self.wf(),
        ensures
            match end {
                Some(t) => follow(self@, title@, max_hops as nat) == Some(t@),
                None => follow(self@, title@, max_hops as nat) is None,
            },
    {
        let mut current: &str = title;
        let mut hops: usize = 0;
        loop
            invariant
                self.wf(),
                hops <= max_hops,
                follow(self@, title@, max_hops as nat) == follow(
                    self@,
                    current@,
                    (max_hops - hops) as nat,
                ),
            decreases max_hops - hops,
        {
            match self.target_of(current) {
                None => {
                    return Some(current);
                },
                Some(next) => {
                    if hops == max_hops {
                        return None;
                    }
                    current = next.as_str();
                    hops += 1;
                },
            }
        }
    }
}

} // verus!
