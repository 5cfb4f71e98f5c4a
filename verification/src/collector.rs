//! Keeping the best stories: a collector of bounded capacity that keeps the items of the highest
//! scores. Scores are given as integer keys that order as the scores do (for floating-point
//! scores, the keys of their total order).
use vstd::prelude::*;

verus! {

/// The key of the lowest finite `f32` score in the total order of `f32`: what a collector with no
/// stories compares against.
pub const LOWEST_FINITE_SCORE_KEY: i32 = -2139095040i32;

/// The stories of the highest scores seen, at most `capacity` of them, kept in order of score.
pub struct StoryCollector<T> {
    stories: Vec<(i32, T)>,
    capacity: usize,
}

/// Whether the keys do not decrease.
pub open spec fn keys_ascending<T>(s: Seq<(i32, T)>) -> bool {
    forall|i: int, j: int| 0 <= i < j < s.len() ==> s[i].0 <= s[j].0
}

/// The stories placed after every story of a key no larger than `key`'s.
pub open spec fn insert_by_key<T>(s: Seq<(i32, T)>, item: (i32, T)) -> Seq<(i32, T)>
    decreases s.len(),
{
    if s.len() == 0 {
        seq![item]
    } else if s.last().0 <= item.0 {
        s.push(item)
    } else {
        insert_by_key(s.drop_last(), item).push(s.last())
    }
}

/// The stories after an accepted one: it placed by key, and the lowest dropped while there are
/// more than `capacity`.
pub open spec fn accepted<T>(s: Seq<(i32, T)>, item: (i32, T), capacity: nat) -> Seq<(i32, T)> {
    let t = insert_by_key(s, item);
    if t.len() > capacity {
        t.skip(t.len() - capacity)
    } else {
        t
    }
}

impl<T> StoryCollector<T> {
    /// The stories kept, with their keys, lowest key first.
    pub closed spec fn items(&self) -> Seq<(i32, T)> {
        self.stories@
    }

    pub closed spec fn cap(&self) -> nat {
        self.capacity as nat
    }

    #[verifier::type_invariant]
    closed spec fn wf(self) -> bool {
        &&& keys_ascending(self.stories@)
        &&& self.stories@.len() <= self.capacity
    }

    /// The key the collector's lowest story must be beaten by: that of its lowest story, or the
    /// lowest finite score's where it has none.
    pub open spec fn floor(&self) -> i32 {
        if self.items().len() == 0 {
            LOWEST_FINITE_SCORE_KEY
        } else {
            self.items()[0].0
        }
    }

    /// Whether a story of the key would be kept: while there is room, any; then only one that
    /// beats the lowest.
    pub open spec fn accepts(&self, key: i32) -> bool {
        self.items().len() < self.cap() || key > self.floor()
    }

    pub fn new(capacity: usize) -> (r: StoryCollector<T>)
        ensures
            r.items() == Seq::<(i32, T)>::empty(),
            r.cap() == capacity,
    {
        StoryCollector { stories: Vec::new(), capacity }
    }

    pub fn len(&self) -> (r: usize)
        ensures
            r == self.items().len(),
            r <= self.cap(),
    {
        proof {
            use_type_invariant(self);
        }
        self.stories.len()
    }

    /// The key of the lowest story kept, or of the lowest finite score where there is none.
    pub fn min_score(&self) -> (r: i32)
        ensures
            r == self.floor(),
    {
        if self.stories.len() == 0 {
            LOWEST_FINITE_SCORE_KEY
        } else {
            self.stories[0].0
        }
    }

    pub fn would_accept(&self, key: i32) -> (r: bool)
        ensures
            r == self.accepts(key),
    {
        self.stories.len() < self.capacity || key > self.min_score()
    }

    /// Keeps the story where it would be accepted, dropping the lowest while there are too many;
    /// says whether it was accepted.
    pub fn accept(&mut self, key: i32, story: T) -> (r: bool)
        ensures
            r == old(self).accepts(key),
            final(self).cap() == old(self).cap(),
            r ==> final(self).items() == accepted(old(self).items(), (key, story), old(self).cap()),
            !r ==> final(self).items() == old(self).items(),
            keys_ascending(final(self).items()),
    {
        proof {
            use_type_invariant(&*self);
        }
        if !self.would_accept(key) {
            return false;
        }
        proof {
            lemma_accepted_keeps_highest(self.stories@, (key, story), self.capacity as nat);
        }
        let ghost s0 = self.stories@;
        let mut j = self.stories.len();
        while j > 0 && self.stories[j - 1].0 > key
            invariant
                j <= self.stories@.len(),
                self.stories@ == s0,
                forall|m: int| j <= m < s0.len() ==> #[trigger] s0[m].0 > key,
            decreases j,
        {
            j = j - 1;
        }
        proof {
            lemma_insert_at(s0, (key, story), j as int);
            lemma_insert_sorted(s0, (key, story));
        }
        let mut stories = Vec::new();
        std::mem::swap(&mut stories, &mut self.stories);
        stories.insert(j, (key, story));
        let ghost t = stories@;
        assert(t == insert_by_key(s0, (key, story)));
        if stories.len() > self.capacity {
            let ghost before = stories@;
            stories.remove(0);
            assert(stories@ =~= before.skip(1));
        }
        self.stories = stories;
        true
    }

    /// The keys of the stories kept, lowest first.
    pub fn scores(&self) -> (r: Vec<i32>)
        ensures
            r@ == self.items().map_values(|p: (i32, T)| p.0),
            forall|i: int, j: int| 0 <= i < j < r@.len() ==> r@[i] <= r@[j],
    {
        proof {
            use_type_invariant(self);
        }
        let mut v: Vec<i32> = Vec::new();
        let mut i: usize = 0;
        while i < self.stories.len()
            invariant
                i <= self.stories@.len(),
                v@ == self.stories@.take(i as int).map_values(|p: (i32, T)| p.0),
            decreases self.stories@.len() - i,
        {
            v.push(self.stories[i].0);
            i = i + 1;
            assert(v@ =~= self.stories@.take(i as int).map_values(|p: (i32, T)| p.0));
        }
        assert(self.stories@.take(i as int) =~= self.stories@);
        v
    }

    /// The stories kept, highest score first.
    pub fn to_sorted(self) -> (r: Vec<T>)
        ensures
            r@ == self.items().reverse().map_values(|p: (i32, T)| p.1),
            keys_ascending(self.items()),
    {
        proof {
            use_type_invariant(&self);
        }
        let mut stories = self.stories;
        let ghost s0 = stories@;
        let mut out: Vec<T> = Vec::new();
        while stories.len() > 0
            invariant
                s0.len() == stories@.len() + out@.len(),
                stories@ == s0.take(stories@.len() as int),
                out@ == s0.reverse().take(out@.len() as int).map_values(|p: (i32, T)| p.1),
            decreases stories@.len(),
        {
            let ghost n = stories@.len();
            let (_, story) = stories.pop().unwrap();
            assert(stories@ =~= s0.take(n - 1));
            assert(s0.reverse().take(out@.len() + 1int) =~= s0.reverse().take(out@.len() as int).push(s0[n - 1]));
            out.push(story);
            assert(out@ =~= s0.reverse().take(out@.len() as int).map_values(|p: (i32, T)| p.1));
        }
        assert(s0.reverse().take(s0.len() as int) =~= s0.reverse());
        out
    }
}

proof fn lemma_insert_at<T>(s: Seq<(i32, T)>, item: (i32, T), j: int)
    requires
        0 <= j <= s.len(),
        forall|k: int| j <= k < s.len() ==> #[trigger] s[k].0 > item.0,
        keys_ascending(s),
        j == 0 || s[j - 1].0 <= item.0,
    ensures
        insert_by_key(s, item) == s.insert(j, item),
    decreases s.len(),
{
    if s.len() == 0 {
        assert(s.insert(j, item) =~= seq![item]);
    } else if s.last().0 <= item.0 {
        assert(j == s.len());
        assert(s.insert(j, item) =~= s.push(item));
    } else {
        assert(j < s.len());
        let d = s.drop_last();
        assert forall|a: int, b: int| 0 <= a < b < d.len() implies d[a].0 <= d[b].0 by {
            assert(d[a] == s[a] && d[b] == s[b]);
        }
        lemma_insert_at(d, item, j);
        assert(d.insert(j, item).push(s.last()) =~= s.insert(j, item));
    }
}

/// Placing a story by key keeps the keys in order.
pub proof fn lemma_insert_sorted<T>(s: Seq<(i32, T)>, item: (i32, T))
    requires
        keys_ascending(s),
    ensures
        keys_ascending(insert_by_key(s, item)),
        insert_by_key(s, item).len() == s.len() + 1,
        forall|k: int| 0 <= k < insert_by_key(s, item).len() ==> (#[trigger] insert_by_key(s, item)[k]).0
            == item.0 || exists|m: int| 0 <= m < s.len() && s[m].0 == insert_by_key(s, item)[k].0,
    decreases s.len(),
{
    if s.len() > 0 && s.last().0 > item.0 {
        let d = s.drop_last();
        assert forall|a: int, b: int| 0 <= a < b < d.len() implies d[a].0 <= d[b].0 by {
            assert(d[a] == s[a] && d[b] == s[b]);
        }
        lemma_insert_sorted(d, item);
        let r = insert_by_key(d, item);
        let rr = r.push(s.last());
        assert forall|k: int| 0 <= k < r.len() implies r[k].0 <= s.last().0 by {
            if r[k].0 != item.0 {
                let m = choose|m: int| 0 <= m < d.len() && d[m].0 == r[k].0;
                assert(s[m] == d[m]);
            }
        }
        assert forall|a: int, b: int| 0 <= a < b < rr.len() implies rr[a].0 <= rr[b].0 by {
            if b == rr.len() - 1 {
                assert(rr[a] == r[a]);
            } else {
                assert(rr[a] == r[a] && rr[b] == r[b]);
            }
        }
        assert forall|k: int| 0 <= k < rr.len() implies (#[trigger] rr[k]).0 == item.0 || exists|m: int|
            0 <= m < s.len() && s[m].0 == rr[k].0 by {
            if k == rr.len() - 1 {
                assert(s[s.len() - 1].0 == rr[k].0);
            } else {
                assert(rr[k] == r[k]);
                if r[k].0 != item.0 {
                    let m = choose|m: int| 0 <= m < d.len() && d[m].0 == r[k].0;
                    assert(s[m] == d[m]);
                }
            }
        }
    } else if s.len() > 0 {
        let rr = s.push(item);
        assert forall|k: int| 0 <= k < rr.len() implies (#[trigger] rr[k]).0 == item.0 || exists|m: int|
            0 <= m < s.len() && s[m].0 == rr[k].0 by {
            if k < s.len() {
                assert(rr[k] == s[k]);
            }
        }
    }
}

/// An accepted story keeps the collector in order of key and within its capacity, and what it
/// pushes out scores no higher than anything kept.
pub proof fn lemma_accepted_keeps_highest<T>(s: Seq<(i32, T)>, item: (i32, T), capacity: nat)
    requires
        keys_ascending(s),
        s.len() <= capacity,
    ensures
        keys_ascending(accepted(s, item, capacity)),
        accepted(s, item, capacity).len() == if s.len() + 1 > capacity { capacity } else { s.len() + 1 },
        forall|a: int, b: int|
            0 <= a < insert_by_key(s, item).len() - accepted(s, item, capacity).len() && 0 <= b < accepted(
                s,
                item,
                capacity,
            ).len() ==> (#[trigger] insert_by_key(s, item)[a]).0 <= (#[trigger] accepted(s, item, capacity)[b]).0,
{
    lemma_insert_sorted(s, item);
    let t = insert_by_key(s, item);
    let r = accepted(s, item, capacity);
    if t.len() > capacity {
        let k = t.len() - capacity;
        assert forall|a: int, b: int| 0 <= a < b < r.len() implies r[a].0 <= r[b].0 by {
            assert(r[a] == t[a + k] && r[b] == t[b + k]);
        }
        assert forall|a: int, b: int| 0 <= a < t.len() - r.len() && 0 <= b < r.len() implies (#[trigger] t[a]).0
            <= (#[trigger] r[b]).0 by {
            assert(r[b] == t[b + k]);
        }
    }
}

} // verus!
