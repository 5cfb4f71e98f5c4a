//! Sets of tags, kept in sorted order, and the interface through which the tagger hands tags out.
use vstd::prelude::*;

use crate::text::{chars_of, lower_seq, string_of, to_ascii_lowercase};

verus! {

/// Lexicographic order on character sequences, by code point (the order of `str`).
pub open spec fn seq_less(a: Seq<char>, b: Seq<char>) -> bool
    decreases a.len(),
{
    if a.len() == 0 {
        b.len() > 0
    } else if b.len() == 0 {
        false
    } else if a[0] != b[0] {
        (a[0] as u32) < (b[0] as u32)
    } else {
        seq_less(a.skip(1), b.skip(1))
    }
}

pub proof fn lemma_seq_less_irreflexive(a: Seq<char>)
    ensures
        !seq_less(a, a),
    decreases a.len(),
{
    if a.len() > 0 {
        lemma_seq_less_irreflexive(a.skip(1));
    }
}

pub proof fn lemma_seq_less_total(a: Seq<char>, b: Seq<char>)
    ensures
        a != b ==> (seq_less(a, b) || seq_less(b, a)),
        !(seq_less(a, b) && seq_less(b, a)),
    decreases a.len(),
{
    if a.len() > 0 && b.len() > 0 {
        lemma_seq_less_total(a.skip(1), b.skip(1));
        if a[0] == b[0] && a != b {
            assert(a.skip(1) != b.skip(1)) by {
                if a.skip(1) == b.skip(1) {
                    assert(a =~= seq![a[0]] + a.skip(1));
                    assert(b =~= seq![b[0]] + b.skip(1));
                }
            }
        }
        if a[0] != b[0] {
            vstd::utf8::char_u32_cast(a[0], a[0] as u32);
            vstd::utf8::char_u32_cast(b[0], b[0] as u32);
        }
    } else if a.len() == 0 && b.len() == 0 {
        assert(a =~= b);
    }
}

pub proof fn lemma_seq_less_transitive(a: Seq<char>, b: Seq<char>, c: Seq<char>)
    requires
        seq_less(a, b),
        seq_less(b, c),
    ensures
        seq_less(a, c),
    decreases a.len(),
{
    if a.len() > 0 && b.len() > 0 && c.len() > 0 {
        if a[0] == b[0] && b[0] == c[0] {
            lemma_seq_less_transitive(a.skip(1), b.skip(1), c.skip(1));
        }
    }
}

/// `seq` is strictly increasing.
pub open spec fn strictly_sorted(s: Seq<Seq<char>>) -> bool {
    forall|i: int, j: int| 0 <= i < j < s.len() ==> seq_less(#[trigger] s[i], #[trigger] s[j])
}

/// Compares two strings: negative, zero or positive as `a` is below, equal to or above `b`.
pub fn compare_chars(a: &[char], b: &[char]) -> (r: i8)
    ensures
        r < 0 <==> seq_less(a@, b@),
        r == 0 <==> a@ == b@,
        r > 0 <==> seq_less(b@, a@),
{
    let mut i: usize = 0;
    proof {
        lemma_seq_less_total(a@, b@);
        assert(a@.skip(0) =~= a@);
        assert(b@.skip(0) =~= b@);
        assert(a@.take(0) =~= b@.take(0));
    }
    while i < a.len() && i < b.len()
        invariant
            i <= a@.len(),
            i <= b@.len(),
            a@.take(i as int) == b@.take(i as int),
            seq_less(a@, b@) == seq_less(a@.skip(i as int), b@.skip(i as int)),
            seq_less(b@, a@) == seq_less(b@.skip(i as int), a@.skip(i as int)),
        decreases a@.len() - i,
    {
        assert(a@.skip(i as int)[0] == a@[i as int]);
        assert(b@.skip(i as int)[0] == b@[i as int]);
        if a[i] != b[i] {
            proof {
                lemma_seq_less_total(a@, b@);
                assert(a@[i as int] != b@[i as int]);
                if a@ == b@ {
                    assert(a@[i as int] == b@[i as int]);
                }
            }
            if (a[i] as u32) < (b[i] as u32) {
                return -1;
            } else {
                return 1;
            }
        }
        assert(a@.skip(i as int).skip(1) =~= a@.skip(i + 1));
        assert(b@.skip(i as int).skip(1) =~= b@.skip(i + 1));
        i = i + 1;
        assert(a@.take(i as int) =~= a@.take(i - 1).push(a@[i - 1]));
        assert(b@.take(i as int) =~= b@.take(i - 1).push(b@[i - 1]));
    }
    proof {
        lemma_seq_less_total(a@, b@);
    }
    if i < a.len() {
        assert(b@.take(i as int) =~= b@);
        assert(a@ != b@);
        1
    } else if i < b.len() {
        assert(a@.take(i as int) =~= a@);
        assert(a@ != b@);
        -1
    } else {
        assert(a@ =~= a@.take(i as int));
        assert(b@ =~= b@.take(i as int));
        0
    }
}

/// Receives the tags that the tagger finds, and keeps them as a set.
pub trait TagAcceptor {
    /// The tags received so far, as kept.
    spec fn accepted(&self) -> Set<Seq<char>>;

    /// How a received tag is kept.
    spec fn kept_as(tag: Seq<char>) -> Seq<char>;

    fn tag(&mut self, s: &str)
        ensures
            final(self).accepted() == old(self).accepted().insert(Self::kept_as(s@)),
    ;
}

/// A set of tags.
#[derive(Debug, PartialEq, Eq)]
pub struct TagSet {
    set: Vec<String>,
}

impl TagSet {
    /// The tags, in increasing order.
    pub closed spec fn items(self) -> Seq<Seq<char>> {
        self.set@.map_values(|s: String| s@)
    }

    /// The set of tags.
    pub closed spec fn view(self) -> Set<Seq<char>> {
        self.items().to_set()
    }

    #[verifier::type_invariant]
    closed spec fn sorted(self) -> bool {
        strictly_sorted(self.items())
    }

    pub fn new() -> (r: TagSet)
        ensures
            r.view() == Set::<Seq<char>>::empty(),
    {
        let r = TagSet { set: Vec::new() };
        assert(r.items() =~= Seq::<Seq<char>>::empty());
        assert(r.view() =~= Set::<Seq<char>>::empty());
        r
    }

    /// Whether `tag` is in the set (exact comparison).
    pub fn contains(&self, tag: &str) -> (r: bool)
        ensures
            r == self.view().contains(tag@),
    {
        let t = chars_of(tag);
        let mut i: usize = 0;
        while i < self.set.len()
            invariant
                i <= self.set@.len(),
                t@ == tag@,
                forall|j: int| 0 <= j < i ==> self.set@[j]@ != tag@,
            decreases self.set@.len() - i,
        {
            let c = chars_of(self.set[i].as_str());
            if crate::text::chars_eq(c.as_slice(), t.as_slice()) {
                assert(self.items()[i as int] == tag@);
                return true;
            }
            i = i + 1;
        }
        proof {
            if self.items().to_set().contains(tag@) {
                let k = choose|k: int| 0 <= k < self.items().len() && self.items()[k] == tag@;
                assert(self.set@[k]@ == tag@);
            }
        }
        false
    }

    /// Adds `tag` without changing its case.
    fn insert_exact(&mut self, tag: String)
        ensures
            final(self).view() == old(self).view().insert(tag@),
    {
        proof {
            use_type_invariant(&*self);
        }
        let t = chars_of(tag.as_str());
        let mut i: usize = 0;
        while i < self.set.len()
            invariant
                i <= self.set@.len(),
                t@ == tag@,
                strictly_sorted(self.items()),
                forall|j: int| 0 <= j < i ==> seq_less(#[trigger] self.items()[j], tag@),
            ensures
                i <= self.set@.len(),
                strictly_sorted(self.items()),
                forall|j: int| 0 <= j < i ==> seq_less(#[trigger] self.items()[j], tag@),
                i < self.set@.len() ==> seq_less(tag@, self.items()[i as int]),
            decreases self.set@.len() - i,
        {
            let c = chars_of(self.set[i].as_str());
            let o = compare_chars(c.as_slice(), t.as_slice());
            if o == 0 {
                assert(self.items()[i as int] == tag@);
                assert(self.view().insert(tag@) =~= self.view());
                return;
            }
            if o > 0 {
                assert(seq_less(tag@, self.items()[i as int]));
                break;
            }
            i = i + 1;
        }
        let ghost before = self.items();
        proof {
            assert forall|j: int| i <= j < before.len() implies seq_less(tag@, #[trigger] before[j]) by {
                if j > i {
                    assert(seq_less(before[i as int], before[j]));
                    lemma_seq_less_transitive(tag@, before[i as int], before[j]);
                }
            }
        }
        let mut v = self.set.clone();
        assert(v@ =~= self.set@);
        v.insert(i, tag);
        proof {
            let after = v@.map_values(|s: String| s@);
            assert(after =~= before.insert(i as int, tag@));
            assert forall|a: int, b: int| 0 <= a < b < after.len() implies seq_less(#[trigger] after[a], #[trigger] after[b]) by {
                if a < i && b > i {
                    lemma_seq_less_transitive(after[a], tag@, after[b]);
                }
            }
            assert(after.to_set() =~= before.to_set().insert(tag@)) by {
                assert forall|x: Seq<char>| after.to_set().contains(x) <==> before.to_set().insert(tag@).contains(x) by {
                    if after.to_set().contains(x) {
                        let k = choose|k: int| 0 <= k < after.len() && after[k] == x;
                        if k < i {
                            assert(before[k] == x);
                        } else if k > i {
                            assert(before[k - 1] == x);
                        }
                    }
                    if before.to_set().contains(x) {
                        let k = choose|k: int| 0 <= k < before.len() && before[k] == x;
                        if k < i {
                            assert(after[k] == x);
                        } else {
                            assert(after[k + 1] == x);
                        }
                    }
                    if x == tag@ {
                        assert(after[i as int] == x);
                    }
                }
            }
        }
        *self = TagSet { set: v };
    }

    /// Adds `tag`, lowercased (ASCII letters only).
    pub fn add(&mut self, tag: &str)
        ensures
            final(self).view() == old(self).view().insert(lower_seq(tag@)),
    {
        let t = chars_of(tag);
        let lower = to_ascii_lowercase(t.as_slice());
        let s = string_of(lower.as_slice());
        self.insert_exact(s);
    }

    /// A set of the given tags, taken as they are (no lowercasing).
    pub fn from_iter(tags: Vec<String>) -> (r: TagSet)
        ensures
            r.view() == tags@.map_values(|s: String| s@).to_set(),
    {
        let mut r = TagSet::new();
        let mut i: usize = 0;
        while i < tags.len()
            invariant
                i <= tags@.len(),
                r.view() == tags@.take(i as int).map_values(|s: String| s@).to_set(),
            decreases tags@.len() - i,
        {
            let ghost old_view = r.view();
            r.insert_exact(tags[i].clone());
            i = i + 1;
            proof {
                let a = tags@.take(i as int).map_values(|s: String| s@);
                let b = tags@.take(i - 1).map_values(|s: String| s@);
                assert(a =~= b.push(tags@[i - 1]@));
                assert(a.to_set() =~= b.to_set().insert(tags@[i - 1]@)) by {
                    assert forall|x: Seq<char>| a.to_set().contains(x) <==> b.to_set().insert(tags@[i - 1]@).contains(x) by {
                        if a.to_set().contains(x) {
                            let k = choose|k: int| 0 <= k < a.len() && a[k] == x;
                            if k < b.len() {
                                assert(b[k] == x);
                            }
                        }
                        if b.to_set().contains(x) {
                            let k = choose|k: int| 0 <= k < b.len() && b[k] == x;
                            assert(a[k] == x);
                        }
                        if x == tags@[i - 1]@ {
                            assert(a[i - 1] == x);
                        }
                    }
                }
            }
        }
        assert(tags@.take(tags@.len() as int) =~= tags@);
        r
    }

    /// The tags in increasing order.
    pub fn collect(&self) -> (r: Vec<String>)
        ensures
            strictly_sorted(r@.map_values(|s: String| s@)),
            r@.map_values(|s: String| s@).to_set() == self.view(),
    {
        proof {
            use_type_invariant(self);
        }
        let r = self.set.clone();
        assert(r@.map_values(|s: String| s@) =~= self.items());
        r
    }

    /// The tags in increasing order.
    pub fn dump(&self) -> (r: Vec<String>)
        ensures
            strictly_sorted(r@.map_values(|s: String| s@)),
            r@.map_values(|s: String| s@).to_set() == self.view(),
    {
        self.collect()
    }
}

impl Clone for TagSet {
    fn clone(&self) -> (r: TagSet)
        ensures
            r.view() == self.view(),
    {
        proof {
            use_type_invariant(self);
        }
        let v = self.set.clone();
        assert(v@ =~= self.set@);
        TagSet { set: v }
    }
}

impl Default for TagSet {
    fn default() -> (r: TagSet)
        ensures
            r.view() == Set::<Seq<char>>::empty(),
    {
        TagSet::new()
    }
}

impl TagAcceptor for TagSet {
    open spec fn accepted(&self) -> Set<Seq<char>> {
        self.view()
    }

    open spec fn kept_as(tag: Seq<char>) -> Seq<char> {
        lower_seq(tag)
    }

    fn tag(&mut self, s: &str) {
        self.add(s);
    }
}

} // verus!
