use crate::rowdata::Row;
use vstd::prelude::*;

verus! {

/// How many cached segments may sit further than `NEAR_DISTANCE` from the
/// current one after an eviction pass.
pub const FAR_KEEP: u64 = 5;

/// Cached segments within this distance of the current segment are never
/// evicted.
pub const NEAR_DISTANCE: u64 = 2;

/// An eviction pass runs only once the cache holds more than this many
/// segments.
pub const TRIGGER_SIZE: u64 = 10;

/// Whether segment `k` counts as far from the current segment `cur`: its
/// distance exceeds `NEAR_DISTANCE`.
pub open spec fn spec_far(k: int, cur: int) -> bool {
    k < cur - NEAR_DISTANCE || k > cur + NEAR_DISTANCE
}

/// The keys of a cache entry sequence, in insertion order.
pub open spec fn spec_keys(s: Seq<(u32, Vec<Row>)>) -> Seq<u32> {
    s.map_values(|e: (u32, Vec<Row>)| e.0)
}

/// No key occurs twice.
pub open spec fn spec_distinct(keys: Seq<u32>) -> bool {
    forall|i: int, j: int| 0 <= i < j < keys.len() ==> keys[i] != keys[j]
}

/// How many entries are far from `cur`.
pub open spec fn count_far(s: Seq<(u32, Vec<Row>)>, cur: int) -> int
    decreases s.len(),
{
    if s.len() == 0 {
        0
    } else {
        (if spec_far(s[0].0 as int, cur) {
            1int
        } else {
            0int
        }) + count_far(s.drop_first(), cur)
    }
}

/// How many far entries an eviction pass relative to `cur` removes: all but
/// `FAR_KEEP` of them, and none at all unless more than `FAR_KEEP` are far.
pub open spec fn spec_drop_budget(s: Seq<(u32, Vec<Row>)>, cur: int) -> int {
    if count_far(s, cur) > FAR_KEEP {
        count_far(s, cur) - FAR_KEEP
    } else {
        0
    }
}

/// The entry sequence after an eviction pass: walking in insertion order,
/// the first `drop` far entries are removed and everything else is kept.
pub open spec fn spec_prune(s: Seq<(u32, Vec<Row>)>, cur: int, drop: int) -> Seq<(u32, Vec<Row>)>
    decreases s.len(),
{
    if s.len() == 0 {
        s
    } else if spec_far(s[0].0 as int, cur) && drop > 0 {
        spec_prune(s.drop_first(), cur, drop - 1)
    } else {
        seq![s[0]] + spec_prune(s.drop_first(), cur, drop)
    }
}

/// A pass with nothing to drop keeps the cache as it is.
pub proof fn lemma_prune_id(s: Seq<(u32, Vec<Row>)>, cur: int)
    ensures
        spec_prune(s, cur, 0) == s,
    decreases s.len(),
{
    if s.len() > 0 {
        lemma_prune_id(s.drop_first(), cur);
        assert(spec_prune(s, cur, 0) =~= s);
    }
}

/// Every entry that survives an eviction pass was cached before it.
pub proof fn lemma_prune_subset(s: Seq<(u32, Vec<Row>)>, cur: int, drop: int)
    ensures
        forall|j: int|
            0 <= j < spec_prune(s, cur, drop).len() ==> s.contains(spec_prune(s, cur, drop)[j]),
    decreases s.len(),
{
    if s.len() > 0 {
        lemma_prune_subset(s.drop_first(), cur, drop);
        lemma_prune_subset(s.drop_first(), cur, drop - 1);
        assert forall|j: int| 0 <= j < spec_prune(s, cur, drop).len() implies s.contains(
            spec_prune(s, cur, drop)[j],
        ) by {
            let p = spec_prune(s, cur, drop);
            let rest = s.drop_first();
            if spec_far(s[0].0 as int, cur) && drop > 0 {
                assert(p == spec_prune(rest, cur, drop - 1));
                assert(rest.contains(p[j]));
                let k = choose|k: int| 0 <= k < rest.len() && rest[k] == p[j];
                assert(s[k + 1] == p[j]);
                assert(s.contains(p[j]));
            } else {
                if j == 0 {
                    assert(p[0] == s[0]);
                    assert(s.contains(p[0]));
                } else {
                    let pr = spec_prune(rest, cur, drop);
                    assert(p[j] == pr[j - 1]);
                    assert(rest.contains(pr[j - 1]));
                    let k = choose|k: int| 0 <= k < rest.len() && rest[k] == pr[j - 1];
                    assert(s[k + 1] == p[j]);
                    assert(s.contains(p[j]));
                }
            }
        }
    }
}

/// An eviction pass never removes an entry within `NEAR_DISTANCE` of the
/// current segment.
pub proof fn lemma_prune_keeps_near(s: Seq<(u32, Vec<Row>)>, cur: int, drop: int)
    ensures
        forall|i: int|
            0 <= i < s.len() && !spec_far(s[i].0 as int, cur) ==> spec_prune(
                s,
                cur,
                drop,
            ).contains(s[i]),
    decreases s.len(),
{
    if s.len() > 0 {
        lemma_prune_keeps_near(s.drop_first(), cur, drop);
        lemma_prune_keeps_near(s.drop_first(), cur, drop - 1);
        assert forall|i: int|
            0 <= i < s.len() && !spec_far(s[i].0 as int, cur) implies spec_prune(
            s,
            cur,
            drop,
        ).contains(s[i]) by {
            let p = spec_prune(s, cur, drop);
            let rest = s.drop_first();
            if spec_far(s[0].0 as int, cur) && drop > 0 {
                assert(i >= 1);
                assert(rest[i - 1] == s[i]);
                let pr = spec_prune(rest, cur, drop - 1);
                assert(p == pr);
                assert(pr.contains(rest[i - 1]));
                let k = choose|k: int| 0 <= k < pr.len() && pr[k] == s[i];
                assert(p[k] == s[i]);
                assert(p.contains(s[i]));
            } else {
                if i == 0 {
                    assert(p[0] == s[0]);
                    assert(p.contains(s[0]));
                } else {
                    assert(rest[i - 1] == s[i]);
                    let pr = spec_prune(rest, cur, drop);
                    assert(pr.contains(rest[i - 1]));
                    let k = choose|k: int| 0 <= k < pr.len() && pr[k] == s[i];
                    assert(p[k + 1] == s[i]);
                    assert(p.contains(s[i]));
                }
            }
        }
    }
}

/// An eviction pass removes exactly `drop` far entries when at least that
/// many are far.
pub proof fn lemma_prune_count_far(s: Seq<(u32, Vec<Row>)>, cur: int, drop: int)
    requires
        0 <= drop <= count_far(s, cur),
    ensures
        count_far(spec_prune(s, cur, drop), cur) == count_far(s, cur) - drop,
    decreases s.len(),
{
    if s.len() == 0 {
    } else if spec_far(s[0].0 as int, cur) && drop > 0 {
        lemma_prune_count_far(s.drop_first(), cur, drop - 1);
    } else {
        lemma_count_far_nonneg(s.drop_first(), cur);
        lemma_prune_count_far(s.drop_first(), cur, drop);
        let p = spec_prune(s, cur, drop);
        assert(p[0] == s[0]);
        assert(p.drop_first() =~= spec_prune(s.drop_first(), cur, drop));
    }
}

/// An eviction pass keeps every key it keeps at most once.
pub proof fn lemma_prune_distinct(s: Seq<(u32, Vec<Row>)>, cur: int, drop: int)
    requires
        spec_distinct(spec_keys(s)),
    ensures
        spec_distinct(spec_keys(spec_prune(s, cur, drop))),
    decreases s.len(),
{
    if s.len() > 0 {
        let rest = s.drop_first();
        assert forall|i: int, j: int|
            0 <= i < j < spec_keys(rest).len() implies spec_keys(rest)[i] != spec_keys(
            rest,
        )[j] by {
            assert(spec_keys(rest)[i] == spec_keys(s)[i + 1]);
            assert(spec_keys(rest)[j] == spec_keys(s)[j + 1]);
        }
        if spec_far(s[0].0 as int, cur) && drop > 0 {
            lemma_prune_distinct(rest, cur, drop - 1);
        } else {
            lemma_prune_distinct(rest, cur, drop);
            lemma_prune_subset(rest, cur, drop);
            let pr = spec_prune(rest, cur, drop);
            let p = spec_prune(s, cur, drop);
            assert(p =~= seq![s[0]] + pr);
            assert forall|i: int, j: int|
                0 <= i < j < spec_keys(p).len() implies spec_keys(p)[i] != spec_keys(p)[j] by {
                if i == 0 {
                    assert(p[j] == pr[j - 1]);
                    assert(rest.contains(pr[j - 1]));
                    let k = choose|k: int| 0 <= k < rest.len() && rest[k] == pr[j - 1];
                    assert(spec_keys(s)[k + 1] == pr[j - 1].0);
                    assert(spec_keys(s)[0] == s[0].0);
                    assert(spec_keys(p)[i] == s[0].0);
                    assert(spec_keys(p)[j] == pr[j - 1].0);
                } else {
                    assert(spec_keys(p)[i] == pr[i - 1].0);
                    assert(spec_keys(p)[j] == pr[j - 1].0);
                    assert(spec_keys(pr)[i - 1] == pr[i - 1].0);
                    assert(spec_keys(pr)[j - 1] == pr[j - 1].0);
                }
            }
        }
    }
}

/// Appending an entry that is not far leaves the far count unchanged.
pub proof fn lemma_count_far_push_near(s: Seq<(u32, Vec<Row>)>, e: (u32, Vec<Row>), cur: int)
    requires
        !spec_far(e.0 as int, cur),
    ensures
        count_far(s.push(e), cur) == count_far(s, cur),
    decreases s.len(),
{
    if s.len() == 0 {
        assert(s.push(e)[0] == e);
        assert(s.push(e).drop_first() =~= Seq::<(u32, Vec<Row>)>::empty());
        assert(count_far(s.push(e), cur) == count_far(s.push(e).drop_first(), cur));
        assert(count_far(s, cur) == 0);
    } else {
        assert(s.push(e)[0] == s[0]);
        assert(s.push(e).drop_first() =~= s.drop_first().push(e));
        lemma_count_far_push_near(s.drop_first(), e, cur);
        assert(count_far(s.push(e), cur) == (if spec_far(s[0].0 as int, cur) {
            1int
        } else {
            0int
        }) + count_far(s.drop_first().push(e), cur));
    }
}

/// A sequence holding a far entry has a positive far count.
pub proof fn lemma_count_far_at_least_one(s: Seq<(u32, Vec<Row>)>, cur: int, i: int)
    requires
        0 <= i < s.len(),
        spec_far(s[i].0 as int, cur),
    ensures
        count_far(s, cur) >= 1,
    decreases s.len(),
{
    lemma_count_far_nonneg(s.drop_first(), cur);
    if i > 0 {
        assert(s.drop_first()[i - 1] == s[i]);
        lemma_count_far_at_least_one(s.drop_first(), cur, i - 1);
    }
}

/// Sustained far-ness does lead to eviction: a far entry preceded (itself
/// included) by at most `drop` far entries is removed by a pass with that
/// budget — the policy evicts the oldest far entries first, so no far entry
/// can survive passes forever while newer far entries keep arriving.
pub proof fn lemma_prune_evicts_oldest_far(s: Seq<(u32, Vec<Row>)>, cur: int, drop: int, i: int)
    requires
        spec_distinct(spec_keys(s)),
        0 <= i < s.len(),
        spec_far(s[i].0 as int, cur),
        count_far(s.take(i + 1), cur) <= drop,
    ensures
        !spec_prune(s, cur, drop).contains(s[i]),
    decreases s.len(),
{
    let rest = s.drop_first();
    let p = spec_prune(s, cur, drop);
    assert(s.take(i + 1)[i] == s[i]);
    lemma_count_far_at_least_one(s.take(i + 1), cur, i);
    assert forall|a: int, b: int|
        0 <= a < b < spec_keys(rest).len() implies spec_keys(rest)[a] != spec_keys(rest)[b] by {
        assert(spec_keys(rest)[a] == spec_keys(s)[a + 1]);
        assert(spec_keys(rest)[b] == spec_keys(s)[b + 1]);
    }
    if i == 0 {
        assert(drop >= 1);
        assert(p == spec_prune(rest, cur, drop - 1));
        lemma_prune_subset(rest, cur, drop - 1);
        if p.contains(s[0]) {
            let j = choose|j: int| 0 <= j < p.len() && p[j] == s[0];
            assert(rest.contains(p[j]));
            let m = choose|m: int| 0 <= m < rest.len() && rest[m] == s[0];
            assert(spec_keys(s)[m + 1] == s[0].0);
            assert(spec_keys(s)[0] == s[0].0);
        }
    } else {
        assert(s.take(i + 1).drop_first() =~= rest.take(i));
        assert(s.take(i + 1)[0] == s[0]);
        assert(rest[i - 1] == s[i]);
        if spec_far(s[0].0 as int, cur) && drop > 0 {
            assert(count_far(rest.take(i), cur) <= drop - 1);
            lemma_prune_evicts_oldest_far(rest, cur, drop - 1, i - 1);
        } else {
            lemma_count_far_nonneg(rest.take(i), cur);
            assert(!spec_far(s[0].0 as int, cur));
            assert(count_far(rest.take(i), cur) <= drop);
            lemma_prune_evicts_oldest_far(rest, cur, drop, i - 1);
            let pr = spec_prune(rest, cur, drop);
            assert(p =~= seq![s[0]] + pr);
            if p.contains(s[i]) {
                let j = choose|j: int| 0 <= j < p.len() && p[j] == s[i];
                if j == 0 {
                    assert(s[0] == s[i]);
                    assert(spec_keys(s)[0] == spec_keys(s)[i]);
                } else {
                    assert(pr[j - 1] == s[i]);
                    assert(pr.contains(rest[i - 1]));
                }
            }
        }
    }
}

/// A count of entries is never negative.
pub proof fn lemma_count_far_nonneg(s: Seq<(u32, Vec<Row>)>, cur: int)
    ensures
        count_far(s, cur) >= 0,
    decreases s.len(),
{
    if s.len() > 0 {
        lemma_count_far_nonneg(s.drop_first(), cur);
    }
}

/// A bounded cache of row segments, keyed by segment index.  Entries stay in
/// insertion order; the eviction pass (`clean`) drops far entries oldest
/// first, which makes the policy deterministic where an unordered map would
/// evict an arbitrary subset.
pub struct SegmentCache {
    pub entries: Vec<(u32, Vec<Row>)>,
}

impl SegmentCache {
    /// Keys are unique: the cache is a mapping.
    pub open spec fn wf(self) -> bool {
        spec_distinct(spec_keys(self.entries@))
    }

    pub open spec fn spec_contains(self, key: u32) -> bool {
        spec_keys(self.entries@).contains(key)
    }

    pub fn new() -> (c: SegmentCache)
        ensures
            c.entries@ == Seq::<(u32, Vec<Row>)>::empty(),
            c.wf(),
    {
        let c = SegmentCache { entries: Vec::new() };
        proof {
            assert(spec_keys(c.entries@) =~= Seq::<u32>::empty());
        }
        c
    }

    pub fn len(&self) -> (n: usize)
        ensures
            n == self.entries@.len(),
    {
        self.entries.len()
    }

    /// The position of `key` among the entries, if cached.
    pub fn position(&self, key: u32) -> (r: Option<usize>)
        ensures
            match r {
                Some(i) => i < self.entries@.len() && self.entries@[i as int].0 == key,
                None => !self.spec_contains(key),
            },
    {
        let mut i: usize = 0;
        while i < self.entries.len()
            invariant
                i <= self.entries@.len(),
                forall|k: int| 0 <= k < i as int ==> self.entries@[k].0 != key,
            decreases self.entries@.len() - i,
        {
            if self.entries[i].0 == key {
                return Some(i);
            }
            i = i + 1;
        }
        proof {
            assert forall|k: int|
                0 <= k < spec_keys(self.entries@).len() implies spec_keys(self.entries@)[k]
                != key by {
                assert(spec_keys(self.entries@)[k] == self.entries@[k].0);
            }
        }
        None
    }

    pub fn contains_key(&self, key: u32) -> (b: bool)
        ensures
            b == self.spec_contains(key),
    {
        let r = self.position(key);
        proof {
            if r is Some {
                let i = r->0;
                assert(spec_keys(self.entries@)[i as int] == key);
            }
        }
        r.is_some()
    }

    /// Adds a segment under a key that is not yet cached.
    pub fn insert(&mut self, key: u32, segment: Vec<Row>)
        requires
            old(self).wf(),
            !old(self).spec_contains(key),
        ensures
            final(self).entries@ == old(self).entries@.push((key, segment)),
            final(self).wf(),
            final(self).spec_contains(key),
    {
        let ghost pre = self.entries@;
        self.entries.push((key, segment));
        proof {
            assert forall|i: int, j: int|
                0 <= i < j < spec_keys(self.entries@).len() implies spec_keys(self.entries@)[i]
                != spec_keys(self.entries@)[j] by {
                assert(spec_keys(self.entries@)[i] == self.entries@[i].0);
                assert(spec_keys(self.entries@)[j] == self.entries@[j].0);
                if j < pre.len() {
                    assert(spec_keys(pre)[i] == pre[i].0);
                    assert(spec_keys(pre)[j] == pre[j].0);
                } else {
                    assert(spec_keys(pre)[i] == pre[i].0);
                    assert(!spec_keys(pre).contains(key));
                }
            }
            assert(spec_keys(self.entries@)[pre.len() as int] == key);
        }
    }

    /// The eviction pass relative to the segment `current` that triggered
    /// it: of the entries farther than `NEAR_DISTANCE` from `current`, all
    /// but the newest `FAR_KEEP` are removed, oldest first; with at most
    /// `FAR_KEEP` far entries nothing is evicted.
    pub fn clean(&mut self, current: u32)
        requires
            old(self).wf(),
        ensures
            final(self).entries@ == spec_prune(
                old(self).entries@,
                current as int,
                spec_drop_budget(old(self).entries@, current as int),
            ),
            final(self).wf(),
    {
        let ghost orig = self.entries@;
        let ghost cur = current as int;
        let curu = current as u64;
        let mut far_count: u64 = 0;
        let mut i: usize = 0;
        proof {
            assert(orig.skip(0) =~= orig);
        }
        while i < self.entries.len()
            invariant
                self.entries@ == orig,
                cur == current as int,
                curu == current as u64,
                i <= orig.len(),
                far_count <= i,
                far_count as int + count_far(orig.skip(i as int), cur) == count_far(orig, cur),
            decreases orig.len() - i,
        {
            let k = self.entries[i].0;
            proof {
                assert(orig.skip(i as int)[0] == orig[i as int]);
                assert(orig.skip(i as int).drop_first() =~= orig.skip(i as int + 1));
                assert(count_far(orig.skip(i as int), cur) == (if spec_far(
                    orig[i as int].0 as int,
                    cur,
                ) {
                    1int
                } else {
                    0int
                }) + count_far(orig.skip(i as int + 1), cur));
            }
            if (k as u64) + NEAR_DISTANCE < curu || (k as u64) > curu + NEAR_DISTANCE {
                far_count = far_count + 1;
            }
            i = i + 1;
        }
        proof {
            assert(orig.skip(orig.len() as int) =~= Seq::<(u32, Vec<Row>)>::empty());
            assert(far_count as int == count_far(orig, cur));
        }
        let mut budget: u64 = if far_count > FAR_KEEP {
            far_count - FAR_KEEP
        } else {
            0
        };
        let ghost drop0 = spec_drop_budget(orig, cur);
        proof {
            assert(budget as int == drop0);
            assert(self.entries@.skip(0) =~= self.entries@);
            assert(self.entries@.take(0) + spec_prune(self.entries@, cur, drop0) =~= spec_prune(
                orig,
                cur,
                drop0,
            ));
        }
        let mut j: usize = 0;
        while j < self.entries.len()
            invariant
                cur == current as int,
                curu == current as u64,
                j <= self.entries@.len(),
                spec_prune(orig, cur, drop0) == self.entries@.take(j as int) + spec_prune(
                    self.entries@.skip(j as int),
                    cur,
                    budget as int,
                ),
            decreases self.entries@.len() - j,
        {
            let k = self.entries[j].0;
            let isfar = (k as u64) + NEAR_DISTANCE < curu || (k as u64) > curu + NEAR_DISTANCE;
            let ghost pre = self.entries@;
            proof {
                assert(pre.skip(j as int)[0] == pre[j as int]);
                assert(pre.skip(j as int).drop_first() =~= pre.skip(j as int + 1));
            }
            if isfar && budget > 0 {
                proof {
                    assert(pre.skip(j as int).len() > 0);
                    assert(pre.skip(j as int)[0] == pre[j as int]);
                    assert(spec_far(pre[j as int].0 as int, cur));
                    assert(budget as int > 0);
                    assert(spec_prune(pre.skip(j as int), cur, budget as int) == spec_prune(
                        pre.skip(j as int + 1),
                        cur,
                        budget as int - 1,
                    ));
                }
                let _ = self.entries.remove(j);
                budget = budget - 1;
                proof {
                    assert(self.entries@.take(j as int) =~= pre.take(j as int));
                    assert(self.entries@.skip(j as int) =~= pre.skip(j as int + 1));
                }
            } else {
                proof {
                    assert(pre.take(j as int + 1) =~= pre.take(j as int) + seq![pre[j as int]]);
                    assert(pre.take(j as int) + (seq![pre[j as int]] + spec_prune(
                        pre.skip(j as int + 1),
                        cur,
                        budget as int,
                    )) =~= pre.take(j as int + 1) + spec_prune(
                        pre.skip(j as int + 1),
                        cur,
                        budget as int,
                    ));
                }
                j = j + 1;
            }
        }
        proof {
            assert(self.entries@.skip(j as int) =~= Seq::<(u32, Vec<Row>)>::empty());
            assert(self.entries@.take(j as int) =~= self.entries@);
            lemma_prune_distinct(orig, cur, drop0);
        }
    }
}

} // verus!
