use vstd::prelude::*;

verus! {

/// The entries whose remaining count is above zero, in order.
pub open spec fn keep_remaining(s: Seq<(usize, usize)>) -> Seq<(usize, usize)>
    decreases s.len(),
{
    if s.len() == 0 {
        s
    } else if s.last().1 > 0 {
        keep_remaining(s.drop_last()).push(s.last())
    } else {
        keep_remaining(s.drop_last())
    }
}

/// The sum of the remaining counts.
pub open spec fn total_remaining(s: Seq<(usize, usize)>) -> int
    decreases s.len(),
{
    if s.len() == 0 {
        0
    } else {
        total_remaining(s.drop_last()) + s.last().1
    }
}

/// The entries after a sample: the hit entry, if any, counts one sample fewer, and the
/// entries with nothing left are dropped.
pub open spec fn spec_record(s: Seq<(usize, usize)>, hit: Option<usize>) -> Seq<(usize, usize)> {
    match hit {
        Some(p) => keep_remaining(s.update(p as int, (s[p as int].0, (s[p as int].1 - 1) as usize))),
        None => keep_remaining(s),
    }
}

/// How many samples each bucket still wants: a list of (bucket number, remaining count).
pub struct BucketQuota {
    buckets: Vec<(usize, usize)>,
}

impl BucketQuota {
    /// The buckets that still want samples, with their remaining counts.
    pub closed spec fn spec_buckets(&self) -> Seq<(usize, usize)> {
        self.buckets@
    }

    /// Buckets `0 .. num_buckets`, each wanting `num_items` samples.
    pub fn new(num_buckets: usize, num_items: usize) -> (res: Self)
        ensures
            res.spec_buckets() == Seq::new(num_buckets as nat, |i: int| (i as usize, num_items)),
    {
        let mut buckets: Vec<(usize, usize)> = Vec::new();
        let mut n: usize = 0;
        while n < num_buckets
            invariant
                n <= num_buckets,
                buckets@ == Seq::new(n as nat, |i: int| (i as usize, num_items)),
            decreases num_buckets - n,
        {
            buckets.push((n, num_items));
            n = n + 1;
            assert(buckets@ =~= Seq::new(n as nat, |i: int| (i as usize, num_items)));
        }
        BucketQuota { buckets }
    }

    /// Whether every bucket has all its samples.
    pub fn is_empty(&self) -> (res: bool)
        ensures
            res == (self.spec_buckets().len() == 0),
    {
        self.buckets.len() == 0
    }

    /// The number of buckets that still want samples.
    pub fn len(&self) -> (res: usize)
        ensures
            res == self.spec_buckets().len(),
    {
        self.buckets.len()
    }

    /// The bucket number and remaining count at position `pos`.
    pub fn bucket(&self, pos: usize) -> (res: (usize, usize))
        requires
            pos < self.spec_buckets().len(),
        ensures
            res == self.spec_buckets()[pos as int],
    {
        self.buckets[pos]
    }

    /// Takes one sample: when it falls into the bucket at position `hit`, that bucket wants
    /// one sample fewer; then the buckets that want no more samples are dropped.
    pub fn record(&mut self, hit: Option<usize>)
        requires
            hit matches Some(p) ==> p < old(self).spec_buckets().len() && old(self).spec_buckets()[p as int].1 > 0,
        ensures
            final(self).spec_buckets() == spec_record(old(self).spec_buckets(), hit),
    {
        if let Some(p) = hit {
            let (number, remaining) = self.buckets[p];
            self.buckets[p] = (number, remaining - 1);
        }
        let ghost updated = self.buckets@;
        let mut kept: Vec<(usize, usize)> = Vec::new();
        let mut i: usize = 0;
        while i < self.buckets.len()
            invariant
                i <= updated.len(),
                self.buckets@ == updated,
                kept@ == keep_remaining(updated.subrange(0, i as int)),
            decreases updated.len() - i,
        {
            let entry = self.buckets[i];
            proof {
                assert(updated.subrange(0, i + 1).drop_last() =~= updated.subrange(0, i as int));
            }
            if entry.1 > 0 {
                kept.push(entry);
            }
            i = i + 1;
        }
        assert(updated.subrange(0, updated.len() as int) =~= updated);
        self.buckets = kept;
    }
}

proof fn lemma_keep_remaining_total(s: Seq<(usize, usize)>)
    ensures
        total_remaining(keep_remaining(s)) == total_remaining(s),
        forall|i: int| 0 <= i < keep_remaining(s).len() ==> (#[trigger] keep_remaining(s)[i]).1 > 0,
    decreases s.len(),
{
    if s.len() > 0 {
        lemma_keep_remaining_total(s.drop_last());
        let k = keep_remaining(s.drop_last());
        if s.last().1 > 0 {
            assert(k.push(s.last()).drop_last() =~= k);
            assert forall|i: int| 0 <= i < k.push(s.last()).len() implies (#[trigger] k.push(
                s.last(),
            )[i]).1 > 0 by {
                if i < k.len() {
                    assert(k.push(s.last())[i] == k[i]);
                }
            }
        }
    }
}

proof fn lemma_total_update(s: Seq<(usize, usize)>, p: int, v: (usize, usize))
    requires
        0 <= p < s.len(),
    ensures
        total_remaining(s.update(p, v)) == total_remaining(s) - s[p].1 + v.1,
    decreases s.len(),
{
    let u = s.update(p, v);
    if p == s.len() - 1 {
        assert(u.drop_last() =~= s.drop_last());
    } else {
        lemma_total_update(s.drop_last(), p, v);
        assert(u.drop_last() =~= s.drop_last().update(p, v));
    }
}

/// Each sample that falls into a bucket lowers the total number of wanted samples by one;
/// one that falls into none leaves it as it is; and afterwards every listed bucket still
/// wants at least one sample.
pub proof fn lemma_record_total(s: Seq<(usize, usize)>, hit: Option<usize>)
    requires
        hit matches Some(p) ==> p < s.len() && s[p as int].1 > 0,
    ensures
        total_remaining(spec_record(s, hit)) == total_remaining(s) - if hit is Some {
            1int
        } else {
            0int
        },
        forall|i: int|
            0 <= i < spec_record(s, hit).len() ==> (#[trigger] spec_record(s, hit)[i]).1 > 0,
{
    match hit {
        Some(p) => {
            let v = (s[p as int].0, (s[p as int].1 - 1) as usize);
            lemma_total_update(s, p as int, v);
            lemma_keep_remaining_total(s.update(p as int, v));
        },
        None => {
            lemma_keep_remaining_total(s);
        },
    }
}

/// The sum of the remaining counts of the entries for bucket number `b`.
pub open spec fn bucket_remaining(s: Seq<(usize, usize)>, b: usize) -> int
    decreases s.len(),
{
    if s.len() == 0 {
        0
    } else {
        bucket_remaining(s.drop_last(), b) + if s.last().0 == b {
            s.last().1 as int
        } else {
            0int
        }
    }
}

proof fn lemma_keep_remaining_bucket(s: Seq<(usize, usize)>, b: usize)
    ensures
        bucket_remaining(keep_remaining(s), b) == bucket_remaining(s, b),
    decreases s.len(),
{
    if s.len() > 0 {
        lemma_keep_remaining_bucket(s.drop_last(), b);
        let k = keep_remaining(s.drop_last());
        if s.last().1 > 0 {
            assert(k.push(s.last()).drop_last() =~= k);
        }
    }
}

proof fn lemma_bucket_update(s: Seq<(usize, usize)>, p: int, v: (usize, usize), b: usize)
    requires
        0 <= p < s.len(),
    ensures
        bucket_remaining(s.update(p, v), b) == bucket_remaining(s, b) - (if s[p].0 == b {
            s[p].1 as int
        } else {
            0int
        }) + (if v.0 == b {
            v.1 as int
        } else {
            0int
        }),
    decreases s.len(),
{
    let u = s.update(p, v);
    if p == s.len() - 1 {
        assert(u.drop_last() =~= s.drop_last());
    } else {
        lemma_bucket_update(s.drop_last(), p, v, b);
        assert(u.drop_last() =~= s.drop_last().update(p, v));
    }
}

/// Bucket by bucket: a sample that falls into the bucket at position `p` lowers what that
/// bucket (by its number) still wants by one and leaves every other bucket as it was; a
/// sample that falls into none changes no bucket.
pub proof fn lemma_record_per_bucket(s: Seq<(usize, usize)>, hit: Option<usize>, b: usize)
    requires
        hit matches Some(p) ==> p < s.len() && s[p as int].1 > 0,
    ensures
        bucket_remaining(spec_record(s, hit), b) == bucket_remaining(s, b) - (if hit matches Some(
            p,
        ) && s[p as int].0 == b {
            1int
        } else {
            0int
        }),
{
    match hit {
        Some(p) => {
            let v = (s[p as int].0, (s[p as int].1 - 1) as usize);
            lemma_bucket_update(s, p as int, v, b);
            lemma_keep_remaining_bucket(s.update(p as int, v), b);
        },
        None => {
            lemma_keep_remaining_bucket(s, b);
        },
    }
}

} // verus!
