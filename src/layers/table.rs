use vstd::prelude::*;
use vstd::rwlock::{RwLock, RwLockPredicate};
use std::sync::Arc;
use crate::api::{bucket_fixture, BucketInfo};
use crate::errors::S3Error;
use crate::layers::bucket::Bucket;
use crate::text::owned;

verus! {

/// What the lock of the bucket named `name` may hold: a well-formed bucket of that name.
pub ghost struct BucketPred {
    pub name: Seq<char>,
}

impl RwLockPredicate<Bucket> for BucketPred {
    open spec fn inv(self, b: Bucket) -> bool {
        b.wf() && b@.name == self.name
    }
}

/// The predicate of the lock of the bucket named `name`.
pub open spec fn pred_for(name: Seq<char>) -> BucketPred {
    BucketPred { name }
}

/// A bucket behind its own reader/writer lock.
pub type BucketLock = RwLock<Bucket, BucketPred>;

/// Relies on Arc::clone: the new pointer shares the value of `a`.
#[verifier::external_body]
pub(crate) fn share<T>(a: &Arc<T>) -> (r: Arc<T>)
    ensures
        r == *a,
{
    Arc::clone(a)
}

struct Entry {
    name: String,
    bucket: Arc<BucketLock>,
}

/// The buckets of a store, by unique name, each with the handle of its lock.
pub struct BucketTable {
    entries: Vec<Entry>,
}

/// Outcome of creating the bucket `name` in a store whose bucket names are `names`.
pub open spec fn put_bucket_outcome(names: Set<Seq<char>>, name: Seq<char>) -> Result<(), S3Error> {
    if names.contains(name) {
        Err(S3Error::BucketAlreadyExists)
    } else {
        Ok(())
    }
}

/// Outcome of looking up the bucket `name`, as every operation inside a bucket starts.
pub open spec fn lookup_outcome(names: Set<Seq<char>>, name: Seq<char>) -> Result<(), S3Error> {
    if names.contains(name) {
        Ok(())
    } else {
        Err(S3Error::NoSuchBucket)
    }
}

/// The bucket names after creating `name`, whether or not it existed.
pub open spec fn after_put_bucket(names: Set<Seq<char>>, name: Seq<char>) -> Set<Seq<char>> {
    names.insert(name)
}

/// The bucket names after deleting `name`, whether or not it existed.
pub open spec fn after_delete_bucket(names: Set<Seq<char>>, name: Seq<char>) -> Set<Seq<char>> {
    names.remove(name)
}

/// Creating a bucket a second time fails with `BucketAlreadyExists`, and leaves the bucket
/// names as the first attempt left them.
pub proof fn lemma_put_bucket_twice(names: Set<Seq<char>>, name: Seq<char>)
    ensures
        put_bucket_outcome(after_put_bucket(names, name), name) == Err::<(), S3Error>(
            S3Error::BucketAlreadyExists,
        ),
        after_put_bucket(after_put_bucket(names, name), name) == after_put_bucket(names, name),
{
    assert(after_put_bucket(after_put_bucket(names, name), name) =~= after_put_bucket(names, name));
}

/// Once `BucketTable::remove` has taken a bucket out, `BucketTable::lookup` finds nothing
/// under its name, and an operation inside a bucket whose lookup found nothing answers
/// `NoSuchBucket` (not `NoSuchKey`), whatever the bucket held.
pub proof fn lemma_deleted_bucket_is_gone(names: Set<Seq<char>>, name: Seq<char>)
    ensures
        lookup_outcome(after_delete_bucket(names, name), name) == Err::<(), S3Error>(
            S3Error::NoSuchBucket,
        ),
{
}

/// A bucket that `BucketTable::lookup` finds cannot be created again by
/// `BucketTable::put_bucket`, and the attempt changes no name.
pub proof fn lemma_found_bucket_not_recreated(names: Set<Seq<char>>, name: Seq<char>)
    requires
        lookup_outcome(names, name) is Ok,
    ensures
        put_bucket_outcome(names, name) == Err::<(), S3Error>(S3Error::BucketAlreadyExists),
        after_put_bucket(names, name) == names,
{
    assert(after_put_bucket(names, name) =~= names);
}

pub open spec fn unit_outcome<T>(r: Result<T, S3Error>) -> Result<(), S3Error> {
    match r {
        Ok(_) => Ok(()),
        Err(e) => Err(e),
    }
}

impl View for BucketTable {
    type V = Set<Seq<char>>;

    closed spec fn view(&self) -> Set<Seq<char>> {
        Set::new(|n: Seq<char>| exists|i: int| 0 <= i < self.entries.len() && self.name_at(i) == n)
    }
}

impl BucketTable {
    spec fn name_at(&self, i: int) -> Seq<char> {
        self.entries@[i].name@
    }

    pub closed spec fn wf(&self) -> bool {
        &&& forall|i: int|
            0 <= i < self.entries.len() ==> (#[trigger] self.entries@[i]).bucket.pred() == pred_for(
                self.entries@[i].name@,
            )
        &&& forall|i: int, j: int|
            0 <= i < j < self.entries.len() ==> self.name_at(i) != self.name_at(j)
    }

    pub fn new() -> (t: BucketTable)
        ensures
            t.wf(),
            t@ == Set::<Seq<char>>::empty(),
    {
        let t = BucketTable { entries: Vec::new() };
        assert(t@ =~= Set::<Seq<char>>::empty());
        t
    }

    fn find(&self, name: &str) -> (r: Option<usize>)
        requires
            self.wf(),
        ensures
            r matches Some(i) ==> i < self.entries.len() && self.name_at(i as int) == name@,
            r is None ==> !self@.contains(name@),
    {
        let n = owned(name);
        let mut i: usize = 0;
        while i < self.entries.len()
            invariant
                i <= self.entries.len(),
                n@ == name@,
                forall|j: int| 0 <= j < i ==> self.name_at(j) != name@,
            decreases self.entries.len() - i,
        {
            if self.entries[i].name == n {
                return Some(i);
            }
            i = i + 1;
        }
        None
    }

    /// The lock of the bucket `name`, if the table holds it.
    pub fn lookup(&self, name: &str) -> (r: Option<Arc<BucketLock>>)
        requires
            self.wf(),
        ensures
            (r is Some) == self@.contains(name@),
            r matches Some(h) ==> h.pred() == pred_for(name@),
            r is None ==> lookup_outcome(self@, name@) == Err::<(), S3Error>(S3Error::NoSuchBucket),
            r is Some ==> lookup_outcome(self@, name@) is Ok,
    {
        match self.find(name) {
            Some(i) => {
                assert(self@.contains(name@));
                Some(share(&self.entries[i].bucket))
            },
            None => None,
        }
    }

    /// The locks of all buckets, one per name.
    pub fn handles(&self) -> (r: Vec<Arc<BucketLock>>)
        requires
            self.wf(),
        ensures
            forall|i: int, j: int| 0 <= i < j < r.len() ==> r@[i].pred() != r@[j].pred(),
            forall|i: int| 0 <= i < r.len() ==> self@.contains((#[trigger] r@[i]).pred().name),
            forall|n: Seq<char>| #[trigger] self@.contains(n) ==> exists|i: int| 0 <= i < r.len() && r@[i].pred().name == n,
    {
        let mut r: Vec<Arc<BucketLock>> = Vec::new();
        let mut i: usize = 0;
        while i < self.entries.len()
            invariant
                self.wf(),
                i <= self.entries.len(),
                r.len() == i,
                forall|a: int| 0 <= a < i ==> (#[trigger] r@[a]).pred() == pred_for(self.name_at(a)),
            decreases self.entries.len() - i,
        {
            r.push(share(&self.entries[i].bucket));
            proof {
                assert(self.entries@[i as int].bucket.pred() == pred_for(self.name_at(i as int)));
            }
            i = i + 1;
        }
        proof {
            assert forall|a: int, b: int| 0 <= a < b < r.len() implies r@[a].pred() != r@[b].pred() by {
                assert(r@[a].pred().name == self.name_at(a));
                assert(r@[b].pred().name == self.name_at(b));
            }
            assert forall|a: int| 0 <= a < r.len() implies self@.contains((#[trigger] r@[a]).pred().name) by {
                assert(r@[a].pred().name == self.name_at(a));
            }
            assert forall|n: Seq<char>| #[trigger] self@.contains(n) implies exists|a: int|
                0 <= a < r.len() && r@[a].pred().name == n by {
                let a = choose|a: int| 0 <= a < self.entries.len() && self.name_at(a) == n;
                assert(r@[a].pred().name == n);
            }
        }
        r
    }

    /// Creates the empty bucket `name`; `BucketAlreadyExists`, with nothing changed, when
    /// the table holds it already.
    pub fn put_bucket(&mut self, name: &str) -> (r: Result<BucketInfo, S3Error>)
        requires
            old(self).wf(),
        ensures
            final(self).wf(),
            final(self)@ == after_put_bucket(old(self)@, name@),
            unit_outcome(r) == put_bucket_outcome(old(self)@, name@),
            r is Err ==> *final(self) == *old(self),
            r matches Ok(info) ==> info@ == bucket_fixture(name@),
    {
        if self.find(name).is_some() {
            proof {
                assert(self@ =~= after_put_bucket(old(self)@, name@));
            }
            return Err(S3Error::BucketAlreadyExists);
        }
        let info = BucketInfo::fixture(name);
        let bucket = Bucket::new(info.clone());
        let lock = RwLock::new(bucket, Ghost(pred_for(name@)));
        self.entries.push(Entry { name: owned(name), bucket: Arc::new(lock) });
        proof {
            let n = old(self).entries.len() as int;
            assert(self.name_at(n) == name@);
            assert forall|i: int| 0 <= i < n implies #[trigger] self.name_at(i) == old(self).name_at(i) by {
                assert(self.entries@[i] == old(self).entries@[i]);
            }
            assert forall|i: int, j: int| 0 <= i < j < self.entries.len() implies self.name_at(i)
                != self.name_at(j) by {
                if j == n {
                    assert(old(self).name_at(i) != name@);
                }
            }
            assert forall|i: int| 0 <= i < self.entries.len() implies (#[trigger] self.entries@[i]).bucket.pred()
                == pred_for(self.entries@[i].name@) by {
                if i < n {
                    assert(self.entries@[i] == old(self).entries@[i]);
                }
            }
            assert forall|x: Seq<char>| #[trigger] self@.contains(x) == after_put_bucket(old(self)@, name@).contains(x) by {
                if x != name@ && self@.contains(x) {
                    let i = choose|i: int| 0 <= i < self.entries.len() && self.name_at(i) == x;
                    assert(i < n);
                }
                if old(self)@.contains(x) {
                    let i = choose|i: int| 0 <= i < n && old(self).name_at(i) == x;
                    assert(self.name_at(i) == x);
                }
            }
            assert(self@ =~= after_put_bucket(old(self)@, name@));
        }
        Ok(info)
    }

    /// Takes the bucket `name` out of the table and hands back its lock; `None`, with
    /// nothing changed, when the table does not hold it.
    pub fn remove(&mut self, name: &str) -> (r: Option<Arc<BucketLock>>)
        requires
            old(self).wf(),
        ensures
            final(self).wf(),
            final(self)@ == after_delete_bucket(old(self)@, name@),
            (r is Some) == old(self)@.contains(name@),
            r matches Some(h) ==> h.pred() == pred_for(name@),
    {
        match self.find(name) {
            Some(i) => {
                let e = self.entries.remove(i);
                proof {
                    let n = old(self).entries.len() as int;
                    assert forall|j: int| 0 <= j < self.entries.len() implies #[trigger] self.entries@[j]
                        == old(self).entries@[if j < i { j } else { j + 1 }] by {}
                    assert forall|a: int, b: int| 0 <= a < b < self.entries.len() implies self.name_at(a)
                        != self.name_at(b) by {
                        let oa = if a < i { a } else { a + 1 };
                        let ob = if b < i { b } else { b + 1 };
                        assert(self.entries@[a] == old(self).entries@[oa]);
                        assert(self.entries@[b] == old(self).entries@[ob]);
                        assert(self.name_at(a) == old(self).name_at(oa));
                        assert(self.name_at(b) == old(self).name_at(ob));
                        assert(old(self).name_at(oa) != old(self).name_at(ob));
                    }
                    assert forall|x: Seq<char>| #[trigger] self@.contains(x) == after_delete_bucket(old(self)@, name@).contains(x) by {
                        if self@.contains(x) {
                            let j = choose|j: int| 0 <= j < self.entries.len() && self.name_at(j) == x;
                            let oj = if j < i { j } else { j + 1 };
                            assert(self.entries@[j] == old(self).entries@[oj]);
                            assert(old(self).name_at(oj) == x);
                            assert(oj != i);
                            if oj < i {
                                assert(old(self).name_at(oj) != old(self).name_at(i as int));
                            } else {
                                assert(old(self).name_at(i as int) != old(self).name_at(oj));
                            }
                            assert(old(self)@.contains(x));
                        }
                        if old(self)@.contains(x) && x != name@ {
                            let oj = choose|oj: int| 0 <= oj < n && old(self).name_at(oj) == x;
                            assert(oj != i);
                            let j = if oj < i { oj } else { oj - 1 };
                            assert(self.entries@[j] == old(self).entries@[oj]);
                            assert(self.name_at(j) == x);
                        }
                    }
                    assert(self@ =~= after_delete_bucket(old(self)@, name@));
                    assert(old(self)@.contains(name@));
                }
                Some(e.bucket)
            },
            None => {
                proof {
                    assert(self@ =~= after_delete_bucket(old(self)@, name@));
                }
                None
            },
        }
    }
}

} // verus!
