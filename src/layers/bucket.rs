use vstd::prelude::*;
use crate::api::{bucket_fixture, object_fixture, BucketInfo, ObjectInfo, ObjectView};
use crate::errors::S3Error;
use crate::ops::get_object;
use crate::text::{owned, starts_with};

verus! {

/// What a bucket holds, as a map from key to payload.
pub ghost struct BucketState {
    pub name: Seq<char>,
    pub objects: Map<Seq<char>, Seq<u8>>,
}

/// The metadata of the object stored under `key` in `s`.
pub open spec fn stored_object(s: BucketState, key: Seq<char>) -> ObjectView {
    object_fixture(s.name, key, s.objects[key].len() as u64)
}

/// What reading `key` from `s` gives: the metadata, and the payload unless only the
/// metadata is asked for; `NoSuchKey` when nothing is stored under `key`.
pub open spec fn get_outcome(s: BucketState, key: Seq<char>, head_only: bool) -> Result<
    (ObjectView, Option<Seq<u8>>),
    S3Error,
> {
    if s.objects.contains_key(key) {
        Ok((stored_object(s, key), if head_only { None } else { Some(s.objects[key]) }))
    } else {
        Err(S3Error::NoSuchKey)
    }
}

/// The outcome of a read as the reply carries it.
pub open spec fn reply_outcome(r: get_object::Ret) -> Result<(ObjectView, Option<Seq<u8>>), S3Error> {
    match r {
        Ok(reply) => Ok((
            reply.object@,
            match reply.body {
                Some(b) => Some(b@),
                None => None,
            },
        )),
        Err(e) => Err(e),
    }
}

/// The bucket after `data` is stored under `key`, replacing what was there.
pub open spec fn put_state(s: BucketState, key: Seq<char>, data: Seq<u8>) -> BucketState {
    BucketState { name: s.name, objects: s.objects.insert(key, data) }
}

/// The bucket after all of its objects are removed.
pub open spec fn cleared(s: BucketState) -> BucketState {
    BucketState { name: s.name, objects: Map::empty() }
}

/// Reading back a key right after storing a payload under it gives that payload, with
/// metadata whose size is the payload's length; a read of the metadata alone gives no payload.
pub proof fn lemma_put_then_get(s: BucketState, key: Seq<char>, data: Seq<u8>)
    requires
        data.len() <= u64::MAX,
    ensures
        get_outcome(put_state(s, key, data), key, false) == Ok::<(ObjectView, Option<Seq<u8>>), S3Error>(
            (object_fixture(s.name, key, data.len() as u64), Some(data)),
        ),
        get_outcome(put_state(s, key, data), key, true) == Ok::<(ObjectView, Option<Seq<u8>>), S3Error>(
            (object_fixture(s.name, key, data.len() as u64), None),
        ),
        object_fixture(s.name, key, data.len() as u64).size == data.len(),
{
}

/// The bucket after the puts in `puts` are applied one after the other.
pub open spec fn put_all(s: BucketState, puts: Seq<(Seq<char>, Seq<u8>)>) -> BucketState
    decreases puts.len(),
{
    if puts.len() == 0 {
        s
    } else {
        put_state(put_all(s, puts.drop_last()), puts.last().0, puts.last().1)
    }
}

/// Puts of distinct keys into one bucket lose no write: in whatever order the bucket's
/// write lock admits them, every key afterwards holds the payload put under it.
pub proof fn lemma_distinct_puts_all_kept(s: BucketState, puts: Seq<(Seq<char>, Seq<u8>)>)
    requires
        forall|i: int, j: int| 0 <= i < j < puts.len() ==> puts[i].0 != puts[j].0,
    ensures
        forall|i: int|
            0 <= i < puts.len() ==> put_all(s, puts).objects.contains_key(#[trigger] puts[i].0)
                && put_all(s, puts).objects[puts[i].0] == puts[i].1,
        put_all(s, puts).name == s.name,
    decreases puts.len(),
{
    if puts.len() > 0 {
        let prev = puts.drop_last();
        lemma_distinct_puts_all_kept(s, prev);
        assert forall|i: int| 0 <= i < puts.len() implies put_all(s, puts).objects.contains_key(
            #[trigger] puts[i].0,
        ) && put_all(s, puts).objects[puts[i].0] == puts[i].1 by {
            if i < puts.len() - 1 {
                assert(prev[i] == puts[i]);
                assert(puts[i].0 != puts.last().0);
            }
        }
    }
}

/// A bucket named `name` that holds no object, as `Bucket::new` makes it.
pub open spec fn empty_bucket(name: Seq<char>) -> BucketState {
    BucketState { name, objects: Map::empty() }
}

/// A newly created (or re-created) bucket lists no object and has no key to read.
pub proof fn lemma_new_bucket_is_empty(
    name: Seq<char>,
    prefix: Seq<char>,
    listing: Seq<ObjectView>,
    key: Seq<char>,
    head_only: bool,
)
    requires
        is_listing(listing, empty_bucket(name), prefix),
    ensures
        listing.len() == 0,
        get_outcome(empty_bucket(name), key, head_only) == Err::<(ObjectView, Option<Seq<u8>>), S3Error>(
            S3Error::NoSuchKey,
        ),
{
    if listing.len() > 0 {
        assert(empty_bucket(name).objects.contains_key(listing[0].key));
    }
}

/// Once a bucket is cleared, no key can be read from it.
pub proof fn lemma_cleared_bucket_holds_nothing(s: BucketState, key: Seq<char>, head_only: bool)
    ensures
        get_outcome(cleared(s), key, head_only) == Err::<(ObjectView, Option<Seq<u8>>), S3Error>(
            S3Error::NoSuchKey,
        ),
{
}

/// A payload in the reply is as long as the object says.
pub open spec fn payload_fits(reply: get_object::Reply) -> bool {
    reply.body matches Some(b) ==> b@.len() == reply.object.size
}

/// `objects` lists exactly the objects of `s` whose key starts with `prefix`, each once,
/// with their metadata.
pub open spec fn is_listing(objects: Seq<ObjectView>, s: BucketState, prefix: Seq<char>) -> bool {
    &&& forall|i: int|
        0 <= i < objects.len() ==> {
            &&& s.objects.contains_key(#[trigger] objects[i].key)
            &&& prefix.is_prefix_of(objects[i].key)
            &&& objects[i] == stored_object(s, objects[i].key)
        }
    &&& forall|k: Seq<char>|
        #[trigger] s.objects.contains_key(k) && prefix.is_prefix_of(k) ==> exists|i: int|
            0 <= i < objects.len() && objects[i].key == k
    &&& forall|i: int, j: int| 0 <= i < j < objects.len() ==> objects[i].key != objects[j].key
}

struct Object {
    object: ObjectInfo,
    buf: Vec<u8>,
}

/// A bucket: its metadata and its objects, keyed uniquely.
pub struct Bucket {
    info: BucketInfo,
    objects: Vec<Object>,
    contents: Ghost<Map<Seq<char>, Seq<u8>>>,
}

impl View for Bucket {
    type V = BucketState;

    closed spec fn view(&self) -> BucketState {
        BucketState { name: self.info.name@, objects: self.contents@ }
    }
}

impl Bucket {
    spec fn key_at(&self, i: int) -> Seq<char> {
        self.objects@[i].object.key@
    }

    pub closed spec fn wf(&self) -> bool {
        &&& self.info@ == bucket_fixture(self.info.name@)
        &&& forall|i: int|
            0 <= i < self.objects.len() ==> {
                &&& self.contents@.contains_key(#[trigger] self.key_at(i))
                &&& self.contents@[self.key_at(i)] == self.objects@[i].buf@
                &&& self.objects@[i].object@ == object_fixture(
                    self.info.name@,
                    self.key_at(i),
                    self.objects@[i].buf@.len() as u64,
                )
            }
        &&& forall|k: Seq<char>|
            #[trigger] self.contents@.contains_key(k) ==> exists|i: int|
                0 <= i < self.objects.len() && self.key_at(i) == k
        &&& forall|i: int, j: int|
            0 <= i < j < self.objects.len() ==> self.key_at(i) != self.key_at(j)
    }

    /// An empty bucket with the metadata `info`.
    pub fn new(info: BucketInfo) -> (b: Bucket)
        requires
            info@ == bucket_fixture(info.name@),
        ensures
            b.wf(),
            b@ == empty_bucket(info.name@),
            b.info()@ == info@,
    {
        Bucket { info, objects: Vec::new(), contents: Ghost(Map::empty()) }
    }

    pub closed spec fn info(&self) -> BucketInfo {
        self.info
    }

    /// The bucket's metadata.
    pub fn bucket_info(&self) -> (r: BucketInfo)
        requires
            self.wf(),
        ensures
            r@ == self.info()@,
            r@ == bucket_fixture(self@.name),
    {
        self.info.clone()
    }

    fn find(&self, key: &String) -> (r: Option<usize>)
        requires
            self.wf(),
        ensures
            r matches Some(i) ==> i < self.objects.len() && self.key_at(i as int) == key@,
            r is None ==> !self.contents@.contains_key(key@),
    {
        let mut i: usize = 0;
        while i < self.objects.len()
            invariant
                self.wf(),
                i <= self.objects.len(),
                forall|j: int| 0 <= j < i ==> self.key_at(j) != key@,
            decreases self.objects.len() - i,
        {
            if self.objects[i].object.key == *key {
                return Some(i);
            }
            i = i + 1;
        }
        None
    }

    /// Reads the object stored under `key`.
    pub fn get_object(&self, key: &str, head_only: bool) -> (r: get_object::Ret)
        requires
            self.wf(),
        ensures
            reply_outcome(r) == get_outcome(self@, key@, head_only),
            r matches Ok(reply) ==> payload_fits(reply),
    {
        let k = owned(key);
        match self.find(&k) {
            Some(i) => {
                let o = &self.objects[i];
                let body = if head_only {
                    None
                } else {
                    Some(o.buf.clone())
                };
                proof {
                    if !head_only {
                        assert(body.unwrap()@ =~= o.buf@);
                    }
                }
                Ok(get_object::Reply { object: o.object.clone(), body })
            },
            None => Err(S3Error::NoSuchKey),
        }
    }

    /// Stores `buf` under `key`, replacing what was stored there.
    pub fn put_object(&mut self, key: &str, buf: Vec<u8>) -> (r: ObjectInfo)
        requires
            old(self).wf(),
        ensures
            final(self).wf(),
            final(self)@ == put_state(old(self)@, key@, buf@),
            final(self).info() == old(self).info(),
            r@ == object_fixture(old(self)@.name, key@, buf@.len() as u64),
            r.size == buf@.len(),
    {
        let k = owned(key);
        let info = ObjectInfo::fixture(self.info.name.as_str(), key, buf.len() as u64);
        let r = info.clone();
        let ghost data = buf@;
        let ghost old_contents = self.contents@;
        match self.find(&k) {
            Some(i) => {
                self.objects.set(i, Object { object: info, buf });
                self.contents = Ghost(self.contents@.insert(key@, data));
                proof {
                    assert forall|k2: Seq<char>| #[trigger] self.contents@.contains_key(k2) implies exists|j: int|
                        0 <= j < self.objects.len() && self.key_at(j) == k2 by {
                        if k2 != key@ {
                            let j = choose|j: int| 0 <= j < old(self).objects.len() && old(self).key_at(j) == k2;
                            assert(j != i);
                            assert(self.key_at(j) == k2);
                        } else {
                            assert(self.key_at(i as int) == k2);
                        }
                    }
                    assert forall|j: int| 0 <= j < self.objects.len() implies {
                        &&& self.contents@.contains_key(#[trigger] self.key_at(j))
                        &&& self.contents@[self.key_at(j)] == self.objects@[j].buf@
                        &&& self.objects@[j].object@ == object_fixture(
                            self.info.name@,
                            self.key_at(j),
                            self.objects@[j].buf@.len() as u64,
                        )
                    } by {
                        if j != i {
                            assert(old(self).key_at(j) != old(self).key_at(i as int) || j == i);
                            assert(self.key_at(j) == old(self).key_at(j));
                        }
                    }
                    assert forall|a: int, b: int| 0 <= a < b < self.objects.len() implies self.key_at(a)
                        != self.key_at(b) by {
                        assert(self.key_at(a) == old(self).key_at(a) || a == i);
                        assert(self.key_at(b) == old(self).key_at(b) || b == i);
                    }
                }
            },
            None => {
                self.objects.push(Object { object: info, buf });
                self.contents = Ghost(self.contents@.insert(key@, data));
                proof {
                    let n = old(self).objects.len() as int;
                    assert(self.key_at(n) == key@);
                    assert forall|k2: Seq<char>| #[trigger] self.contents@.contains_key(k2) implies exists|j: int|
                        0 <= j < self.objects.len() && self.key_at(j) == k2 by {
                        if k2 != key@ {
                            let j = choose|j: int| 0 <= j < old(self).objects.len() && old(self).key_at(j) == k2;
                            assert(self.key_at(j) == k2);
                        }
                    }
                    assert forall|j: int| 0 <= j < self.objects.len() implies {
                        &&& self.contents@.contains_key(#[trigger] self.key_at(j))
                        &&& self.contents@[self.key_at(j)] == self.objects@[j].buf@
                        &&& self.objects@[j].object@ == object_fixture(
                            self.info.name@,
                            self.key_at(j),
                            self.objects@[j].buf@.len() as u64,
                        )
                    } by {
                        if j < n {
                            assert(self.key_at(j) == old(self).key_at(j));
                            assert(old(self).contents@.contains_key(old(self).key_at(j)));
                        }
                    }
                    assert forall|a: int, b: int| 0 <= a < b < self.objects.len() implies self.key_at(a)
                        != self.key_at(b) by {
                        if b == n {
                            assert(old(self).contents@.contains_key(old(self).key_at(a)));
                        } else {
                            assert(self.key_at(a) == old(self).key_at(a));
                            assert(self.key_at(b) == old(self).key_at(b));
                        }
                    }
                }
            },
        }
        r
    }

    /// Removes the object stored under `key`; `NoSuchKey` when there is none.
    pub fn delete_object(&mut self, key: &str) -> (r: Result<ObjectInfo, S3Error>)
        requires
            old(self).wf(),
        ensures
            final(self).wf(),
            final(self)@.name == old(self)@.name,
            final(self).info() == old(self).info(),
            old(self)@.objects.contains_key(key@) ==> {
                &&& final(self)@.objects == old(self)@.objects.remove(key@)
                &&& r matches Ok(o) && o@ == stored_object(old(self)@, key@)
            },
            !old(self)@.objects.contains_key(key@) ==> {
                &&& final(self)@ == old(self)@
                &&& r == Err::<ObjectInfo, S3Error>(S3Error::NoSuchKey)
            },
    {
        let k = owned(key);
        match self.find(&k) {
            Some(i) => {
                let removed = self.objects.remove(i);
                self.contents = Ghost(self.contents@.remove(key@));
                proof {
                    let n = old(self).objects.len() as int;
                    assert(removed.buf@ == old(self).contents@[key@]);
                    assert forall|j: int| 0 <= j < self.objects.len() implies #[trigger] self.key_at(j)
                        == old(self).key_at(if j < i { j } else { j + 1 }) by {}
                    assert forall|k2: Seq<char>| #[trigger] self.contents@.contains_key(k2) implies exists|j: int|
                        0 <= j < self.objects.len() && self.key_at(j) == k2 by {
                        let j = choose|j: int| 0 <= j < n && old(self).key_at(j) == k2;
                        assert(j != i);
                        if j < i {
                            assert(self.key_at(j) == k2);
                        } else {
                            assert(self.key_at(j - 1) == k2);
                        }
                    }
                    assert forall|j: int| 0 <= j < self.objects.len() implies {
                        &&& self.contents@.contains_key(#[trigger] self.key_at(j))
                        &&& self.contents@[self.key_at(j)] == self.objects@[j].buf@
                        &&& self.objects@[j].object@ == object_fixture(
                            self.info.name@,
                            self.key_at(j),
                            self.objects@[j].buf@.len() as u64,
                        )
                    } by {
                        let oj = if j < i { j } else { j + 1 };
                        assert(self.objects@[j] == old(self).objects@[oj]);
                        assert(old(self).key_at(oj) != old(self).key_at(i as int));
                        assert(old(self).contents@.contains_key(old(self).key_at(oj)));
                    }
                    assert forall|a: int, b: int| 0 <= a < b < self.objects.len() implies self.key_at(a)
                        != self.key_at(b) by {
                        let oa = if a < i { a } else { a + 1 };
                        let ob = if b < i { b } else { b + 1 };
                        assert(oa < ob);
                        assert(self.key_at(a) == old(self).key_at(oa));
                        assert(self.key_at(b) == old(self).key_at(ob));
                    }
                }
                Ok(removed.object)
            },
            None => Err(S3Error::NoSuchKey),
        }
    }

    /// The metadata of the objects whose key starts with `prefix`, in the order they were
    /// first stored; the listing is not sorted.
    pub fn list_objects(&self, prefix: &str) -> (r: Vec<ObjectInfo>)
        requires
            self.wf(),
        ensures
            is_listing(r@.map_values(|o: ObjectInfo| o@), self@, prefix@),
    {
        let mut r: Vec<ObjectInfo> = Vec::new();
        let mut i: usize = 0;
        let ghost from: Seq<int> = Seq::empty();
        while i < self.objects.len()
            invariant
                self.wf(),
                i <= self.objects.len(),
                from.len() == r.len(),
                forall|a: int| 0 <= a < r.len() ==> {
                    &&& 0 <= #[trigger] from[a] < i
                    &&& r@[a]@ == self.objects@[from[a]].object@
                    &&& prefix@.is_prefix_of(self.key_at(from[a]))
                },
                forall|a: int, b: int| 0 <= a < b < r.len() ==> from[a] < from[b],
                forall|j: int|
                    0 <= j < i && prefix@.is_prefix_of(#[trigger] self.key_at(j)) ==> exists|a: int|
                        0 <= a < r.len() && from[a] == j,
            decreases self.objects.len() - i,
        {
            let ghost old_from = from;
            if starts_with(self.objects[i].object.key.as_str(), prefix) {
                r.push(self.objects[i].object.clone());
                proof {
                    from = from.push(i as int);
                    assert forall|j: int|
                        0 <= j < i + 1 && prefix@.is_prefix_of(#[trigger] self.key_at(j)) implies exists|a: int|
                        0 <= a < r.len() && from[a] == j by {
                        if j == i {
                            assert(from[old_from.len() as int] == j);
                        } else {
                            let a = choose|a: int| 0 <= a < old_from.len() && old_from[a] == j;
                            assert(from[a] == j);
                        }
                    }
                }
            }
            i = i + 1;
        }
        let ghost ov = r@.map_values(|o: ObjectInfo| o@);
        proof {
            assert forall|a: int| 0 <= a < ov.len() implies {
                &&& self@.objects.contains_key(#[trigger] ov[a].key)
                &&& prefix@.is_prefix_of(ov[a].key)
                &&& ov[a] == stored_object(self@, ov[a].key)
            } by {
                assert(ov[a] == r@[a]@);
                assert(self.key_at(from[a]) == ov[a].key);
            }
            assert forall|k: Seq<char>|
                #[trigger] self@.objects.contains_key(k) && prefix@.is_prefix_of(k) implies exists|a: int|
                0 <= a < ov.len() && ov[a].key == k by {
                let j = choose|j: int| 0 <= j < self.objects.len() && self.key_at(j) == k;
                let a = choose|a: int| 0 <= a < r.len() && from[a] == j;
                assert(ov[a] == r@[a]@);
            }
            assert forall|a: int, b: int| 0 <= a < b < ov.len() implies ov[a].key != ov[b].key by {
                assert(ov[a] == r@[a]@);
                assert(ov[b] == r@[b]@);
                assert(self.key_at(from[a]) == ov[a].key);
                assert(self.key_at(from[b]) == ov[b].key);
            }
        }
        r
    }

    /// Removes every object.
    pub fn clear(&mut self)
        requires
            old(self).wf(),
        ensures
            final(self).wf(),
            final(self)@ == cleared(old(self)@),
            final(self).info() == old(self).info(),
    {
        self.objects.clear();
        self.contents = Ghost(Map::empty());
    }
}

} // verus!
