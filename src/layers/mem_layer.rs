use vstd::prelude::*;
use vstd::rwlock::{ReadHandle, RwLock, RwLockPredicate};
use std::sync::Arc;
use crate::api::{answers_listing, answers_read, bucket_fixture, object_fixture, ApiLayer, BucketInfo, ObjectInfo, UserInfo};
use crate::errors::S3Error;
use crate::layers::bucket::{get_outcome, is_listing, reply_outcome};
use crate::layers::table::{BucketLock, BucketTable};
use crate::ops::{
    delete_bucket, delete_object, get_bucket, get_object, list_buckets, list_objects, put_bucket,
    put_object,
};
use crate::text::owned;

verus! {

/// What the store lock may hold: a well-formed bucket table.
pub ghost struct TablePred {}

impl RwLockPredicate<BucketTable> for TablePred {
    open spec fn inv(self, t: BucketTable) -> bool {
        t.wf()
    }
}

/// The in-memory backend: a store lock over the bucket table, and one lock per bucket
/// over its metadata and objects.
///
/// Bucket creation and deletion take the store lock for writing; every other operation
/// takes it for reading, only to find the bucket. The store lock is always taken before a
/// bucket lock and is let go as soon as the bucket's lock is held (the listing of buckets
/// lets it go before it reads the buckets), and no thread that holds a bucket lock waits
/// for the store lock, so operations on different buckets never wait for each other
/// beyond the lookup. Deletion takes the removed bucket's write lock and clears its
/// objects before it reports success.
pub struct MemLayer {
    buckets: RwLock<BucketTable, TablePred>,
}

/// The owner reported by the bucket listing.
pub open spec fn store_owner(u: UserInfo) -> bool {
    u.id@ == "222"@ && u.display_name@ == "user222"@
}

/// The store lock, held for reading.
type TableRead<'a> = ReadHandle<'a, BucketTable, TablePred>;

/// The metadata of the buckets behind `handles`, in order, each read under its lock.
fn bucket_infos(handles: &Vec<Arc<BucketLock>>) -> (r: Vec<BucketInfo>)
    ensures
        r.len() == handles.len(),
        forall|i: int| 0 <= i < r.len() ==> (#[trigger] r@[i])@ == bucket_fixture(handles@[i].pred().name),
{
    let mut r: Vec<BucketInfo> = Vec::new();
    let mut i: usize = 0;
    while i < handles.len()
        invariant
            i <= handles.len(),
            r.len() == i,
            forall|a: int| 0 <= a < i ==> (#[trigger] r@[a])@ == bucket_fixture(handles@[a].pred().name),
        decreases handles.len() - i,
    {
        let b = handles[i].acquire_read();
        let info = b.borrow().bucket_info();
        b.release_read();
        r.push(info);
        i = i + 1;
    }
    r
}

/// Reads the metadata of the bucket that the lookup found; `NoSuchBucket` exactly when it
/// found none. The store lock is let go once the bucket's lock is held.
fn get_bucket_in(table: TableRead, found: Option<Arc<BucketLock>>, name: &String) -> (r: get_bucket::Ret)
    requires
        found matches Some(h) ==> h.pred().name == name@,
    ensures
        found is None ==> r == Err::<get_bucket::Reply, S3Error>(S3Error::NoSuchBucket),
        found is Some ==> (r matches Ok(reply) && reply.info@ == bucket_fixture(name@)),
{
    match found {
        Some(lock) => {
            let b = lock.acquire_read();
            table.release_read();
            let info = b.borrow().bucket_info();
            b.release_read();
            Ok(get_bucket::Reply { info })
        },
        None => {
            table.release_read();
            Err(S3Error::NoSuchBucket)
        },
    }
}

/// Lists the bucket that the lookup found; `NoSuchBucket` exactly when it found none.
fn list_objects_in(table: TableRead, found: Option<Arc<BucketLock>>, req: &list_objects::Params) -> (r: list_objects::Ret)
    requires
        found matches Some(h) ==> h.pred().name == req.bucket@,
    ensures
        found is None ==> r == Err::<list_objects::Reply, S3Error>(S3Error::NoSuchBucket),
        found is Some ==> (r matches Ok(reply) && answers_listing(*req, reply) && {
            &&& !reply.is_truncated
            &&& reply.next_marker@.len() == 0
            &&& reply.common_prefixes@.len() == 0
            &&& forall|i: int|
                0 <= i < reply.objects.len() ==> (#[trigger] reply.objects@[i])@ == object_fixture(
                    req.bucket@,
                    reply.objects@[i].key@,
                    reply.objects@[i].size,
                )
        }),
{
    match found {
        Some(lock) => {
            let b = lock.acquire_read();
            table.release_read();
            let objects = b.borrow().list_objects(req.prefix.as_str());
            let ghost state = b.view()@;
            b.release_read();
            let reply = list_objects::Reply {
                bucket: req.bucket.clone(),
                prefix: req.prefix.clone(),
                delimiter: req.delimiter.clone(),
                marker: req.marker.clone(),
                max_keys: req.max_keys,
                encoding_type: req.encoding_type.clone(),
                is_truncated: false,
                next_marker: String::new(),
                objects,
                common_prefixes: Vec::new(),
            };
            proof {
                let ov = reply.objects@.map_values(|o: ObjectInfo| o@);
                assert(is_listing(ov, state, req.prefix@));
                assert forall|i: int| 0 <= i < reply.objects.len() implies {
                    &&& (#[trigger] reply.objects@[i]).bucket@ == req.bucket@
                    &&& req.prefix@.is_prefix_of(reply.objects@[i].key@)
                    &&& reply.objects@[i]@ == object_fixture(
                        req.bucket@,
                        reply.objects@[i].key@,
                        reply.objects@[i].size,
                    )
                } by {
                    assert(ov[i] == reply.objects@[i]@);
                    assert(state.objects.contains_key(ov[i].key));
                }
                assert forall|i: int, j: int| 0 <= i < j < reply.objects.len() implies reply.objects@[i].key@
                    != reply.objects@[j].key@ by {
                    assert(ov[i] == reply.objects@[i]@);
                    assert(ov[j] == reply.objects@[j]@);
                }
            }
            Ok(reply)
        },
        None => {
            table.release_read();
            Err(S3Error::NoSuchBucket)
        },
    }
}

/// Reads from the bucket that the lookup found; `NoSuchBucket` exactly when it found none,
/// and otherwise the object or `NoSuchKey`.
fn get_object_in(table: TableRead, found: Option<Arc<BucketLock>>, req: &get_object::Params) -> (r: get_object::Ret)
    requires
        found matches Some(h) ==> h.pred().name == req.bucket@,
    ensures
        found is None ==> r == Err::<get_object::Reply, S3Error>(S3Error::NoSuchBucket),
        found is Some ==> (r matches Err(e) ==> e == S3Error::NoSuchKey),
        r matches Ok(reply) ==> answers_read(*req, reply) && reply.object@ == object_fixture(
            req.bucket@,
            req.key@,
            reply.object.size,
        ),
{
    match found {
        Some(lock) => {
            let b = lock.acquire_read();
            table.release_read();
            let r = b.borrow().get_object(req.key.as_str(), req.head_only);
            let ghost state = b.view()@;
            b.release_read();
            proof {
                assert(reply_outcome(r) == get_outcome(state, req.key@, req.head_only));
            }
            r
        },
        None => {
            table.release_read();
            Err(S3Error::NoSuchBucket)
        },
    }
}

/// Stores into the bucket that the lookup found; `NoSuchBucket` exactly when it found none,
/// and success otherwise.
fn put_object_in(table: TableRead, found: Option<Arc<BucketLock>>, req: put_object::Params) -> (r: put_object::Ret)
    requires
        found matches Some(h) ==> h.pred().name == req.bucket@,
    ensures
        found is None ==> r == Err::<put_object::Reply, S3Error>(S3Error::NoSuchBucket),
        found is Some ==> (r matches Ok(reply) && reply.object@ == object_fixture(
            req.bucket@,
            req.key@,
            req.body@.len() as u64,
        ) && reply.object.size == req.body@.len()),
{
    match found {
        Some(lock) => {
            let (mut bucket, handle) = lock.acquire_write();
            table.release_read();
            let object = bucket.put_object(req.key.as_str(), req.body);
            handle.release_write(bucket);
            Ok(put_object::Reply { object })
        },
        None => {
            table.release_read();
            Err(S3Error::NoSuchBucket)
        },
    }
}

/// Removes from the bucket that the lookup found; `NoSuchBucket` exactly when it found none,
/// and otherwise the removed object or `NoSuchKey`.
fn delete_object_in(table: TableRead, found: Option<Arc<BucketLock>>, req: &delete_object::Params) -> (r: delete_object::Ret)
    requires
        found matches Some(h) ==> h.pred().name == req.bucket@,
    ensures
        found is None ==> r == Err::<delete_object::Reply, S3Error>(S3Error::NoSuchBucket),
        found is Some ==> (r matches Err(e) ==> e == S3Error::NoSuchKey),
        r matches Ok(reply) ==> reply.object@ == object_fixture(req.bucket@, req.key@, reply.object.size),
{
    match found {
        Some(lock) => {
            let (mut bucket, handle) = lock.acquire_write();
            table.release_read();
            let removed = bucket.delete_object(req.key.as_str());
            handle.release_write(bucket);
            match removed {
                Ok(object) => Ok(delete_object::Reply { object }),
                Err(e) => Err(e),
            }
        },
        None => {
            table.release_read();
            Err(S3Error::NoSuchBucket)
        },
    }
}

impl ApiLayer for MemLayer {
    fn new() -> Self {
        MemLayer { buckets: RwLock::new(BucketTable::new(), Ghost(TablePred {})) }
    }

    /// Lists the buckets that the table held when the store lock was taken.
    fn list_buckets(&self, req: list_buckets::Params) -> (r: list_buckets::Ret)
        ensures
            r matches Ok(reply) && {
                &&& forall|i: int|
                    0 <= i < reply.buckets.len() ==> (#[trigger] reply.buckets@[i])@ == bucket_fixture(
                        reply.buckets@[i].name@,
                    )
                &&& store_owner(reply.owner)
                &&& !reply.is_truncated
                &&& reply.next_marker@.len() == 0
            },
    {
        let table = self.buckets.acquire_read();
        let handles = table.borrow().handles();
        table.release_read();
        let buckets = bucket_infos(&handles);
        proof {
            assert forall|a: int, b: int| 0 <= a < b < buckets.len() implies buckets@[a].name@
                != buckets@[b].name@ by {
                assert(handles@[a].pred() != handles@[b].pred());
                assert(buckets@[a]@ == bucket_fixture(handles@[a].pred().name));
                assert(buckets@[b]@ == bucket_fixture(handles@[b].pred().name));
            }
            assert forall|i: int| 0 <= i < buckets.len() implies (#[trigger] buckets@[i])@ == bucket_fixture(
                buckets@[i].name@,
            ) by {
                assert(buckets@[i]@ == bucket_fixture(handles@[i].pred().name));
            }
        }
        let owner = UserInfo { id: owned("222"), display_name: owned("user222") };
        Ok(list_buckets::Reply { buckets, is_truncated: false, next_marker: String::new(), owner })
    }

    fn get_bucket(&self, req: get_bucket::Params) -> (r: get_bucket::Ret)
        ensures
            r matches Ok(reply) ==> reply.info@ == bucket_fixture(req.bucket@),
            r matches Err(e) ==> e == S3Error::NoSuchBucket,
    {
        let table = self.buckets.acquire_read();
        let found = table.borrow().lookup(req.bucket.as_str());
        get_bucket_in(table, found, &req.bucket)
    }

    fn put_bucket(&self, req: put_bucket::Params) -> (r: put_bucket::Ret)
        ensures
            r matches Ok(reply) ==> reply.info@ == bucket_fixture(req.bucket@),
            r matches Err(e) ==> e == S3Error::BucketAlreadyExists,
    {
        let (mut table, handle) = self.buckets.acquire_write();
        let created = table.put_bucket(req.bucket.as_str());
        handle.release_write(table);
        match created {
            Ok(info) => Ok(put_bucket::Reply { info }),
            Err(e) => Err(e),
        }
    }

    fn delete_bucket(&self, req: delete_bucket::Params) -> (r: delete_bucket::Ret)
        ensures
            r matches Ok(reply) ==> reply.info@ == bucket_fixture(req.bucket@),
            r matches Err(e) ==> e == S3Error::NoSuchBucket,
    {
        let (mut table, handle) = self.buckets.acquire_write();
        let removed = table.remove(req.bucket.as_str());
        handle.release_write(table);
        match removed {
            Some(lock) => {
                let (mut bucket, bucket_handle) = lock.acquire_write();
                let info = bucket.bucket_info();
                bucket.clear();
                bucket_handle.release_write(bucket);
                Ok(delete_bucket::Reply { info })
            },
            None => Err(S3Error::NoSuchBucket),
        }
    }

    fn list_objects(&self, req: list_objects::Params) -> (r: list_objects::Ret)
        ensures
            r matches Ok(reply) ==> {
                &&& !reply.is_truncated
                &&& reply.next_marker@.len() == 0
                &&& reply.common_prefixes@.len() == 0
                &&& forall|i: int|
                    0 <= i < reply.objects.len() ==> (#[trigger] reply.objects@[i])@ == object_fixture(
                        req.bucket@,
                        reply.objects@[i].key@,
                        reply.objects@[i].size,
                    )
            },
            r matches Err(e) ==> e == S3Error::NoSuchBucket,
    {
        let table = self.buckets.acquire_read();
        let found = table.borrow().lookup(req.bucket.as_str());
        list_objects_in(table, found, &req)
    }

    fn get_object(&self, req: get_object::Params) -> (r: get_object::Ret)
        ensures
            r matches Ok(reply) ==> reply.object@ == object_fixture(req.bucket@, req.key@, reply.object.size),
            r matches Err(e) ==> e == S3Error::NoSuchBucket || e == S3Error::NoSuchKey,
    {
        let table = self.buckets.acquire_read();
        let found = table.borrow().lookup(req.bucket.as_str());
        get_object_in(table, found, &req)
    }

    fn put_object(&self, req: put_object::Params) -> (r: put_object::Ret)
        ensures
            r matches Ok(reply) ==> reply.object@ == object_fixture(req.bucket@, req.key@, req.body@.len() as u64),
            r matches Err(e) ==> e == S3Error::NoSuchBucket,
    {
        let table = self.buckets.acquire_read();
        let found = table.borrow().lookup(req.bucket.as_str());
        put_object_in(table, found, req)
    }

    fn delete_object(&self, req: delete_object::Params) -> (r: delete_object::Ret)
        ensures
            r matches Ok(reply) ==> reply.object@ == object_fixture(req.bucket@, req.key@, reply.object.size),
            r matches Err(e) ==> e == S3Error::NoSuchBucket || e == S3Error::NoSuchKey,
    {
        let table = self.buckets.acquire_read();
        let found = table.borrow().lookup(req.bucket.as_str());
        delete_object_in(table, found, &req)
    }
}

} // verus!
