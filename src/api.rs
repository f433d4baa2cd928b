use vstd::prelude::*;
use crate::errors::S3Error;
use crate::ops::{
    delete_bucket, delete_object, get_bucket, get_object, list_buckets, list_objects, put_bucket,
    put_object,
};
use crate::text::{bounded_digits, chars_of, join2, read_digits, split_chars, split_on, starts_with, views};

verus! {

pub ghost struct UserView {
    pub id: Seq<char>,
    pub display_name: Seq<char>,
}

pub ghost struct BucketView {
    pub name: Seq<char>,
    pub class: Seq<char>,
    pub region: Seq<char>,
    pub owner: UserView,
}

pub ghost struct ObjectView {
    pub bucket: Seq<char>,
    pub key: Seq<char>,
    pub version_id: Seq<char>,
    pub size: u64,
    pub last_modified: Seq<char>,
    pub etag: Seq<char>,
    pub storage_class: Seq<char>,
    pub owner: UserView,
}

#[derive(Debug)]
pub struct UserInfo {
    pub id: String,
    pub display_name: String,
}

#[derive(Debug)]
pub struct BucketInfo {
    pub name: String,
    pub class: String,
    pub region: String,
    pub owner: UserInfo,
}

#[derive(Debug)]
pub struct ObjectInfo {
    pub bucket: String,
    pub key: String,
    pub version_id: String,
    pub size: u64,
    pub last_modified: String,
    pub etag: String,
    pub storage_class: String,
    pub owner: UserInfo,
}

/// A byte range of an object: `start` and `end` are inclusive offsets, either may be open.
/// With only `end`, it is a suffix: the last `end` bytes. Requests carry it, but the
/// backends here serve whole objects: partial content is not offered.
#[derive(Debug, Clone, Copy, PartialEq, Eq, Structural)]
pub struct ObjectRange {
    pub start: Option<u64>,
    pub end: Option<u64>,
}

impl View for UserInfo {
    type V = UserView;

    open spec fn view(&self) -> UserView {
        UserView { id: self.id@, display_name: self.display_name@ }
    }
}

impl View for BucketInfo {
    type V = BucketView;

    open spec fn view(&self) -> BucketView {
        BucketView { name: self.name@, class: self.class@, region: self.region@, owner: self.owner@ }
    }
}

impl View for ObjectInfo {
    type V = ObjectView;

    open spec fn view(&self) -> ObjectView {
        ObjectView {
            bucket: self.bucket@,
            key: self.key@,
            version_id: self.version_id@,
            size: self.size,
            last_modified: self.last_modified@,
            etag: self.etag@,
            storage_class: self.storage_class@,
            owner: self.owner@,
        }
    }
}

impl Clone for UserInfo {
    fn clone(&self) -> (r: Self)
        ensures
            r@ == self@,
    {
        UserInfo { id: self.id.clone(), display_name: self.display_name.clone() }
    }
}

impl Clone for BucketInfo {
    fn clone(&self) -> (r: Self)
        ensures
            r@ == self@,
    {
        BucketInfo {
            name: self.name.clone(),
            class: self.class.clone(),
            region: self.region.clone(),
            owner: self.owner.clone(),
        }
    }
}

impl Clone for ObjectInfo {
    fn clone(&self) -> (r: Self)
        ensures
            r@ == self@,
    {
        ObjectInfo {
            bucket: self.bucket.clone(),
            key: self.key.clone(),
            version_id: self.version_id.clone(),
            size: self.size,
            last_modified: self.last_modified.clone(),
            etag: self.etag.clone(),
            storage_class: self.storage_class.clone(),
            owner: self.owner.clone(),
        }
    }
}

/// The metadata that the in-memory and canned stores give a bucket named `bucket`.
pub open spec fn bucket_fixture(bucket: Seq<char>) -> BucketView {
    BucketView {
        name: bucket,
        class: "class_"@ + bucket,
        region: "region_"@ + bucket,
        owner: UserView { id: "user_id_"@ + bucket, display_name: "user_name_"@ + bucket },
    }
}

/// `prefix`, then `bucket`, an underscore and `key`.
pub open spec fn tagged(prefix: Seq<char>, bucket: Seq<char>, key: Seq<char>) -> Seq<char> {
    prefix + bucket + "_"@ + key
}

/// The metadata that the in-memory and canned stores give an object of `size` bytes
/// stored under `key` in `bucket`.
pub open spec fn object_fixture(bucket: Seq<char>, key: Seq<char>, size: u64) -> ObjectView {
    ObjectView {
        bucket,
        key,
        version_id: tagged("version_id_"@, bucket, key),
        size,
        last_modified: tagged("last_modified_"@, bucket, key),
        etag: tagged("etag_"@, bucket, key),
        storage_class: tagged("storage_class_"@, bucket, key),
        owner: UserView {
            id: tagged("user_id_"@, bucket, key),
            display_name: tagged("user_name_"@, bucket, key),
        },
    }
}

fn tagged_text(prefix: &str, bucket: &str, key: &str) -> (r: String)
    ensures
        r@ == tagged(prefix@, bucket@, key@),
{
    let a = join2(prefix, bucket);
    let b = join2(a.as_str(), "_");
    join2(b.as_str(), key)
}

impl BucketInfo {
    pub fn fixture(bucket: &str) -> (r: BucketInfo)
        ensures
            r@ == bucket_fixture(bucket@),
    {
        BucketInfo {
            name: bucket.to_owned(),
            class: join2("class_", bucket),
            region: join2("region_", bucket),
            owner: UserInfo {
                id: join2("user_id_", bucket),
                display_name: join2("user_name_", bucket),
            },
        }
    }
}

impl ObjectInfo {
    pub fn fixture(bucket: &str, key: &str, size: u64) -> (r: ObjectInfo)
        ensures
            r@ == object_fixture(bucket@, key@, size),
    {
        ObjectInfo {
            bucket: bucket.to_owned(),
            key: key.to_owned(),
            version_id: tagged_text("version_id_", bucket, key),
            size,
            last_modified: tagged_text("last_modified_", bucket, key),
            etag: tagged_text("etag_", bucket, key),
            storage_class: tagged_text("storage_class_", bucket, key),
            owner: UserInfo {
                id: tagged_text("user_id_", bucket, key),
                display_name: tagged_text("user_name_", bucket, key),
            },
        }
    }
}

/// The range that a `Range` header value asks for (RFC 7233, a single byte range):
/// `bytes=first-last`, `bytes=first-` or `bytes=-suffix`, where `first <= last`.
/// Anything else asks for no range.
pub open spec fn range_spec(value: Seq<char>) -> Option<(Option<u64>, Option<u64>)> {
    if !"bytes="@.is_prefix_of(value) {
        None
    } else {
        let parts = split_on(value.subrange(6, value.len() as int), '-');
        if parts.len() != 2 {
            None
        } else {
            let first = bounded_digits(parts[0], u64::MAX as nat);
            let last = bounded_digits(parts[1], u64::MAX as nat);
            if parts[0].len() == 0 {
                match last {
                    Some(n) => Some((None, Some(n as u64))),
                    None => None,
                }
            } else if parts[1].len() == 0 {
                match first {
                    Some(n) => Some((Some(n as u64), None)),
                    None => None,
                }
            } else {
                match (first, last) {
                    (Some(a), Some(b)) => if a <= b {
                        Some((Some(a as u64), Some(b as u64)))
                    } else {
                        None
                    },
                    _ => None,
                }
            }
        }
    }
}

impl ObjectRange {
    /// The whole object.
    pub open spec fn is_whole(self) -> bool {
        self.start is None && self.end is None
    }

    /// Reads a `Range` header value; a value that asks for no single byte range gives
    /// the whole object.
    pub fn parse(value: &str) -> (r: ObjectRange)
        ensures
            range_spec(value@) matches Some(p) ==> r.start == p.0 && r.end == p.1,
            range_spec(value@) is None ==> r.is_whole(),
    {
        let whole = ObjectRange { start: None, end: None };
        if !starts_with(value, "bytes=") {
            return whole;
        }
        let chars = chars_of(value);
        proof {
            reveal_strlit("bytes=");
        }
        let mut rest: Vec<char> = Vec::new();
        let mut i: usize = 6;
        while i < chars.len()
            invariant
                6 <= i <= chars.len(),
                rest@ == chars@.subrange(6, i as int),
            decreases chars.len() - i,
        {
            rest.push(chars[i]);
            proof {
                assert(chars@.subrange(6, i + 1) =~= chars@.subrange(6, i as int).push(chars@[i as int]));
            }
            i = i + 1;
        }
        let parts = split_chars(&rest, '-');
        if parts.len() != 2 {
            return whole;
        }
        let a = chars_of(parts[0].as_str());
        let b = chars_of(parts[1].as_str());
        proof {
            assert(views(parts@)[0] == parts@[0]@);
            assert(views(parts@)[1] == parts@[1]@);
            assert(a@.subrange(0, a.len() as int) =~= a@);
            assert(b@.subrange(0, b.len() as int) =~= b@);
        }
        let first = read_digits(&a, 0, a.len(), u64::MAX);
        let last = read_digits(&b, 0, b.len(), u64::MAX);
        if a.len() == 0 {
            match last {
                Some(n) => ObjectRange { start: None, end: Some(n) },
                None => whole,
            }
        } else if b.len() == 0 {
            match first {
                Some(n) => ObjectRange { start: Some(n), end: None },
                None => whole,
            }
        } else {
            match (first, last) {
                (Some(x), Some(y)) => if x <= y {
                    ObjectRange { start: Some(x), end: Some(y) }
                } else {
                    whole
                },
                _ => whole,
            }
        }
    }
}

/// The keys of `objects` are pairwise distinct.
pub open spec fn distinct_keys(objects: Seq<ObjectInfo>) -> bool {
    forall|i: int, j: int| 0 <= i < j < objects.len() ==> objects[i].key@ != objects[j].key@
}

/// The names of `buckets` are pairwise distinct.
pub open spec fn distinct_names(buckets: Seq<BucketInfo>) -> bool {
    forall|i: int, j: int| 0 <= i < j < buckets.len() ==> buckets[i].name@ != buckets[j].name@
}

/// A listing answers `p`: it repeats the request's fields, and holds objects of the bucket
/// whose keys start with the prefix, each key once.
pub open spec fn answers_listing(p: list_objects::Params, r: list_objects::Reply) -> bool {
    &&& r.bucket@ == p.bucket@
    &&& r.prefix@ == p.prefix@
    &&& r.delimiter@ == p.delimiter@
    &&& r.marker@ == p.marker@
    &&& r.max_keys == p.max_keys
    &&& r.encoding_type@ == p.encoding_type@
    &&& distinct_keys(r.objects@)
    &&& forall|i: int|
        0 <= i < r.objects.len() ==> {
            &&& (#[trigger] r.objects@[i]).bucket@ == p.bucket@
            &&& p.prefix@.is_prefix_of(r.objects@[i].key@)
        }
}

/// A read answers `p`: the object is the one asked for, and the payload is there, as long
/// as the object says, exactly when more than the metadata was asked for.
pub open spec fn answers_read(p: get_object::Params, r: get_object::Reply) -> bool {
    &&& r.object.bucket@ == p.bucket@
    &&& r.object.key@ == p.key@
    &&& p.head_only ==> r.body is None
    &&& !p.head_only ==> (r.body matches Some(b) && b@.len() == r.object.size)
}

/// A storage backend: eight operations, each of which may run concurrently with the others.
/// Every outcome of each satisfies its `ensures`; an unexpected fault is `InternalError`.
/// Deleting a bucket or an object that is not there is reported as `NoSuchBucket` or
/// `NoSuchKey`, not as success.
pub trait ApiLayer: Sized + Send + Sync {
    fn new() -> Self;

    fn list_buckets(&self, req: list_buckets::Params) -> (r: list_buckets::Ret)
        ensures
            r matches Ok(reply) ==> distinct_names(reply.buckets@),
            r matches Err(e) ==> e == S3Error::InternalError,
    ;

    fn get_bucket(&self, req: get_bucket::Params) -> (r: get_bucket::Ret)
        ensures
            r matches Ok(reply) ==> reply.info.name@ == req.bucket@,
            r matches Err(e) ==> e == S3Error::NoSuchBucket || e == S3Error::InternalError,
    ;

    fn put_bucket(&self, req: put_bucket::Params) -> (r: put_bucket::Ret)
        ensures
            r matches Ok(reply) ==> reply.info.name@ == req.bucket@,
            r matches Err(e) ==> e == S3Error::BucketAlreadyExists || e == S3Error::InternalError,
    ;

    fn delete_bucket(&self, req: delete_bucket::Params) -> (r: delete_bucket::Ret)
        ensures
            r matches Ok(reply) ==> reply.info.name@ == req.bucket@,
            r matches Err(e) ==> e == S3Error::NoSuchBucket || e == S3Error::InternalError,
    ;

    fn list_objects(&self, req: list_objects::Params) -> (r: list_objects::Ret)
        ensures
            r matches Ok(reply) ==> answers_listing(req, reply),
            r matches Err(e) ==> e == S3Error::NoSuchBucket || e == S3Error::InternalError,
    ;

    fn get_object(&self, req: get_object::Params) -> (r: get_object::Ret)
        ensures
            r matches Ok(reply) ==> answers_read(req, reply),
            r matches Err(e) ==> e == S3Error::NoSuchBucket || e == S3Error::NoSuchKey || e
                == S3Error::InternalError,
    ;

    fn put_object(&self, req: put_object::Params) -> (r: put_object::Ret)
        ensures
            r matches Ok(reply) ==> {
                &&& reply.object.bucket@ == req.bucket@
                &&& reply.object.key@ == req.key@
                &&& reply.object.size == req.body@.len()
            },
            r matches Err(e) ==> e == S3Error::NoSuchBucket || e == S3Error::InternalError,
    ;

    fn delete_object(&self, req: delete_object::Params) -> (r: delete_object::Ret)
        ensures
            r matches Ok(reply) ==> reply.object.bucket@ == req.bucket@ && reply.object.key@
                == req.key@,
            r matches Err(e) ==> e == S3Error::NoSuchBucket || e == S3Error::NoSuchKey || e
                == S3Error::InternalError,
    ;
}

} // verus!
