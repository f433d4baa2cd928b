use vstd::prelude::*;
use crate::api::{bucket_fixture, object_fixture, ApiLayer, BucketInfo, ObjectInfo, ObjectView, UserInfo};
use crate::ops::{
    delete_bucket, delete_object, get_bucket, get_object, list_buckets, list_objects, put_bucket,
    put_object,
};
use crate::text::{decimal, digit_char, join2, owned, starts_with, u64_text};

verus! {

/// A backend that keeps nothing: every operation succeeds with metadata made from the
/// names in the request, and every bucket lists the same three objects.
pub struct S3Layer {
    endpoint: String,
    access_key: String,
    secret_key: String,
    region: String,
    bucket: String,
}

/// The key of the canned object number `i`.
pub open spec fn canned_key(i: nat) -> Seq<char> {
    "object_"@ + decimal(i)
}

/// The canned objects numbered 1 to `n` whose keys start with `prefix`, in order.
pub open spec fn canned_upto(bucket: Seq<char>, prefix: Seq<char>, n: nat) -> Seq<ObjectView>
    decreases n,
{
    if n == 0 {
        Seq::empty()
    } else {
        let prev = canned_upto(bucket, prefix, (n - 1) as nat);
        if prefix.is_prefix_of(canned_key(n)) {
            prev.push(object_fixture(bucket, canned_key(n), 0))
        } else {
            prev
        }
    }
}

/// `k` is the key of one of the three canned objects.
pub open spec fn is_canned_key(k: Seq<char>) -> bool {
    k == canned_key(1) || k == canned_key(2) || k == canned_key(3)
}

impl S3Layer {
    pub fn make_bucket_info(&self, bucket: &str) -> (r: BucketInfo)
        ensures
            r@ == bucket_fixture(bucket@),
    {
        BucketInfo::fixture(bucket)
    }

    pub fn make_object_info(&self, bucket: &str, key: &str) -> (r: ObjectInfo)
        ensures
            r@ == object_fixture(bucket@, key@, 0),
    {
        ObjectInfo::fixture(bucket, key, 0)
    }
}

impl ApiLayer for S3Layer {
    fn new() -> Self {
        S3Layer {
            endpoint: String::new(),
            access_key: String::new(),
            secret_key: String::new(),
            region: String::new(),
            bucket: String::new(),
        }
    }

    fn list_buckets(&self, req: list_buckets::Params) -> (r: list_buckets::Ret)
        ensures
            r matches Ok(reply) && reply.buckets@.len() == 0,
    {
        let owner = UserInfo { id: owned("222"), display_name: owned("user222") };
        Ok(list_buckets::Reply {
            buckets: Vec::new(),
            is_truncated: false,
            next_marker: String::new(),
            owner,
        })
    }

    fn get_bucket(&self, req: get_bucket::Params) -> (r: get_bucket::Ret)
        ensures
            r matches Ok(reply) && reply.info@ == bucket_fixture(req.bucket@),
    {
        Ok(get_bucket::Reply { info: self.make_bucket_info(req.bucket.as_str()) })
    }

    fn put_bucket(&self, req: put_bucket::Params) -> (r: put_bucket::Ret)
        ensures
            r matches Ok(reply) && reply.info@ == bucket_fixture(req.bucket@),
    {
        Ok(put_bucket::Reply { info: self.make_bucket_info(req.bucket.as_str()) })
    }

    fn delete_bucket(&self, req: delete_bucket::Params) -> (r: delete_bucket::Ret)
        ensures
            r matches Ok(reply) && reply.info@ == bucket_fixture(req.bucket@),
    {
        Ok(delete_bucket::Reply { info: self.make_bucket_info(req.bucket.as_str()) })
    }

    fn list_objects(&self, req: list_objects::Params) -> (r: list_objects::Ret)
        ensures
            r matches Ok(reply) && {
                &&& reply.objects@.map_values(|o: ObjectInfo| o@) == canned_upto(req.bucket@, req.prefix@, 3)
                &&& forall|i: int| 0 <= i < reply.objects.len() ==> is_canned_key((#[trigger] reply.objects@[i]).key@)
                &&& !reply.is_truncated
                &&& reply.next_marker@.len() == 0
                &&& reply.common_prefixes@.len() == 0
            },
    {
        let mut objects: Vec<ObjectInfo> = Vec::new();
        let ghost mut nums: Seq<nat> = Seq::empty();
        let mut i: u64 = 1;
        while i < 4
            invariant
                1 <= i <= 4,
                nums.len() == objects.len(),
                forall|a: int|
                    0 <= a < objects.len() ==> {
                        &&& 1 <= #[trigger] nums[a] < i
                        &&& objects@[a].key@ == canned_key(nums[a])
                        &&& objects@[a].bucket@ == req.bucket@
                        &&& req.prefix@.is_prefix_of(objects@[a].key@)
                    },
                forall|a: int, b: int| 0 <= a < b < objects.len() ==> nums[a] < nums[b],
                objects@.map_values(|o: ObjectInfo| o@) == canned_upto(req.bucket@, req.prefix@, (i - 1) as nat),
            decreases 4 - i,
        {
            let digits = u64_text(i);
            let key = join2("object_", digits.as_str());
            let object = self.make_object_info(req.bucket.as_str(), key.as_str());
            let ghost before = objects@;
            if starts_with(object.key.as_str(), req.prefix.as_str()) {
                objects.push(object);
                proof {
                    nums = nums.push(i as nat);
                    assert(objects@.map_values(|o: ObjectInfo| o@) =~= before.map_values(|o: ObjectInfo| o@).push(
                        object@,
                    ));
                }
            }
            i = i + 1;
        }
        proof {
            reveal_strlit("object_");
            assert("object_"@.len() == 7);
            assert forall|m: nat, n: nat| 1 <= m < n < 4 implies #[trigger] canned_key(m) != #[trigger] canned_key(n) by {
                assert(decimal(m) == seq![digit_char(m)]);
                assert(decimal(n) == seq![digit_char(n)]);
                assert(canned_key(m)[7] == decimal(m)[0]);
                assert(canned_key(n)[7] == decimal(n)[0]);
                assert(digit_char(m) != digit_char(n));
            }
            assert forall|a: int, b: int| 0 <= a < b < objects.len() implies objects@[a].key@
                != objects@[b].key@ by {
                assert(canned_key(nums[a]) != canned_key(nums[b]));
            }
            assert forall|a: int| 0 <= a < objects.len() implies {
                &&& is_canned_key((#[trigger] objects@[a]).key@)
                &&& objects@[a].bucket@ == req.bucket@
                &&& req.prefix@.is_prefix_of(objects@[a].key@)
            } by {
                assert(1 <= nums[a] <= 3);
            }
        }
        Ok(list_objects::Reply {
            bucket: req.bucket.clone(),
            prefix: req.prefix.clone(),
            delimiter: req.delimiter.clone(),
            marker: req.marker.clone(),
            max_keys: req.max_keys,
            encoding_type: req.encoding_type.clone(),
            is_truncated: false,
            next_marker: String::new(),
            objects,
            common_prefixes: Vec::new(),
        })
    }

    fn get_object(&self, req: get_object::Params) -> (r: get_object::Ret)
        ensures
            r matches Ok(reply) && reply.object@ == object_fixture(req.bucket@, req.key@, 0),
    {
        let object = self.make_object_info(req.bucket.as_str(), req.key.as_str());
        let body = if req.head_only {
            None
        } else {
            Some(Vec::new())
        };
        Ok(get_object::Reply { object, body })
    }

    fn put_object(&self, req: put_object::Params) -> (r: put_object::Ret)
        ensures
            r matches Ok(reply) && reply.object@ == object_fixture(req.bucket@, req.key@, req.body@.len() as u64),
    {
        let mut object = self.make_object_info(req.bucket.as_str(), req.key.as_str());
        object.size = req.body.len() as u64;
        Ok(put_object::Reply { object })
    }

    fn delete_object(&self, req: delete_object::Params) -> (r: delete_object::Ret)
        ensures
            r matches Ok(reply) && reply.object@ == object_fixture(req.bucket@, req.key@, 0),
    {
        let object = self.make_object_info(req.bucket.as_str(), req.key.as_str());
        Ok(delete_object::Reply { object })
    }
}

} // verus!
