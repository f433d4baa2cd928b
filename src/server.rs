use vstd::prelude::*;
use crate::api::{answers_listing, answers_read, distinct_names, ApiLayer};
use crate::errors::S3Error;
use crate::http::{HttpRequest, HttpResponse, Method, ResponseView};
use crate::ops::{
    delete_bucket, delete_object, get_bucket, get_object, list_buckets, list_objects, put_bucket,
    put_object,
};
use crate::text::{chars_of, decimal, find_char, lemma_find_char_prefix, string_of_range};

verus! {

/// The nine operations that a request can name.
#[derive(Debug, Clone, Copy, PartialEq, Eq, Structural)]
pub enum Op {
    ListBuckets,
    ListObjects,
    GetBucket,
    GetObject,
    HeadObject,
    PutBucket,
    PutObject,
    DeleteBucket,
    DeleteObject,
}

/// The operation for a method and whether the path names a bucket and a key;
/// `None` for every other combination.
pub open spec fn op_for(method: Method, has_bucket: bool, has_key: bool) -> Option<Op> {
    match (method, has_bucket, has_key) {
        (Method::Get, false, false) => Some(Op::ListBuckets),
        (Method::Get, true, false) => Some(Op::ListObjects),
        (Method::Head, true, false) => Some(Op::GetBucket),
        (Method::Get, true, true) => Some(Op::GetObject),
        (Method::Head, true, true) => Some(Op::HeadObject),
        (Method::Put, true, false) => Some(Op::PutBucket),
        (Method::Put, true, true) => Some(Op::PutObject),
        (Method::Delete, true, false) => Some(Op::DeleteBucket),
        (Method::Delete, true, true) => Some(Op::DeleteObject),
        _ => None,
    }
}

/// The nine rows of the operation table, as (method, names a bucket, names a key).
pub open spec fn listed(method: Method, has_bucket: bool, has_key: bool) -> bool {
    ||| (method == Method::Get && !has_bucket && !has_key)
    ||| (method == Method::Get && has_bucket && !has_key)
    ||| (method == Method::Head && has_bucket && !has_key)
    ||| (method == Method::Get && has_bucket && has_key)
    ||| (method == Method::Head && has_bucket && has_key)
    ||| (method == Method::Put && has_bucket && !has_key)
    ||| (method == Method::Put && has_bucket && has_key)
    ||| (method == Method::Delete && has_bucket && !has_key)
    ||| (method == Method::Delete && has_bucket && has_key)
}

/// Matches a request against the operation table.
pub fn classify(method: Method, has_bucket: bool, has_key: bool) -> (r: Option<Op>)
    ensures
        r == op_for(method, has_bucket, has_key),
{
    match (method, has_bucket, has_key) {
        (Method::Get, false, false) => Some(Op::ListBuckets),
        (Method::Get, true, false) => Some(Op::ListObjects),
        (Method::Head, true, false) => Some(Op::GetBucket),
        (Method::Get, true, true) => Some(Op::GetObject),
        (Method::Head, true, true) => Some(Op::HeadObject),
        (Method::Put, true, false) => Some(Op::PutBucket),
        (Method::Put, true, true) => Some(Op::PutObject),
        (Method::Delete, true, false) => Some(Op::DeleteBucket),
        (Method::Delete, true, true) => Some(Op::DeleteObject),
        _ => None,
    }
}

/// The bucket and key of a path-style path: after the leading `/`, the text before the
/// next `/` and the text after it (either may be empty). `None` when the path does not
/// start with `/`.
pub open spec fn path_parts(path: Seq<char>) -> Option<(Seq<char>, Seq<char>)> {
    if path.len() == 0 || path[0] != '/' {
        None
    } else {
        let rest = path.drop_first();
        match find_char(rest, '/') {
            Some(i) => Some((rest.subrange(0, i as int), rest.subrange(i as int + 1, rest.len() as int))),
            None => Some((rest, Seq::empty())),
        }
    }
}

/// The operation that a request names, if any.
pub open spec fn route(method: Method, path: Seq<char>) -> Option<Op> {
    match path_parts(path) {
        Some((bucket, key)) => op_for(method, bucket.len() > 0, key.len() > 0),
        None => None,
    }
}

/// Splits a path-style path into bucket and key.
pub fn split_path(path: &str) -> (r: Option<(String, String)>)
    ensures
        r matches Some(p) ==> path_parts(path@) == Some((p.0@, p.1@)),
        r is None ==> path_parts(path@) is None,
{
    let v = chars_of(path);
    if v.len() == 0 || v[0] != '/' {
        return None;
    }
    let ghost rest = path@.drop_first();
    let mut i: usize = 1;
    assert(rest.subrange(0, 0) =~= Seq::<char>::empty());
    while i < v.len()
        invariant
            1 <= i <= v.len(),
            v@ == path@,
            path@[0] == '/',
            rest == path@.drop_first(),
            find_char(rest.subrange(0, i - 1), '/') is None,
        decreases v.len() - i,
    {
        proof {
            assert(rest.subrange(0, i as int).drop_last() =~= rest.subrange(0, i - 1));
        }
        if v[i] == '/' {
            let bucket = string_of_range(&v, 1, i);
            let key = string_of_range(&v, i + 1, v.len());
            proof {
                assert(find_char(rest.subrange(0, i as int), '/') == Some((i - 1) as nat));
                lemma_find_char_prefix(rest, '/', i as int);
                assert(bucket@ =~= rest.subrange(0, i - 1));
                assert(key@ =~= rest.subrange(i as int, rest.len() as int));
                assert(path@[0] == '/');
                assert(path_parts(path@) == Some((bucket@, key@)));
            }
            return Some((bucket, key));
        }
        i = i + 1;
    }
    let bucket = string_of_range(&v, 1, v.len());
    proof {
        assert(rest.subrange(0, v.len() - 1) =~= rest);
        assert(bucket@ =~= rest);
    }
    Some((bucket, String::new()))
}

/// A request whose method and path shape are not a row of the operation table names no
/// operation, so `S3Server::handler` answers it with the `BadRequest` response.
pub proof fn lemma_unlisted_requests_rejected(method: Method, path: Seq<char>)
    requires
        path_parts(path) matches Some(p) ==> !listed(method, p.0.len() > 0, p.1.len() > 0),
    ensures
        route(method, path) is None,
{
}

/// Each row of the operation table names an operation, and no other triple does.
pub proof fn lemma_table_is_exact(method: Method, has_bucket: bool, has_key: bool)
    ensures
        (op_for(method, has_bucket, has_key) is Some) == listed(method, has_bucket, has_key),
{
}

/// The statuses that a response to `op` can carry.
pub open spec fn op_statuses(op: Op) -> Set<u16> {
    match op {
        Op::ListBuckets => set![200, 500],
        Op::ListObjects => set![200, 404, 500],
        Op::GetBucket => set![200, 404, 500],
        Op::GetObject => set![200, 404, 500],
        Op::HeadObject => set![200, 404, 500],
        Op::PutBucket => set![200, 409, 500],
        Op::PutObject => set![200, 404, 500],
        Op::DeleteBucket => set![204, 404, 500],
        Op::DeleteObject => set![204, 404, 500],
    }
}

/// `r` answers the request for `op` on `bucket` and `key`: it is the response that the
/// operation's writer gives for a backend reply that meets `ApiLayer`'s contract for the
/// parameters parsed from the request, or the response of one of the errors that the
/// operation may report.
pub open spec fn answers(op: Op, req: HttpRequest, bucket: Seq<char>, key: Seq<char>, r: ResponseView) -> bool {
    let internal = S3Error::InternalError.response();
    match op {
        Op::ListBuckets => r == internal || exists|reply: list_buckets::Reply|
            #[trigger] distinct_names(reply.buckets@) && r == list_buckets::reply_response(
                list_buckets::bucket_views(reply.buckets@),
                reply.owner@,
            ),
        Op::ListObjects => r == internal || r == S3Error::NoSuchBucket.response() || exists|
            p: list_objects::Params,
            reply: list_objects::Reply,
        |
            list_objects::parsed(req, bucket, key, p) && #[trigger] answers_listing(p, reply) && r
                == reply.response(),
        Op::GetBucket => r == internal || r == S3Error::NoSuchBucket.response() || exists|region: Seq<char>|
            r == #[trigger] get_bucket::reply_response(region),
        Op::GetObject | Op::HeadObject => r == internal || r == S3Error::NoSuchBucket.response() || r
            == S3Error::NoSuchKey.response() || exists|p: get_object::Params, reply: get_object::Reply|
            get_object::parsed(req, bucket, key, p) && #[trigger] answers_read(p, reply) && r
                == get_object::reply_response(
                reply.object.last_modified@,
                reply.object.size,
                reply.object.etag@,
                get_object::payload_of(reply.body),
            ),
        Op::PutBucket => r == internal || r == S3Error::BucketAlreadyExists.response() || r
            == put_bucket::reply_response(bucket),
        Op::PutObject => r == internal || r == S3Error::NoSuchBucket.response() || exists|
            etag: Seq<char>,
            version_id: Seq<char>,
        | r == #[trigger] put_object::reply_response(etag, version_id),
        Op::DeleteBucket => r == internal || r == S3Error::NoSuchBucket.response() || r
            == delete_bucket::reply_response(),
        Op::DeleteObject => r == internal || r == S3Error::NoSuchBucket.response() || r
            == S3Error::NoSuchKey.response() || exists|version_id: Seq<char>|
            r == #[trigger] delete_object::reply_response(version_id),
    }
}

/// The response to a routed request answers it (see `answers`).
pub open spec fn answers_route(req: HttpRequest, r: ResponseView) -> bool {
    match (route(req.method, req.path@), path_parts(req.path@)) {
        (Some(op), Some(parts)) => answers(op, req, parts.0, parts.1, r),
        _ => true,
    }
}

/// A read's response: its `Content-Length` header gives the length of its body.
pub open spec fn content_length_is_body(r: ResponseView) -> bool {
    r.headers.len() == 3 && r.headers[1] == ("Content-Length"@, decimal(r.body.len()))
}

/// The protocol front end over a storage backend.
pub struct S3Server<API: ApiLayer> {
    api: API,
}

impl<API: ApiLayer> S3Server<API> {
    pub fn new() -> Self {
        S3Server { api: API::new() }
    }

    /// Answers one request: a request that names no operation gets `BadRequest` without
    /// reaching the backend; any other is parsed, run on the backend and written back.
    pub fn handler(&self, req: HttpRequest) -> (r: HttpResponse)
        ensures
            route(req.method, req.path@) is None ==> r@ == S3Error::BadRequest.response(),
            route(req.method, req.path@) matches Some(op) ==> op_statuses(op).contains(r@.status),
            route(req.method, req.path@) == Some(Op::HeadObject) && r@.status == 200 ==> r@.body.len()
                == 0,
            route(req.method, req.path@) == Some(Op::GetObject) && r@.status == 200 ==> content_length_is_body(r@),
            answers_route(req, r@),
    {
        let parts = split_path(req.path.as_str());
        let (bucket, key) = match parts {
            Some(p) => p,
            None => return S3Error::BadRequest.write(),
        };
        match classify(req.method, !bucket.as_str().is_empty(), !key.as_str().is_empty()) {
            Some(op) => self.dispatch(op, req, bucket.as_str(), key.as_str()),
            None => S3Error::BadRequest.write(),
        }
    }

    /// Runs `op` on the backend and writes its outcome.
    fn dispatch(&self, op: Op, req: HttpRequest, bucket: &str, key: &str) -> (r: HttpResponse)
        requires
            op == Op::HeadObject ==> req.method == Method::Head,
            op == Op::GetObject ==> req.method == Method::Get,
        ensures
            op_statuses(op).contains(r@.status),
            op == Op::HeadObject && r@.status == 200 ==> r@.body.len() == 0,
            op == Op::GetObject && r@.status == 200 ==> content_length_is_body(r@),
            answers(op, req, bucket@, key@, r@),
    {
        match op {
            Op::ListBuckets => {
                let ret = self.api.list_buckets(list_buckets::Params::parse(&req, bucket, key));
                let ghost g = ret;
                let r = list_buckets::write(ret);
                proof {
                    if let Ok(reply) = g {
                        assert(distinct_names(reply.buckets@));
                    }
                }
                r
            },
            Op::ListObjects => {
                let p = list_objects::Params::parse(&req, bucket, key);
                let ghost gp = p;
                let ret = self.api.list_objects(p);
                let ghost g = ret;
                let r = list_objects::write(ret);
                proof {
                    if let Ok(reply) = g {
                        assert(answers_listing(gp, reply));
                    }
                }
                r
            },
            Op::GetBucket => {
                let ret = self.api.get_bucket(get_bucket::Params::parse(&req, bucket, key));
                let ghost g = ret;
                let r = get_bucket::write(ret);
                proof {
                    if let Ok(reply) = g {
                        assert(r@ == get_bucket::reply_response(reply.info.region@));
                    }
                }
                r
            },
            Op::GetObject | Op::HeadObject => {
                let p = get_object::Params::parse(&req, bucket, key);
                let ghost gp = p;
                let ret = self.api.get_object(p);
                let ghost g = ret;
                let r = get_object::write(ret);
                proof {
                    if let Ok(reply) = g {
                        assert(answers_read(gp, reply));
                    }
                }
                r
            },
            Op::PutBucket => put_bucket::write(
                self.api.put_bucket(put_bucket::Params::parse(&req, bucket, key)),
            ),
            Op::PutObject => {
                let ret = self.api.put_object(put_object::Params::parse(req, bucket, key));
                let ghost g = ret;
                let r = put_object::write(ret);
                proof {
                    if let Ok(reply) = g {
                        assert(r@ == put_object::reply_response(reply.object.etag@, reply.object.version_id@));
                    }
                }
                r
            },
            Op::DeleteBucket => delete_bucket::write(
                self.api.delete_bucket(delete_bucket::Params::parse(&req, bucket, key)),
            ),
            Op::DeleteObject => {
                let ret = self.api.delete_object(delete_object::Params::parse(&req, bucket, key));
                let ghost g = ret;
                let r = delete_object::write(ret);
                proof {
                    if let Ok(reply) = g {
                        assert(r@ == delete_object::reply_response(reply.object.version_id@));
                    }
                }
                r
            },
        }
    }
}

} // verus!
