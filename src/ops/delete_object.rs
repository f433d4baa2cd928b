use vstd::prelude::*;
use crate::api::ObjectInfo;
use crate::errors::S3Error;
use crate::http::{header_views, HttpRequest, HttpResponse, ResponseView};
use crate::ops::{header, respond, response_or_fault};
use crate::text::owned;
use crate::util::{query_lookup, query_pairs, QueryStr};

verus! {

pub struct Params {
    pub bucket: String,
    pub key: String,
    pub version_id: String,
}

pub struct Reply {
    pub object: ObjectInfo,
}

pub type Ret = Result<Reply, S3Error>;

impl Params {
    /// `DELETE /{bucket}/{key}?versionId=...`.
    pub fn parse(req: &HttpRequest, bucket: &str, key: &str) -> (p: Params)
        ensures
            p.bucket@ == bucket@,
            p.key@ == key@,
            p.version_id@ == query_lookup(query_pairs(req.query@), "versionId"@),
    {
        let qs = QueryStr::new(req.query.clone());
        Params { bucket: owned(bucket), key: owned(key), version_id: qs.get("versionId") }
    }
}

/// 204 with the deleted object's `x-amz-version-id`, and no body.
pub open spec fn reply_response(version_id: Seq<char>) -> ResponseView {
    response_or_fault(204, seq![("x-amz-version-id"@, version_id)], Seq::empty())
}

impl Reply {
    pub fn write(self) -> (r: HttpResponse)
        ensures
            r@ == reply_response(self.object.version_id@),
    {
        let mut headers: Vec<(String, String)> = Vec::new();
        headers.push(header("x-amz-version-id", self.object.version_id));
        let body: Vec<u8> = Vec::new();
        proof {
            assert(header_views(headers@) =~= seq![("x-amz-version-id"@, self.object.version_id@)]);
            assert(body@ =~= Seq::<u8>::empty());
        }
        respond(204, headers, body)
    }
}

pub fn write(ret: Ret) -> (r: HttpResponse)
    ensures
        ret matches Ok(reply) ==> r@ == reply_response(reply.object.version_id@),
        ret matches Err(e) ==> r@ == e.response(),
{
    match ret {
        Ok(reply) => reply.write(),
        Err(e) => e.write(),
    }
}

} // verus!
