use vstd::prelude::*;
use crate::api::ObjectInfo;
use crate::errors::S3Error;
use crate::http::{header_views, HttpRequest, HttpResponse, ResponseView};
use crate::ops::{header, respond, response_or_fault};
use crate::text::owned;

verus! {

pub struct Params {
    pub bucket: String,
    pub key: String,
    /// The payload, read in full.
    pub body: Vec<u8>,
}

pub struct Reply {
    pub object: ObjectInfo,
}

pub type Ret = Result<Reply, S3Error>;

impl Params {
    /// `PUT /{bucket}/{key}`, with the payload as the body.
    pub fn parse(req: HttpRequest, bucket: &str, key: &str) -> (p: Params)
        ensures
            p.bucket@ == bucket@,
            p.key@ == key@,
            p.body@ == req.body@,
    {
        Params { bucket: owned(bucket), key: owned(key), body: req.body }
    }
}

/// 200 with the object's `ETag` and `x-amz-version-id`, and no body.
pub open spec fn reply_response(etag: Seq<char>, version_id: Seq<char>) -> ResponseView {
    response_or_fault(200, seq![("ETag"@, etag), ("x-amz-version-id"@, version_id)], Seq::empty())
}

impl Reply {
    pub fn write(self) -> (r: HttpResponse)
        ensures
            r@ == reply_response(self.object.etag@, self.object.version_id@),
    {
        let mut headers: Vec<(String, String)> = Vec::new();
        headers.push(header("ETag", self.object.etag));
        headers.push(header("x-amz-version-id", self.object.version_id));
        let body: Vec<u8> = Vec::new();
        proof {
            assert(header_views(headers@) =~= seq![
                ("ETag"@, self.object.etag@),
                ("x-amz-version-id"@, self.object.version_id@),
            ]);
            assert(body@ =~= Seq::<u8>::empty());
        }
        respond(200, headers, body)
    }
}

pub fn write(ret: Ret) -> (r: HttpResponse)
    ensures
        ret matches Ok(reply) ==> r@ == reply_response(reply.object.etag@, reply.object.version_id@),
        ret matches Err(e) ==> r@ == e.response(),
{
    match ret {
        Ok(reply) => reply.write(),
        Err(e) => e.write(),
    }
}

} // verus!
