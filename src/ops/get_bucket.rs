use vstd::prelude::*;
use crate::api::BucketInfo;
use crate::errors::S3Error;
use crate::http::{HttpRequest, HttpResponse, ResponseView};
use crate::ops::{header, respond, response_or_fault};
use crate::text::owned;

verus! {

pub struct Params {
    pub bucket: String,
}

pub struct Reply {
    pub info: BucketInfo,
}

pub type Ret = Result<Reply, S3Error>;

impl Params {
    /// `HEAD /{bucket}`.
    pub fn parse(req: &HttpRequest, bucket: &str, key: &str) -> (p: Params)
        ensures
            p.bucket@ == bucket@,
    {
        Params { bucket: owned(bucket) }
    }
}

/// 200 with the bucket's region in `x-amz-bucket-region`, and no body.
pub open spec fn reply_response(region: Seq<char>) -> ResponseView {
    response_or_fault(200, seq![("x-amz-bucket-region"@, region)], Seq::empty())
}

impl Reply {
    pub fn write(self) -> (r: HttpResponse)
        ensures
            r@ == reply_response(self.info.region@),
    {
        let mut headers: Vec<(String, String)> = Vec::new();
        headers.push(header("x-amz-bucket-region", self.info.region));
        let body: Vec<u8> = Vec::new();
        proof {
            assert(crate::http::header_views(headers@) =~= seq![("x-amz-bucket-region"@, self.info.region@)]);
            assert(body@ =~= Seq::<u8>::empty());
        }
        respond(200, headers, body)
    }
}

pub fn write(ret: Ret) -> (r: HttpResponse)
    ensures
        ret matches Ok(reply) ==> r@ == reply_response(reply.info.region@),
        ret matches Err(e) ==> r@ == e.response(),
{
    match ret {
        Ok(reply) => reply.write(),
        Err(e) => e.write(),
    }
}

} // verus!
