use vstd::prelude::*;
use crate::api::BucketInfo;
use crate::errors::S3Error;
use crate::http::{HttpRequest, HttpResponse, ResponseView};
use crate::text::owned;

verus! {

pub struct Params {
    pub bucket: String,
}

pub struct Reply {
    pub info: BucketInfo,
}

pub type Ret = Result<Reply, S3Error>;

impl Params {
    /// `DELETE /{bucket}`.
    pub fn parse(req: &HttpRequest, bucket: &str, key: &str) -> (p: Params)
        ensures
            p.bucket@ == bucket@,
    {
        Params { bucket: owned(bucket) }
    }
}

/// 204, with no headers and no body.
pub open spec fn reply_response() -> ResponseView {
    ResponseView { status: 204, headers: Seq::empty(), body: Seq::empty() }
}

impl Reply {
    pub fn write(self) -> (r: HttpResponse)
        ensures
            r@ == reply_response(),
    {
        let r = HttpResponse { status: 204, headers: Vec::new(), body: Vec::new() };
        assert(r@.headers =~= Seq::<(Seq<char>, Seq<char>)>::empty());
        r
    }
}

pub fn write(ret: Ret) -> (r: HttpResponse)
    ensures
        ret is Ok ==> r@ == reply_response(),
        ret matches Err(e) ==> r@ == e.response(),
{
    match ret {
        Ok(reply) => reply.write(),
        Err(e) => e.write(),
    }
}

} // verus!
