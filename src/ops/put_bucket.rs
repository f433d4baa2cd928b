use vstd::prelude::*;
use crate::api::BucketInfo;
use crate::errors::S3Error;
use crate::http::{header_views, HttpRequest, HttpResponse, ResponseView};
use crate::ops::{header, respond, response_or_fault};
use crate::text::{join2, owned};
use crate::util::{query_lookup, query_pairs, QueryStr};

verus! {

pub struct Params {
    pub bucket: String,
    pub class: String,
}

pub struct Reply {
    pub info: BucketInfo,
}

pub type Ret = Result<Reply, S3Error>;

impl Params {
    /// `PUT /{bucket}?bucket-class=...`.
    pub fn parse(req: &HttpRequest, bucket: &str, key: &str) -> (p: Params)
        ensures
            p.bucket@ == bucket@,
            p.class@ == query_lookup(query_pairs(req.query@), "bucket-class"@),
    {
        let qs = QueryStr::new(req.query.clone());
        Params { bucket: owned(bucket), class: qs.get("bucket-class") }
    }
}

/// 200 with `Location: /{bucket}`, and no body.
pub open spec fn reply_response(name: Seq<char>) -> ResponseView {
    response_or_fault(200, seq![("Location"@, "/"@ + name)], Seq::empty())
}

impl Reply {
    pub fn write(self) -> (r: HttpResponse)
        ensures
            r@ == reply_response(self.info.name@),
    {
        let mut headers: Vec<(String, String)> = Vec::new();
        headers.push(header("Location", join2("/", self.info.name.as_str())));
        let body: Vec<u8> = Vec::new();
        proof {
            assert(header_views(headers@) =~= seq![("Location"@, "/"@ + self.info.name@)]);
            assert(body@ =~= Seq::<u8>::empty());
        }
        respond(200, headers, body)
    }
}

pub fn write(ret: Ret) -> (r: HttpResponse)
    ensures
        ret matches Ok(reply) ==> r@ == reply_response(reply.info.name@),
        ret matches Err(e) ==> r@ == e.response(),
{
    match ret {
        Ok(reply) => reply.write(),
        Err(e) => e.write(),
    }
}

} // verus!
