use vstd::prelude::*;
use crate::api::{range_spec, ObjectInfo, ObjectRange};
use crate::errors::S3Error;
use crate::http::{header_lookup, header_views, HttpRequest, HttpResponse, Method, ResponseView};
use crate::ops::{header, respond, response_or_fault};
use crate::text::{decimal, owned, u64_text};
use crate::util::{query_lookup, query_pairs, QueryStr};

verus! {

pub struct Params {
    pub bucket: String,
    pub key: String,
    pub version_id: String,
    /// A `HEAD` request: the reply carries no payload.
    pub head_only: bool,
    pub range: ObjectRange,
}

pub struct Reply {
    pub object: ObjectInfo,
    pub body: Option<Vec<u8>>,
}

pub type Ret = Result<Reply, S3Error>;

/// The range that a request asks for in its `range` header; the whole object without one.
pub open spec fn requested_range(req: HttpRequest, range: ObjectRange) -> bool {
    match header_lookup(header_views(req.headers@), "range"@) {
        Some(v) => match range_spec(v) {
            Some(p) => range.start == p.0 && range.end == p.1,
            None => range.is_whole(),
        },
        None => range.is_whole(),
    }
}

/// `p` holds what a read request asks for: `head_only` exactly for `HEAD`.
pub open spec fn parsed(req: HttpRequest, bucket: Seq<char>, key: Seq<char>, p: Params) -> bool {
    &&& p.bucket@ == bucket
    &&& p.key@ == key
    &&& p.version_id@ == query_lookup(query_pairs(req.query@), "versionId"@)
    &&& p.head_only == (req.method == Method::Head)
    &&& requested_range(req, p.range)
}

impl Params {
    /// `GET /{bucket}/{key}?versionId=...` or `HEAD` of the same, with an optional `Range` header.
    pub fn parse(req: &HttpRequest, bucket: &str, key: &str) -> (p: Params)
        ensures
            parsed(*req, bucket@, key@, p),
    {
        let qs = QueryStr::new(req.query.clone());
        let range = match req.header("range") {
            Some(v) => ObjectRange::parse(v.as_str()),
            None => ObjectRange { start: None, end: None },
        };
        Params {
            bucket: owned(bucket),
            key: owned(key),
            version_id: qs.get("versionId"),
            head_only: req.method == Method::Head,
            range,
        }
    }
}

/// 200 with `Last-Modified`, `Content-Length` (the object's size) and `ETag`; the body is
/// the payload, or empty when there is none.
pub open spec fn reply_response(
    last_modified: Seq<char>,
    size: u64,
    etag: Seq<char>,
    body: Seq<u8>,
) -> ResponseView {
    response_or_fault(
        200,
        seq![
            ("Last-Modified"@, last_modified),
            ("Content-Length"@, decimal(size as nat)),
            ("ETag"@, etag),
        ],
        body,
    )
}

pub open spec fn payload_of(body: Option<Vec<u8>>) -> Seq<u8> {
    match body {
        Some(b) => b@,
        None => Seq::empty(),
    }
}

impl Reply {
    pub fn write(self) -> (r: HttpResponse)
        ensures
            r@ == reply_response(
                self.object.last_modified@,
                self.object.size,
                self.object.etag@,
                payload_of(self.body),
            ),
    {
        let body = match self.body {
            Some(b) => b,
            None => Vec::new(),
        };
        let mut headers: Vec<(String, String)> = Vec::new();
        headers.push(header("Last-Modified", self.object.last_modified));
        headers.push(header("Content-Length", u64_text(self.object.size)));
        headers.push(header("ETag", self.object.etag));
        proof {
            assert(header_views(headers@) =~= seq![
                ("Last-Modified"@, self.object.last_modified@),
                ("Content-Length"@, decimal(self.object.size as nat)),
                ("ETag"@, self.object.etag@),
            ]);
            assert(body@ =~= payload_of(self.body));
        }
        respond(200, headers, body)
    }
}

pub fn write(ret: Ret) -> (r: HttpResponse)
    ensures
        ret matches Ok(reply) ==> r@ == reply_response(
            reply.object.last_modified@,
            reply.object.size,
            reply.object.etag@,
            payload_of(reply.body),
        ),
        ret matches Err(e) ==> r@ == e.response(),
{
    match ret {
        Ok(reply) => reply.write(),
        Err(e) => e.write(),
    }
}

} // verus!
