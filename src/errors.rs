use vstd::prelude::*;
use vstd::utf8::encode_utf8;
use crate::http::{HttpResponse, ResponseView};
use crate::util::{xml_decl, xml_elem, BodyWriter};

verus! {

/// The closed set of failures that an operation reports.
#[derive(Debug, Clone, Copy, PartialEq, Eq, Structural)]
pub enum S3Error {
    BadRequest,
    BucketAlreadyExists,
    NoSuchBucket,
    NoSuchKey,
    InternalError,
}

/// The HTTP status and the XML error code of one kind of failure.
pub struct S3ErrorInfo {
    pub status_code: u16,
    pub code: String,
}

impl S3Error {
    pub open spec fn status(self) -> u16 {
        match self {
            S3Error::BadRequest => 400,
            S3Error::BucketAlreadyExists => 409,
            S3Error::NoSuchBucket => 404,
            S3Error::NoSuchKey => 404,
            S3Error::InternalError => 500,
        }
    }

    pub open spec fn code(self) -> Seq<char> {
        match self {
            S3Error::BadRequest => "BadRequest"@,
            S3Error::BucketAlreadyExists => "BucketAlreadyExists"@,
            S3Error::NoSuchBucket => "NoSuchBucket"@,
            S3Error::NoSuchKey => "NoSuchKey"@,
            S3Error::InternalError => "InternalError"@,
        }
    }

    /// The response that reports this failure: its status, no headers, and the body
    /// `<Error><Code>...</Code></Error>` after the XML declaration.
    pub open spec fn response(self) -> ResponseView {
        ResponseView {
            status: self.status(),
            headers: Seq::empty(),
            body: encode_utf8(xml_decl() + "<Error>"@ + xml_elem("Code"@, self.code()) + "</Error>"@),
        }
    }

    pub fn info(&self) -> (r: S3ErrorInfo)
        ensures
            r.status_code == self.status(),
            r.code@ == self.code(),
    {
        match self {
            S3Error::BadRequest => S3ErrorInfo { status_code: 400, code: "BadRequest".to_owned() },
            S3Error::BucketAlreadyExists => S3ErrorInfo {
                status_code: 409,
                code: "BucketAlreadyExists".to_owned(),
            },
            S3Error::NoSuchBucket => S3ErrorInfo { status_code: 404, code: "NoSuchBucket".to_owned() },
            S3Error::NoSuchKey => S3ErrorInfo { status_code: 404, code: "NoSuchKey".to_owned() },
            S3Error::InternalError => S3ErrorInfo {
                status_code: 500,
                code: "InternalError".to_owned(),
            },
        }
    }

    pub fn write(self) -> (r: HttpResponse)
        ensures
            r@ == self.response(),
    {
        let mut w = BodyWriter::new_xml();
        let info = self.info();
        w.append("<Error>");
        w.append_xml("Code", info.code.as_str());
        w.append("</Error>");
        let r = HttpResponse { status: info.status_code, headers: Vec::new(), body: w.body() };
        assert(r@.headers =~= Seq::<(Seq<char>, Seq<char>)>::empty());
        r
    }
}

} // verus!
