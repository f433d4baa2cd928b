use vstd::prelude::*;
use crate::errors::S3Error;
use crate::http::{header_views, headers_sendable, valid_header_value, HttpResponse, ResponseView};

pub mod delete_bucket;
pub mod delete_object;
pub mod get_bucket;
pub mod get_object;
pub mod list_buckets;
pub mod list_objects;
pub mod put_bucket;
pub mod put_object;

verus! {

/// The response with `status`, `headers` and `body`, when every header value can be sent;
/// otherwise the internal-error response.
pub open spec fn response_or_fault(
    status: u16,
    headers: Seq<(Seq<char>, Seq<char>)>,
    body: Seq<u8>,
) -> ResponseView {
    if forall|i: int| 0 <= i < headers.len() ==> valid_header_value(#[trigger] headers[i].1) {
        ResponseView { status, headers, body }
    } else {
        S3Error::InternalError.response()
    }
}

/// Assembles a response, turning a header value that cannot be sent into an internal error.
pub fn respond(status: u16, headers: Vec<(String, String)>, body: Vec<u8>) -> (r: HttpResponse)
    ensures
        r@ == response_or_fault(status, header_views(headers@), body@),
{
    let ghost hv = header_views(headers@);
    if headers_sendable(&headers) {
        proof {
            assert forall|i: int| 0 <= i < hv.len() implies valid_header_value(#[trigger] hv[i].1) by {
                assert(hv[i].1 == headers@[i].1@);
            }
        }
        HttpResponse { status, headers, body }
    } else {
        proof {
            let i = choose|i: int| 0 <= i < headers@.len() && !valid_header_value(#[trigger] headers@[i].1@);
            assert(hv[i].1 == headers@[i].1@);
        }
        S3Error::InternalError.write()
    }
}

/// One header, as a pair of strings.
pub fn header(name: &str, value: String) -> (r: (String, String))
    ensures
        r.0@ == name@,
        r.1@ == value@,
{
    (name.to_owned(), value)
}

} // verus!
