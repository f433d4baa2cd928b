use vstd::prelude::*;

verus! {

/// The request methods that the dispatcher tells apart; any other method is `Other`.
#[derive(Debug, Clone, Copy, PartialEq, Eq, Structural)]
pub enum Method {
    Get,
    Head,
    Put,
    Delete,
    Other,
}

/// An inbound request, as the transport hands it over: the body is read in full.
pub struct HttpRequest {
    pub method: Method,
    /// The path of the request URI, e.g. `/bucket/key`.
    pub path: String,
    /// The query of the request URI without the `?`, empty when there is none.
    pub query: String,
    /// Header names in lower case, each with its value.
    pub headers: Vec<(String, String)>,
    pub body: Vec<u8>,
}

/// An outbound response.
pub struct HttpResponse {
    pub status: u16,
    pub headers: Vec<(String, String)>,
    pub body: Vec<u8>,
}

pub ghost struct ResponseView {
    pub status: u16,
    pub headers: Seq<(Seq<char>, Seq<char>)>,
    pub body: Seq<u8>,
}

pub open spec fn header_views(h: Seq<(String, String)>) -> Seq<(Seq<char>, Seq<char>)> {
    h.map_values(|p: (String, String)| (p.0@, p.1@))
}

impl View for HttpResponse {
    type V = ResponseView;

    open spec fn view(&self) -> ResponseView {
        ResponseView { status: self.status, headers: header_views(self.headers@), body: self.body@ }
    }
}

/// A character that may stand in a header value: a tab, or any character from the
/// space on except DEL.
pub open spec fn header_char(c: char) -> bool {
    c == '\t' || (c as u32 >= 32 && c as u32 != 127)
}

pub open spec fn valid_header_value(s: Seq<char>) -> bool {
    forall|i: int| 0 <= i < s.len() ==> header_char(#[trigger] s[i])
}

/// Relies on hyper::header::HeaderValue::from_str, which accepts a string exactly when
/// each of its bytes is a tab, or at least 0x20 and not 0x7f (every byte of a non-ASCII
/// character is at least 0x80).
#[verifier::external_body]
fn header_value_accepted(s: &str) -> (r: bool)
    ensures
        r == valid_header_value(s@),
{
    hyper::header::HeaderValue::from_str(s).is_ok()
}

/// Whether every value in `headers` can be sent as a header value.
pub fn headers_sendable(headers: &Vec<(String, String)>) -> (r: bool)
    ensures
        r == forall|i: int| 0 <= i < headers@.len() ==> valid_header_value(#[trigger] headers@[i].1@),
{
    let mut i: usize = 0;
    while i < headers.len()
        invariant
            i <= headers.len(),
            forall|j: int| 0 <= j < i ==> valid_header_value(#[trigger] headers@[j].1@),
        decreases headers.len() - i,
    {
        if !header_value_accepted(headers[i].1.as_str()) {
            return false;
        }
        i = i + 1;
    }
    true
}

/// The value of the first header named `name`, if there is one.
pub open spec fn header_lookup(h: Seq<(Seq<char>, Seq<char>)>, name: Seq<char>) -> Option<Seq<char>>
    decreases h.len(),
{
    if h.len() == 0 {
        None
    } else if h[0].0 == name {
        Some(h[0].1)
    } else {
        header_lookup(h.drop_first(), name)
    }
}

impl HttpRequest {
    /// The value of the first header named `name` (names are compared exactly).
    pub fn header(&self, name: &str) -> (r: Option<String>)
        ensures
            r matches Some(v) ==> header_lookup(header_views(self.headers@), name@) == Some(v@),
            r is None ==> header_lookup(header_views(self.headers@), name@) is None,
    {
        let n = crate::text::owned(name);
        let ghost hv = header_views(self.headers@);
        let mut i: usize = 0;
        assert(hv.subrange(0, hv.len() as int) =~= hv);
        while i < self.headers.len()
            invariant
                i <= self.headers.len(),
                n@ == name@,
                hv == header_views(self.headers@),
                header_lookup(hv, name@) == header_lookup(hv.subrange(i as int, hv.len() as int), name@),
            decreases self.headers.len() - i,
        {
            proof {
                assert(hv.subrange(i as int, hv.len() as int).drop_first() =~= hv.subrange(i + 1, hv.len() as int));
            }
            if self.headers[i].0 == n {
                return Some(self.headers[i].1.clone());
            }
            i = i + 1;
        }
        None
    }
}

} // verus!
