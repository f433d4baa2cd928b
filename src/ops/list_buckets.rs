use vstd::prelude::*;
use vstd::utf8::encode_utf8;
use crate::api::{BucketInfo, BucketView, UserInfo, UserView};
use crate::errors::S3Error;
use crate::http::{HttpRequest, HttpResponse, ResponseView};
use crate::text::{find_char, lemma_find_char_first};
use crate::util::{
    lemma_escaped_has_no_open, lemma_unescape_escape, xml_decl, xml_elem, xml_escape, xml_unescape,
    BodyWriter,
};

verus! {

pub struct Params {}

pub struct Reply {
    pub buckets: Vec<BucketInfo>,
    pub is_truncated: bool,
    pub next_marker: String,
    pub owner: UserInfo,
}

pub type Ret = Result<Reply, S3Error>;

impl Params {
    /// `GET /`.
    pub fn parse(req: &HttpRequest, bucket: &str, key: &str) -> (p: Params) {
        Params {}
    }
}

/// The creation date written for every bucket.
pub open spec fn creation_date() -> Seq<char> {
    "2021-09-19T00:00:00.000Z"@
}

/// `<Bucket><Name>..</Name><CreationDate>..</CreationDate></Bucket>`.
pub open spec fn bucket_xml(name: Seq<char>) -> Seq<char> {
    "<Bucket>"@ + xml_elem("Name"@, name) + xml_elem("CreationDate"@, creation_date()) + "</Bucket>"@
}

/// One `<Bucket>` element for each bucket, in order.
pub open spec fn buckets_xml(buckets: Seq<BucketView>) -> Seq<char>
    decreases buckets.len(),
{
    if buckets.len() == 0 {
        Seq::empty()
    } else {
        buckets_xml(buckets.drop_last()) + bucket_xml(buckets.last().name)
    }
}

pub open spec fn owner_xml(owner: UserView) -> Seq<char> {
    "<Owner>"@ + xml_elem("ID"@, owner.id) + xml_elem("DisplayName"@, owner.display_name) + "</Owner>"@
}

/// The `ListAllMyBucketsResult` document.
pub open spec fn reply_xml(buckets: Seq<BucketView>, owner: UserView) -> Seq<char> {
    xml_decl() + "<ListAllMyBucketsResult>"@ + "<Buckets>"@ + buckets_xml(buckets) + "</Buckets>"@
        + owner_xml(owner) + "</ListAllMyBucketsResult>"@
}

pub open spec fn bucket_views(buckets: Seq<BucketInfo>) -> Seq<BucketView> {
    buckets.map_values(|b: BucketInfo| b@)
}

/// 200 with the XML document as the body and no headers.
pub open spec fn reply_response(buckets: Seq<BucketView>, owner: UserView) -> ResponseView {
    ResponseView { status: 200, headers: Seq::empty(), body: encode_utf8(reply_xml(buckets, owner)) }
}

impl Reply {
    pub fn write(self) -> (r: HttpResponse)
        ensures
            r@ == reply_response(bucket_views(self.buckets@), self.owner@),
    {
        let ghost bv = bucket_views(self.buckets@);
        let mut w = BodyWriter::new_xml();
        w.append("<ListAllMyBucketsResult>");
        w.append("<Buckets>");
        let ghost head = xml_decl() + "<ListAllMyBucketsResult>"@ + "<Buckets>"@;
        let mut i: usize = 0;
        assert(bv.subrange(0, 0) =~= Seq::<BucketView>::empty());
        while i < self.buckets.len()
            invariant
                i <= self.buckets.len(),
                bv == bucket_views(self.buckets@),
                w@ == head + buckets_xml(bv.subrange(0, i as int)),
            decreases self.buckets.len() - i,
        {
            w.append("<Bucket>");
            w.append_xml("Name", self.buckets[i].name.as_str());
            w.append_xml("CreationDate", "2021-09-19T00:00:00.000Z");
            w.append("</Bucket>");
            proof {
                assert(bv.subrange(0, i + 1).drop_last() =~= bv.subrange(0, i as int));
                assert(bv[i as int].name == self.buckets@[i as int].name@);
                assert(w@ =~= head + buckets_xml(bv.subrange(0, i + 1)));
            }
            i = i + 1;
        }
        w.append("</Buckets>");
        w.append("<Owner>");
        w.append_xml("ID", self.owner.id.as_str());
        w.append_xml("DisplayName", self.owner.display_name.as_str());
        w.append("</Owner>");
        w.append("</ListAllMyBucketsResult>");
        proof {
            assert(bv.subrange(0, bv.len() as int) =~= bv);
            assert(w@ =~= reply_xml(bv, self.owner@));
        }
        let r = HttpResponse { status: 200, headers: Vec::new(), body: w.body() };
        assert(r@.headers =~= Seq::<(Seq<char>, Seq<char>)>::empty());
        r
    }
}

pub fn write(ret: Ret) -> (r: HttpResponse)
    ensures
        ret matches Ok(reply) ==> r@ == reply_response(bucket_views(reply.buckets@), reply.owner@),
        ret matches Err(e) ==> r@ == e.response(),
{
    match ret {
        Ok(reply) => reply.write(),
        Err(e) => e.write(),
    }
}

/// What a `<Bucket>` element holds before its name.
pub open spec fn bucket_open() -> Seq<char> {
    "<Bucket>"@ + "<"@ + "Name"@ + ">"@
}

/// What a `<Bucket>` element holds after its name.
pub open spec fn bucket_close() -> Seq<char> {
    "</"@ + "Name"@ + ">"@ + xml_elem("CreationDate"@, creation_date()) + "</Bucket>"@
}

/// Reads `<Bucket>` elements from the front of `s`, each name's text running up to the
/// next `<` and read back from its entities; gives the names read and the text after the
/// last element read.
pub open spec fn read_buckets(s: Seq<char>) -> (Seq<Seq<char>>, Seq<char>)
    decreases s.len(),
{
    let o = bucket_open();
    if o.is_prefix_of(s) {
        let after = s.subrange(o.len() as int, s.len() as int);
        match find_char(after, '<') {
            Some(i) => {
                let at: int = o.len() + i as int;
                let k: int = at + bucket_close().len();
                if 0 < k <= s.len() && s.subrange(at, k) == bucket_close() {
                    let next = read_buckets(s.subrange(k, s.len() as int));
                    (seq![xml_unescape(after.subrange(0, i as int))] + next.0, next.1)
                } else {
                    (Seq::empty(), s)
                }
            },
            None => (Seq::empty(), s),
        }
    } else {
        (Seq::empty(), s)
    }
}

/// The bucket names that a `ListAllMyBucketsResult` document lists, read back by the
/// element names of its schema.
pub open spec fn read_listing_names(doc: Seq<char>) -> Option<Seq<Seq<char>>> {
    let head = xml_decl() + "<ListAllMyBucketsResult>"@ + "<Buckets>"@;
    if head.is_prefix_of(doc) {
        let read = read_buckets(doc.subrange(head.len() as int, doc.len() as int));
        if "</Buckets>"@.is_prefix_of(read.1) {
            Some(read.0)
        } else {
            None
        }
    } else {
        None
    }
}

pub open spec fn names_of(buckets: Seq<BucketView>) -> Seq<Seq<char>> {
    buckets.map_values(|b: BucketView| b.name)
}

proof fn lemma_buckets_xml_front(buckets: Seq<BucketView>)
    requires
        buckets.len() > 0,
    ensures
        buckets_xml(buckets) == bucket_xml(buckets[0].name) + buckets_xml(buckets.drop_first()),
    decreases buckets.len(),
{
    if buckets.len() == 1 {
        assert(buckets.drop_last() =~= Seq::<BucketView>::empty());
        assert(buckets.drop_first() =~= Seq::<BucketView>::empty());
        assert(buckets_xml(buckets) =~= bucket_xml(buckets[0].name) + buckets_xml(buckets.drop_first()));
    } else {
        lemma_buckets_xml_front(buckets.drop_last());
        assert(buckets.drop_last().drop_first() =~= buckets.drop_first().drop_last());
        assert(buckets.drop_last()[0] == buckets[0]);
        assert(buckets.drop_first().last() == buckets.last());
        assert(buckets_xml(buckets) =~= bucket_xml(buckets[0].name) + buckets_xml(buckets.drop_first()));
    }
}

#[verifier::spinoff_prover]
#[verifier::rlimit(60)]
proof fn lemma_read_buckets(buckets: Seq<BucketView>, rest: Seq<char>)
    requires
        !bucket_open().is_prefix_of(rest),
    ensures
        read_buckets(buckets_xml(buckets) + rest) == (names_of(buckets), rest),
    decreases buckets.len(),
{
    reveal_strlit("<Bucket>");
    reveal_strlit("</");
    let s = buckets_xml(buckets) + rest;
    if buckets.len() == 0 {
        assert(s =~= rest);
        assert(names_of(buckets) =~= Seq::<Seq<char>>::empty());
    } else {
        lemma_buckets_xml_front(buckets);
        let name = buckets[0].name;
        let tail = buckets_xml(buckets.drop_first()) + rest;
        let o = bucket_open();
        let c = bucket_close();
        let text = xml_escape(name);
        assert(s =~= o + text + c + tail);
        assert(o.is_prefix_of(s)) by {
            assert(s.subrange(0, o.len() as int) =~= o);
        }
        let after = s.subrange(o.len() as int, s.len() as int);
        assert(after =~= text + c + tail);
        assert(c[0] == '<');
        assert(after[text.len() as int] == '<');
        lemma_escaped_has_no_open(name);
        assert forall|k: int| 0 <= k < text.len() implies after[k] != '<' by {
            assert(after[k] == text[k]);
        }
        lemma_find_char_first(after, '<', text.len() as int);
        lemma_unescape_escape(name);
        let at: int = o.len() + text.len() as int;
        let k: int = at + c.len();
        assert(s.subrange(at as int, k as int) =~= c);
        assert(s.subrange(k as int, s.len() as int) =~= tail);
        assert(after.subrange(0, text.len() as int) =~= text);
        lemma_read_buckets(buckets.drop_first(), rest);
        assert(names_of(buckets) =~= seq![name] + names_of(buckets.drop_first()));
    }
}

/// The bucket listing reads back, by its schema, as exactly the names it was written
/// from, in order, whatever characters they hold.
pub proof fn lemma_listing_reads_back(buckets: Seq<BucketView>, owner: UserView)
    ensures
        read_listing_names(reply_xml(buckets, owner)) == Some(names_of(buckets)),
{
    reveal_strlit("<Bucket>");
    reveal_strlit("</Buckets>");
    let head = xml_decl() + "<ListAllMyBucketsResult>"@ + "<Buckets>"@;
    let rest = "</Buckets>"@ + owner_xml(owner) + "</ListAllMyBucketsResult>"@;
    let doc = reply_xml(buckets, owner);
    assert(doc =~= head + (buckets_xml(buckets) + rest));
    assert(head.is_prefix_of(doc)) by {
        assert(doc.subrange(0, head.len() as int) =~= head);
    }
    assert(doc.subrange(head.len() as int, doc.len() as int) =~= buckets_xml(buckets) + rest);
    assert(!bucket_open().is_prefix_of(rest)) by {
        assert(rest[1] == '/');
        assert(bucket_open()[1] == 'B');
    }
    lemma_read_buckets(buckets, rest);
    assert("</Buckets>"@.is_prefix_of(rest)) by {
        assert(rest.subrange(0, "</Buckets>"@.len() as int) =~= "</Buckets>"@);
    }
}

} // verus!
