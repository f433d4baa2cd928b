use vstd::prelude::*;
use vstd::utf8::encode_utf8;
use crate::api::{ObjectInfo, ObjectView};
use crate::errors::S3Error;
use crate::http::{HttpRequest, HttpResponse, ResponseView};
use crate::ops::list_buckets::owner_xml;
use crate::text::{bool_text, decimal, i32_text, owned, signed_decimal, u64_text, views};
use crate::util::{int_or_zero, query_lookup, query_pairs, xml_decl, xml_elem, BodyWriter, QueryStr};

verus! {

pub struct Params {
    pub bucket: String,
    pub prefix: String,
    pub delimiter: String,
    pub marker: String,
    pub max_keys: i32,
    pub encoding_type: String,
}

pub struct Reply {
    pub bucket: String,
    pub prefix: String,
    pub delimiter: String,
    pub marker: String,
    pub max_keys: i32,
    pub encoding_type: String,
    pub is_truncated: bool,
    pub next_marker: String,
    pub objects: Vec<ObjectInfo>,
    pub common_prefixes: Vec<String>,
}

pub type Ret = Result<Reply, S3Error>;

/// `p` holds what a listing request asks for.
pub open spec fn parsed(req: HttpRequest, bucket: Seq<char>, key: Seq<char>, p: Params) -> bool {
    &&& p.bucket@ == bucket
    &&& p.prefix@ == query_lookup(query_pairs(req.query@), "prefix"@)
    &&& p.delimiter@ == query_lookup(query_pairs(req.query@), "delimiter"@)
    &&& p.marker@ == query_lookup(query_pairs(req.query@), "marker"@)
    &&& p.max_keys as int == int_or_zero(query_lookup(query_pairs(req.query@), "max-keys"@))
    &&& p.encoding_type@ == query_lookup(query_pairs(req.query@), "encoding-type"@)
}

impl Params {
    /// `GET /{bucket}?prefix=..&delimiter=..&marker=..&max-keys=..&encoding-type=..`;
    /// a missing parameter is empty, and `max-keys` is 0 unless it holds an `i32`.
    pub fn parse(req: &HttpRequest, bucket: &str, key: &str) -> (p: Params)
        ensures
            parsed(*req, bucket@, key@, p),
    {
        let qs = QueryStr::new(req.query.clone());
        Params {
            bucket: owned(bucket),
            prefix: qs.get("prefix"),
            delimiter: qs.get("delimiter"),
            marker: qs.get("marker"),
            max_keys: qs.get_i32("max-keys"),
            encoding_type: qs.get("encoding-type"),
        }
    }
}

/// One `<Contents>` element.
pub open spec fn object_xml(o: ObjectView) -> Seq<char> {
    "<Contents>"@ + xml_elem("Key"@, o.key) + xml_elem("LastModified"@, o.last_modified) + xml_elem(
        "ETag"@,
        o.etag,
    ) + xml_elem("Size"@, decimal(o.size as nat)) + xml_elem("StorageClass"@, o.storage_class)
        + owner_xml(o.owner) + "</Contents>"@
}

fn append_object(w: &mut BodyWriter, o: &ObjectInfo)
    ensures
        final(w)@ == old(w)@ + object_xml(o@),
{
    w.append("<Contents>");
    w.append_xml("Key", o.key.as_str());
    w.append_xml("LastModified", o.last_modified.as_str());
    w.append_xml("ETag", o.etag.as_str());
    let size = u64_text(o.size);
    w.append_xml("Size", size.as_str());
    w.append_xml("StorageClass", o.storage_class.as_str());
    w.append("<Owner>");
    w.append_xml("ID", o.owner.id.as_str());
    w.append_xml("DisplayName", o.owner.display_name.as_str());
    w.append("</Owner>");
    w.append("</Contents>");
    assert(w@ =~= old(w)@ + object_xml(o@));
}

pub open spec fn objects_xml(objects: Seq<ObjectView>) -> Seq<char>
    decreases objects.len(),
{
    if objects.len() == 0 {
        Seq::empty()
    } else {
        objects_xml(objects.drop_last()) + object_xml(objects.last())
    }
}

pub open spec fn prefixes_xml(prefixes: Seq<Seq<char>>) -> Seq<char>
    decreases prefixes.len(),
{
    if prefixes.len() == 0 {
        Seq::empty()
    } else {
        prefixes_xml(prefixes.drop_last()) + "<CommonPrefixes>"@ + xml_elem("Prefix"@, prefixes.last())
            + "</CommonPrefixes>"@
    }
}

pub open spec fn object_views(objects: Seq<ObjectInfo>) -> Seq<ObjectView> {
    objects.map_values(|o: ObjectInfo| o@)
}

impl Reply {
    /// The fields of the listing before its `<Contents>`, in the order of the schema.
    pub open spec fn head_xml(self) -> Seq<char> {
        xml_elem("IsTruncated"@, if self.is_truncated { "true"@ } else { "false"@ }) + xml_elem(
            "Marker"@,
            self.marker@,
        ) + xml_elem("NextMarker"@, self.next_marker@) + xml_elem("Name"@, self.bucket@) + xml_elem(
            "Prefix"@,
            self.prefix@,
        ) + xml_elem("Delimiter"@, self.delimiter@) + xml_elem(
            "MaxKeys"@,
            signed_decimal(self.max_keys as int),
        ) + xml_elem("EncodingType"@, self.encoding_type@)
    }

    /// The `ListBucketResult` document.
    pub open spec fn xml(self) -> Seq<char> {
        xml_decl() + "<ListBucketResult>"@ + self.head_xml() + objects_xml(object_views(self.objects@))
            + prefixes_xml(views(self.common_prefixes@)) + "</ListBucketResult>"@
    }

    /// 200 with the XML document as the body and no headers.
    pub open spec fn response(self) -> ResponseView {
        ResponseView { status: 200, headers: Seq::empty(), body: encode_utf8(self.xml()) }
    }

    pub fn write(self) -> (r: HttpResponse)
        ensures
            r@ == self.response(),
    {
        let ghost ov = object_views(self.objects@);
        let ghost pv = views(self.common_prefixes@);
        let mut w = BodyWriter::new_xml();
        w.append("<ListBucketResult>");
        let truncated = bool_text(self.is_truncated);
        w.append_xml("IsTruncated", truncated.as_str());
        w.append_xml("Marker", self.marker.as_str());
        w.append_xml("NextMarker", self.next_marker.as_str());
        w.append_xml("Name", self.bucket.as_str());
        w.append_xml("Prefix", self.prefix.as_str());
        w.append_xml("Delimiter", self.delimiter.as_str());
        let max_keys = i32_text(self.max_keys);
        w.append_xml("MaxKeys", max_keys.as_str());
        w.append_xml("EncodingType", self.encoding_type.as_str());
        let ghost head = xml_decl() + "<ListBucketResult>"@ + self.head_xml();
        proof {
            assert(w@ =~= head);
            assert(ov.subrange(0, 0) =~= Seq::<ObjectView>::empty());
        }
        let mut i: usize = 0;
        while i < self.objects.len()
            invariant
                i <= self.objects.len(),
                ov == object_views(self.objects@),
                w@ == head + objects_xml(ov.subrange(0, i as int)),
            decreases self.objects.len() - i,
        {
            let o = &self.objects[i];
            append_object(&mut w, o);
            proof {
                assert(ov.subrange(0, i + 1).drop_last() =~= ov.subrange(0, i as int));
                assert(ov[i as int] == o@);
                assert(w@ =~= head + objects_xml(ov.subrange(0, i + 1)));
            }
            i = i + 1;
        }
        let ghost mid = head + objects_xml(ov);
        proof {
            assert(ov.subrange(0, ov.len() as int) =~= ov);
            assert(pv.subrange(0, 0) =~= Seq::<Seq<char>>::empty());
        }
        let mut j: usize = 0;
        while j < self.common_prefixes.len()
            invariant
                j <= self.common_prefixes.len(),
                pv == views(self.common_prefixes@),
                w@ == mid + prefixes_xml(pv.subrange(0, j as int)),
            decreases self.common_prefixes.len() - j,
        {
            w.append("<CommonPrefixes>");
            w.append_xml("Prefix", self.common_prefixes[j].as_str());
            w.append("</CommonPrefixes>");
            proof {
                assert(pv.subrange(0, j + 1).drop_last() =~= pv.subrange(0, j as int));
                assert(pv[j as int] == self.common_prefixes@[j as int]@);
                assert(w@ =~= mid + prefixes_xml(pv.subrange(0, j + 1)));
            }
            j = j + 1;
        }
        w.append("</ListBucketResult>");
        proof {
            assert(pv.subrange(0, pv.len() as int) =~= pv);
            assert(w@ =~= self.xml());
        }
        let r = HttpResponse { status: 200, headers: Vec::new(), body: w.body() };
        assert(r@.headers =~= Seq::<(Seq<char>, Seq<char>)>::empty());
        r
    }
}

pub fn write(ret: Ret) -> (r: HttpResponse)
    ensures
        ret matches Ok(reply) ==> r@ == reply.response(),
        ret matches Err(e) ==> r@ == e.response(),
{
    match ret {
        Ok(reply) => reply.write(),
        Err(e) => e.write(),
    }
}

} // verus!
