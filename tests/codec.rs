use s3d::api::{BucketInfo, ObjectInfo, ObjectRange, UserInfo};
use s3d::errors::S3Error;
use s3d::http::{HttpRequest, HttpResponse, Method};
use s3d::ops::{delete_bucket, delete_object, get_bucket, get_object, list_buckets, list_objects, put_bucket, put_object};
use s3d::text::{i32_text, parse_i32, u64_text};
use s3d::util::{BodyWriter, QueryStr};

const DECL: &str = "<?xml version=\"1.0\" encoding=\"UTF-8\"?>";

fn request(method: Method, query: &str, headers: Vec<(&str, &str)>) -> HttpRequest {
    HttpRequest {
        method,
        path: "/b/k".to_string(),
        query: query.to_string(),
        headers: headers.into_iter().map(|(n, v)| (n.to_string(), v.to_string())).collect(),
        body: Vec::new(),
    }
}

fn body_text(r: &HttpResponse) -> String {
    String::from_utf8(r.body.clone()).unwrap()
}

fn header<'a>(r: &'a HttpResponse, name: &str) -> Option<&'a str> {
    r.headers.iter().find(|(n, _)| n == name).map(|(_, v)| v.as_str())
}

fn object(bucket: &str, key: &str, size: u64) -> ObjectInfo {
    ObjectInfo::fixture(bucket, key, size)
}

#[test]
fn error_statuses_and_codes() {
    let cases = [
        (S3Error::BadRequest, 400, "BadRequest"),
        (S3Error::BucketAlreadyExists, 409, "BucketAlreadyExists"),
        (S3Error::NoSuchBucket, 404, "NoSuchBucket"),
        (S3Error::NoSuchKey, 404, "NoSuchKey"),
        (S3Error::InternalError, 500, "InternalError"),
    ];
    for (e, status, code) in cases {
        let info = e.info();
        assert_eq!(info.status_code, status);
        assert_eq!(info.code, code);
        let r = e.write();
        assert_eq!(r.status, status);
        assert!(r.headers.is_empty());
        assert_eq!(body_text(&r), format!("{}<Error><Code>{}</Code></Error>", DECL, code));
    }
}

#[test]
fn body_writer_builds_xml() {
    let mut w = BodyWriter::new_xml();
    w.append("<A>").append_xml("B", "c").append("</A>");
    assert_eq!(w._str(), format!("{}<A><B>c</B></A>", DECL));
    let mut w = BodyWriter::new();
    w.append("é");
    assert_eq!(w.body(), "é".as_bytes().to_vec());
}

#[test]
fn query_lookup_by_exact_key() {
    let qs = QueryStr::new("prefix=ab&max-keys=12&flag&a=b=c&prefix=cd".to_string());
    assert_eq!(qs.get("prefix"), "cd");
    assert_eq!(qs.get("max-keys"), "12");
    assert_eq!(qs.get_i32("max-keys"), 12);
    assert_eq!(qs.get("flag"), "");
    assert_eq!(qs.get("a"), "b");
    assert_eq!(qs.get("missing"), "");
    assert_eq!(qs.get_i32("missing"), 0);
    assert_eq!(qs.get("Prefix"), "");
}

#[test]
fn query_integer_defaults_to_zero() {
    assert_eq!(QueryStr::new("max-keys=abc".to_string()).get_i32("max-keys"), 0);
    assert_eq!(QueryStr::new("max-keys=-5".to_string()).get_i32("max-keys"), -5);
    assert_eq!(QueryStr::new("max-keys=+7".to_string()).get_i32("max-keys"), 7);
    assert_eq!(QueryStr::new("max-keys=2147483648".to_string()).get_i32("max-keys"), 0);
    assert_eq!(QueryStr::new("max-keys=".to_string()).get_i32("max-keys"), 0);
    assert_eq!(QueryStr::new(String::new()).get("prefix"), "");
}

#[test]
fn integer_text_round_trips() {
    assert_eq!(u64_text(0), "0");
    assert_eq!(u64_text(1234), "1234");
    assert_eq!(u64_text(u64::MAX), u64::MAX.to_string());
    assert_eq!(i32_text(-42), "-42");
    assert_eq!(i32_text(i32::MIN), i32::MIN.to_string());
    assert_eq!(parse_i32("-2147483648"), Some(i32::MIN));
    assert_eq!(parse_i32("2147483647"), Some(i32::MAX));
    assert_eq!(parse_i32("-"), None);
    assert_eq!(parse_i32("+"), None);
    assert_eq!(parse_i32("1x"), None);
    assert_eq!(parse_i32("007"), Some(7));
}

#[test]
fn range_header_forms() {
    let r = ObjectRange::parse("bytes=0-99");
    assert_eq!((r.start, r.end), (Some(0), Some(99)));
    let r = ObjectRange::parse("bytes=5-");
    assert_eq!((r.start, r.end), (Some(5), None));
    let r = ObjectRange::parse("bytes=-10");
    assert_eq!((r.start, r.end), (None, Some(10)));
    for bad in ["bytes=9-3", "items=0-1", "bytes=0-1,3-4", "bytes=-", "bytes=a-b", "bytes=0-1-2", ""] {
        let r = ObjectRange::parse(bad);
        assert_eq!((r.start, r.end), (None, None), "{}", bad);
    }
}

#[test]
fn get_object_params_from_request() {
    let req = request(Method::Head, "versionId=v1", vec![("range", "bytes=1-2")]);
    let p = get_object::Params::parse(&req, "b", "k");
    assert_eq!((p.bucket.as_str(), p.key.as_str(), p.version_id.as_str()), ("b", "k", "v1"));
    assert!(p.head_only);
    assert_eq!((p.range.start, p.range.end), (Some(1), Some(2)));
    let req = request(Method::Get, "", vec![]);
    let p = get_object::Params::parse(&req, "b", "k");
    assert!(!p.head_only);
    assert_eq!((p.range.start, p.range.end), (None, None));
    assert_eq!(p.version_id, "");
}

#[test]
fn list_objects_params_from_query() {
    let req = request(Method::Get, "prefix=x&delimiter=/&marker=m&max-keys=5&encoding-type=url", vec![]);
    let p = list_objects::Params::parse(&req, "b", "");
    assert_eq!(p.bucket, "b");
    assert_eq!(p.prefix, "x");
    assert_eq!(p.delimiter, "/");
    assert_eq!(p.marker, "m");
    assert_eq!(p.max_keys, 5);
    assert_eq!(p.encoding_type, "url");
    let p = list_objects::Params::parse(&request(Method::Get, "max-keys=many", vec![]), "b", "");
    assert_eq!(p.max_keys, 0);
    assert_eq!(p.prefix, "");
}

#[test]
fn other_params_from_request() {
    let req = request(Method::Put, "bucket-class=cold", vec![]);
    let p = put_bucket::Params::parse(&req, "b", "");
    assert_eq!((p.bucket.as_str(), p.class.as_str()), ("b", "cold"));
    let p = delete_object::Params::parse(&request(Method::Delete, "versionId=7", vec![]), "b", "k");
    assert_eq!((p.bucket.as_str(), p.key.as_str(), p.version_id.as_str()), ("b", "k", "7"));
    let p = delete_bucket::Params::parse(&request(Method::Delete, "", vec![]), "b", "");
    assert_eq!(p.bucket, "b");
    let p = get_bucket::Params::parse(&request(Method::Head, "", vec![]), "b", "");
    assert_eq!(p.bucket, "b");
    let mut req = request(Method::Put, "", vec![]);
    req.body = vec![1, 2, 3];
    let p = put_object::Params::parse(req, "b", "k");
    assert_eq!(p.body, vec![1, 2, 3]);
}

#[test]
fn list_buckets_document() {
    let reply = list_buckets::Reply {
        buckets: vec![BucketInfo::fixture("a"), BucketInfo::fixture("b")],
        is_truncated: false,
        next_marker: String::new(),
        owner: UserInfo { id: "222".to_string(), display_name: "user222".to_string() },
    };
    let r = reply.write();
    assert_eq!(r.status, 200);
    assert_eq!(
        body_text(&r),
        format!(
            "{}<ListAllMyBucketsResult><Buckets><Bucket><Name>a</Name><CreationDate>2021-09-19T00:00:00.000Z</CreationDate></Bucket><Bucket><Name>b</Name><CreationDate>2021-09-19T00:00:00.000Z</CreationDate></Bucket></Buckets><Owner><ID>222</ID><DisplayName>user222</DisplayName></Owner></ListAllMyBucketsResult>",
            DECL
        )
    );
}

#[test]
fn list_objects_document() {
    let reply = list_objects::Reply {
        bucket: "b".to_string(),
        prefix: "k".to_string(),
        delimiter: "/".to_string(),
        marker: "m".to_string(),
        max_keys: -3,
        encoding_type: String::new(),
        is_truncated: true,
        next_marker: "n".to_string(),
        objects: vec![object("b", "k1", 12)],
        common_prefixes: vec!["k/".to_string()],
    };
    let r = reply.write();
    assert_eq!(r.status, 200);
    assert!(r.headers.is_empty());
    assert_eq!(
        body_text(&r),
        format!(
            "{}<ListBucketResult><IsTruncated>true</IsTruncated><Marker>m</Marker><NextMarker>n</NextMarker><Name>b</Name><Prefix>k</Prefix><Delimiter>/</Delimiter><MaxKeys>-3</MaxKeys><EncodingType></EncodingType><Contents><Key>k1</Key><LastModified>last_modified_b_k1</LastModified><ETag>etag_b_k1</ETag><Size>12</Size><StorageClass>storage_class_b_k1</StorageClass><Owner><ID>user_id_b_k1</ID><DisplayName>user_name_b_k1</DisplayName></Owner></Contents><CommonPrefixes><Prefix>k/</Prefix></CommonPrefixes></ListBucketResult>",
            DECL
        )
    );
}

#[test]
fn get_object_headers_and_body() {
    let r = get_object::Reply { object: object("b", "k", 3), body: Some(vec![7, 8, 9]) }.write();
    assert_eq!(r.status, 200);
    assert_eq!(header(&r, "Content-Length"), Some("3"));
    assert_eq!(header(&r, "ETag"), Some("etag_b_k"));
    assert_eq!(header(&r, "Last-Modified"), Some("last_modified_b_k"));
    assert_eq!(r.body, vec![7, 8, 9]);
    let r = get_object::Reply { object: object("b", "k", 3), body: None }.write();
    assert_eq!(header(&r, "Content-Length"), Some("3"));
    assert!(r.body.is_empty());
}

#[test]
fn unsendable_header_becomes_internal_error() {
    let r = get_object::Reply { object: object("b", "k\n", 0), body: None }.write();
    assert_eq!(r.status, 500);
    assert_eq!(body_text(&r), format!("{}<Error><Code>InternalError</Code></Error>", DECL));
    let r = put_bucket::Reply { info: BucketInfo::fixture("a\u{7f}") }.write();
    assert_eq!(r.status, 500);
    let r = put_object::Reply { object: object("b", "k\tv", 0) }.write();
    assert_eq!(r.status, 200);
}

#[test]
fn write_headers_per_operation() {
    let r = put_bucket::write(Ok(put_bucket::Reply { info: BucketInfo::fixture("b") }));
    assert_eq!((r.status, header(&r, "Location")), (200, Some("/b")));
    let r = get_bucket::write(Ok(get_bucket::Reply { info: BucketInfo::fixture("b") }));
    assert_eq!((r.status, header(&r, "x-amz-bucket-region")), (200, Some("region_b")));
    let r = put_object::write(Ok(put_object::Reply { object: object("b", "k", 1) }));
    assert_eq!(header(&r, "ETag"), Some("etag_b_k"));
    assert_eq!(header(&r, "x-amz-version-id"), Some("version_id_b_k"));
    let r = delete_object::write(Ok(delete_object::Reply { object: object("b", "k", 1) }));
    assert_eq!((r.status, header(&r, "x-amz-version-id")), (204, Some("version_id_b_k")));
    let r = delete_bucket::write(Ok(delete_bucket::Reply { info: BucketInfo::fixture("b") }));
    assert_eq!((r.status, r.headers.len(), r.body.len()), (204, 0, 0));
    let r = delete_bucket::write(Err(S3Error::NoSuchBucket));
    assert_eq!(r.status, 404);
}

#[test]
fn fixtures_name_every_field() {
    let o = object("b", "k", 5);
    assert_eq!(o.version_id, "version_id_b_k");
    assert_eq!(o.storage_class, "storage_class_b_k");
    assert_eq!(o.owner.id, "user_id_b_k");
    assert_eq!(o.owner.display_name, "user_name_b_k");
    assert_eq!(o.size, 5);
    let b = BucketInfo::fixture("b");
    assert_eq!((b.class.as_str(), b.region.as_str()), ("class_b", "region_b"));
    assert_eq!((b.owner.id.as_str(), b.owner.display_name.as_str()), ("user_id_b", "user_name_b"));
    let c = b.clone();
    assert_eq!(c.name, "b");
}

#[test]
fn element_text_is_escaped() {
    let mut w = BodyWriter::new();
    w.append_xml("Key", "a<b>&c");
    assert_eq!(w._str(), "<Key>a&lt;b&gt;&amp;c</Key>");
    let reply = list_buckets::Reply {
        buckets: vec![BucketInfo::fixture("x&y")],
        is_truncated: false,
        next_marker: String::new(),
        owner: UserInfo { id: "<id>".to_string(), display_name: "d".to_string() },
    };
    let body = body_text(&reply.write());
    assert!(body.contains("<Name>x&amp;y</Name>"));
    assert!(body.contains("<ID>&lt;id&gt;</ID>"));
}

#[test]
fn listing_keys_are_escaped() {
    let reply = list_objects::Reply {
        bucket: "b".to_string(),
        prefix: "<".to_string(),
        delimiter: String::new(),
        marker: String::new(),
        max_keys: 0,
        encoding_type: String::new(),
        is_truncated: false,
        next_marker: String::new(),
        objects: vec![object("b", "<k>", 1)],
        common_prefixes: Vec::new(),
    };
    let body = body_text(&reply.write());
    assert!(body.contains("<Prefix>&lt;</Prefix>"));
    assert!(body.contains("<Key>&lt;k&gt;</Key>"));
    assert!(!body.contains("<k>"));
}
