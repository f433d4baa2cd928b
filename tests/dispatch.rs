use s3d::http::{HttpRequest, HttpResponse, Method};
use s3d::layers::mem_layer::MemLayer;
use s3d::layers::s3_layer::S3Layer;
use s3d::server::{classify, split_path, Op, S3Server};

const DECL: &str = "<?xml version=\"1.0\" encoding=\"UTF-8\"?>";

fn req(method: Method, path: &str, query: &str, body: &[u8]) -> HttpRequest {
    HttpRequest {
        method,
        path: path.to_string(),
        query: query.to_string(),
        headers: Vec::new(),
        body: body.to_vec(),
    }
}

fn text(r: &HttpResponse) -> String {
    String::from_utf8(r.body.clone()).unwrap()
}

fn header<'a>(r: &'a HttpResponse, name: &str) -> Option<&'a str> {
    r.headers.iter().find(|(n, _)| n == name).map(|(_, v)| v.as_str())
}

fn error_body(code: &str) -> String {
    format!("{}<Error><Code>{}</Code></Error>", DECL, code)
}

#[test]
fn table_has_nine_rows() {
    let rows = [
        (Method::Get, false, false, Op::ListBuckets),
        (Method::Get, true, false, Op::ListObjects),
        (Method::Head, true, false, Op::GetBucket),
        (Method::Get, true, true, Op::GetObject),
        (Method::Head, true, true, Op::HeadObject),
        (Method::Put, true, false, Op::PutBucket),
        (Method::Put, true, true, Op::PutObject),
        (Method::Delete, true, false, Op::DeleteBucket),
        (Method::Delete, true, true, Op::DeleteObject),
    ];
    let mut matched = 0;
    for m in [Method::Get, Method::Head, Method::Put, Method::Delete, Method::Other] {
        for b in [false, true] {
            for k in [false, true] {
                let expected = rows.iter().find(|r| r.0 == m && r.1 == b && r.2 == k).map(|r| r.3);
                assert_eq!(classify(m, b, k), expected);
                if expected.is_some() {
                    matched += 1;
                }
            }
        }
    }
    assert_eq!(matched, 9);
}

#[test]
fn path_style_split() {
    assert_eq!(split_path("/"), Some((String::new(), String::new())));
    assert_eq!(split_path("/b"), Some(("b".to_string(), String::new())));
    assert_eq!(split_path("/b/"), Some(("b".to_string(), String::new())));
    assert_eq!(split_path("/b/k/x"), Some(("b".to_string(), "k/x".to_string())));
    assert_eq!(split_path("//k"), Some((String::new(), "k".to_string())));
    assert_eq!(split_path("b/k"), None);
    assert_eq!(split_path(""), None);
}

#[test]
fn unlisted_requests_get_bad_request() {
    let server: S3Server<MemLayer> = S3Server::new();
    let cases = [
        (Method::Other, "/b/k"),
        (Method::Other, "/"),
        (Method::Head, "/"),
        (Method::Put, "/"),
        (Method::Delete, "/"),
        (Method::Get, "//k"),
        (Method::Put, "//k"),
        (Method::Get, "no-slash"),
    ];
    for (m, p) in cases {
        let r = server.handler(req(m, p, "", b""));
        assert_eq!(r.status, 400, "{:?} {}", m, p);
        assert_eq!(text(&r), error_body("BadRequest"));
    }
    let r = server.handler(req(Method::Get, "/", "", b""));
    assert!(!text(&r).contains("<Name>"));
}

#[test]
fn put_bucket_twice_conflicts() {
    let server: S3Server<MemLayer> = S3Server::new();
    let r = server.handler(req(Method::Put, "/b", "", b""));
    assert_eq!((r.status, header(&r, "Location")), (200, Some("/b")));
    let r = server.handler(req(Method::Put, "/b", "", b""));
    assert_eq!(r.status, 409);
    assert_eq!(text(&r), error_body("BucketAlreadyExists"));
    let r = server.handler(req(Method::Get, "/", "", b""));
    assert_eq!(text(&r).matches("<Name>b</Name>").count(), 1);
}

#[test]
fn put_then_get_object() {
    let server: S3Server<MemLayer> = S3Server::new();
    server.handler(req(Method::Put, "/b", "", b""));
    let r = server.handler(req(Method::Put, "/b/dir/k", "", b"hello"));
    assert_eq!(r.status, 200);
    assert_eq!(header(&r, "ETag"), Some("etag_b_dir/k"));
    let r = server.handler(req(Method::Get, "/b/dir/k", "", b""));
    assert_eq!(r.status, 200);
    assert_eq!(r.body, b"hello".to_vec());
    assert_eq!(header(&r, "Content-Length"), Some("5"));
    let r = server.handler(req(Method::Head, "/b/dir/k", "", b""));
    assert_eq!(r.status, 200);
    assert!(r.body.is_empty());
    assert_eq!(header(&r, "Content-Length"), Some("5"));
    let r = server.handler(req(Method::Put, "/b/dir/k", "", b""));
    assert_eq!(r.status, 200);
    let r = server.handler(req(Method::Get, "/b/dir/k", "", b""));
    assert_eq!(header(&r, "Content-Length"), Some("0"));
    assert!(r.body.is_empty());
}

#[test]
fn missing_bucket_and_key() {
    let server: S3Server<MemLayer> = S3Server::new();
    let r = server.handler(req(Method::Get, "/nb/k", "", b""));
    assert_eq!((r.status, text(&r)), (404, error_body("NoSuchBucket")));
    let r = server.handler(req(Method::Put, "/nb/k", "", b"x"));
    assert_eq!((r.status, text(&r)), (404, error_body("NoSuchBucket")));
    let r = server.handler(req(Method::Head, "/nb", "", b""));
    assert_eq!(r.status, 404);
    server.handler(req(Method::Put, "/b", "", b""));
    let r = server.handler(req(Method::Get, "/b/none", "", b""));
    assert_eq!((r.status, text(&r)), (404, error_body("NoSuchKey")));
    let r = server.handler(req(Method::Delete, "/b/none", "", b""));
    assert_eq!((r.status, text(&r)), (404, error_body("NoSuchKey")));
    let r = server.handler(req(Method::Delete, "/nb", "", b""));
    assert_eq!((r.status, text(&r)), (404, error_body("NoSuchBucket")));
}

#[test]
fn delete_bucket_drops_objects() {
    let server: S3Server<MemLayer> = S3Server::new();
    server.handler(req(Method::Put, "/b", "", b""));
    server.handler(req(Method::Put, "/b/k", "", b"data"));
    let r = server.handler(req(Method::Delete, "/b", "", b""));
    assert_eq!((r.status, r.body.len()), (204, 0));
    let r = server.handler(req(Method::Get, "/b/k", "", b""));
    assert_eq!((r.status, text(&r)), (404, error_body("NoSuchBucket")));
    server.handler(req(Method::Put, "/b", "", b""));
    let r = server.handler(req(Method::Get, "/b/k", "", b""));
    assert_eq!((r.status, text(&r)), (404, error_body("NoSuchKey")));
}

#[test]
fn delete_object_then_read() {
    let server: S3Server<MemLayer> = S3Server::new();
    server.handler(req(Method::Put, "/b", "", b""));
    server.handler(req(Method::Put, "/b/k", "", b"data"));
    let r = server.handler(req(Method::Delete, "/b/k", "versionId=1", b""));
    assert_eq!((r.status, header(&r, "x-amz-version-id")), (204, Some("version_id_b_k")));
    let r = server.handler(req(Method::Get, "/b/k", "", b""));
    assert_eq!(r.status, 404);
    let r = server.handler(req(Method::Delete, "/b/k", "", b""));
    assert_eq!(r.status, 404);
}

#[test]
fn list_objects_by_prefix() {
    let server: S3Server<MemLayer> = S3Server::new();
    server.handler(req(Method::Put, "/b", "", b""));
    server.handler(req(Method::Put, "/c", "", b""));
    for k in ["x1", "y", "x2", "xx"] {
        server.handler(req(Method::Put, &format!("/b/{}", k), "", k.as_bytes()));
    }
    server.handler(req(Method::Put, "/c/x3", "", b"z"));
    server.handler(req(Method::Put, "/b/x1", "", b"again"));
    let r = server.handler(req(Method::Get, "/b", "prefix=x&max-keys=10", b""));
    assert_eq!(r.status, 200);
    let body = text(&r);
    for k in ["x1", "x2", "xx"] {
        assert_eq!(body.matches(&format!("<Key>{}</Key>", k)).count(), 1, "{}", k);
    }
    assert!(!body.contains("<Key>y</Key>"));
    assert!(!body.contains("<Key>x3</Key>"));
    assert!(body.contains("<Size>5</Size>"));
    assert!(body.contains("<MaxKeys>10</MaxKeys>"));
    assert!(body.contains("<Prefix>x</Prefix>"));
    let r = server.handler(req(Method::Get, "/b", "", b""));
    assert_eq!(text(&r).matches("<Contents>").count(), 4);
    let r = server.handler(req(Method::Get, "/nb", "", b""));
    assert_eq!(r.status, 404);
}

#[test]
fn head_bucket_region() {
    let server: S3Server<MemLayer> = S3Server::new();
    server.handler(req(Method::Put, "/b", "bucket-class=x", b""));
    let r = server.handler(req(Method::Head, "/b", "", b""));
    assert_eq!((r.status, header(&r, "x-amz-bucket-region")), (200, Some("region_b")));
}

#[test]
fn list_buckets_after_changes() {
    let server: S3Server<MemLayer> = S3Server::new();
    for b in ["a", "b", "c"] {
        server.handler(req(Method::Put, &format!("/{}", b), "", b""));
    }
    server.handler(req(Method::Delete, "/b", "", b""));
    let r = server.handler(req(Method::Get, "/", "", b""));
    assert_eq!(r.status, 200);
    let body = text(&r);
    assert!(body.starts_with(DECL));
    let names: Vec<&str> = body.split("<Name>").skip(1).map(|s| s.split("</Name>").next().unwrap()).collect();
    let mut sorted = names.clone();
    sorted.sort();
    assert_eq!(sorted, vec!["a", "c"]);
    assert!(body.contains("<Owner><ID>222</ID><DisplayName>user222</DisplayName></Owner>"));
}

#[test]
fn canned_backend_through_server() {
    let server: S3Server<S3Layer> = S3Server::new();
    let r = server.handler(req(Method::Get, "/any", "prefix=object_2", b""));
    let body = text(&r);
    assert_eq!(body.matches("<Contents>").count(), 1);
    assert!(body.contains("<Key>object_2</Key>"));
    let r = server.handler(req(Method::Get, "/any/k", "", b""));
    assert_eq!((r.status, header(&r, "Content-Length")), (200, Some("0")));
    let r = server.handler(req(Method::Put, "/any/k", "", b"abc"));
    assert_eq!(r.status, 200);
    let r = server.handler(req(Method::Put, "/any", "", b""));
    assert_eq!(r.status, 200);
    let r = server.handler(req(Method::Put, "/any", "", b""));
    assert_eq!(r.status, 200);
}

#[test]
fn found_bucket_cannot_be_created_again() {
    let server: S3Server<MemLayer> = S3Server::new();
    server.handler(req(Method::Put, "/b", "", b""));
    let r = server.handler(req(Method::Head, "/b", "", b""));
    assert_eq!(r.status, 200);
    assert!(r.body.is_empty());
    let r = server.handler(req(Method::Put, "/b", "", b""));
    assert_eq!((r.status, text(&r)), (409, error_body("BucketAlreadyExists")));
}

#[test]
fn many_distinct_puts_all_kept() {
    let server: S3Server<MemLayer> = S3Server::new();
    server.handler(req(Method::Put, "/a", "", b""));
    server.handler(req(Method::Put, "/b", "", b""));
    for i in 0..100 {
        let bucket = if i % 3 == 0 { "a" } else { "b" };
        let r = server.handler(req(Method::Put, &format!("/{}/k{}", bucket, i), "", format!("v{}", i).as_bytes()));
        assert_eq!(r.status, 200);
    }
    for i in 0..100 {
        let bucket = if i % 3 == 0 { "a" } else { "b" };
        let r = server.handler(req(Method::Get, &format!("/{}/k{}", bucket, i), "", b""));
        assert_eq!(r.body, format!("v{}", i).into_bytes());
    }
    let r = server.handler(req(Method::Get, "/a", "", b""));
    assert_eq!(text(&r).matches("<Contents>").count(), 34);
}

#[test]
fn range_header_is_read_but_whole_object_served() {
    let server: S3Server<MemLayer> = S3Server::new();
    server.handler(req(Method::Put, "/b", "", b""));
    server.handler(req(Method::Put, "/b/k", "", b"0123456789"));
    let mut q = req(Method::Get, "/b/k", "", b"");
    q.headers.push(("range".to_string(), "bytes=2-4".to_string()));
    let r = server.handler(q);
    assert_eq!((r.status, r.body.len()), (200, 10));
}

#[test]
fn fresh_server_lists_no_bucket() {
    let server: S3Server<MemLayer> = S3Server::new();
    let r = server.handler(req(Method::Other, "/b/k", "", b""));
    assert_eq!((r.status, text(&r)), (400, error_body("BadRequest")));
    let r = server.handler(req(Method::Get, "/", "", b""));
    assert_eq!(r.status, 200);
    assert!(!text(&r).contains("<Bucket>"));
    let r = server.handler(req(Method::Head, "/b", "", b""));
    assert_eq!((r.status, text(&r)), (404, error_body("NoSuchBucket")));
}

#[test]
fn odd_bucket_names_list_escaped() {
    let server: S3Server<MemLayer> = S3Server::new();
    server.handler(req(Method::Put, "/a&b", "", b""));
    let r = server.handler(req(Method::Get, "/", "", b""));
    assert!(text(&r).contains("<Name>a&amp;b</Name>"));
}
