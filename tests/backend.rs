use s3d::api::ApiLayer;
use s3d::errors::S3Error;
use s3d::layers::mem_layer::MemLayer;
use s3d::layers::s3_layer::S3Layer;
use s3d::ops::{delete_bucket, delete_object, get_bucket, get_object, list_buckets, list_objects, put_bucket, put_object};
use s3d::api::ObjectRange;

fn put_bucket_req(b: &str) -> put_bucket::Params {
    put_bucket::Params { bucket: b.to_string(), class: String::new() }
}

fn put_req(b: &str, k: &str, body: &[u8]) -> put_object::Params {
    put_object::Params { bucket: b.to_string(), key: k.to_string(), body: body.to_vec() }
}

fn get_req(b: &str, k: &str, head_only: bool) -> get_object::Params {
    get_object::Params {
        bucket: b.to_string(),
        key: k.to_string(),
        version_id: String::new(),
        head_only,
        range: ObjectRange { start: None, end: None },
    }
}

fn list_req(b: &str, prefix: &str) -> list_objects::Params {
    list_objects::Params {
        bucket: b.to_string(),
        prefix: prefix.to_string(),
        delimiter: String::new(),
        marker: String::new(),
        max_keys: 0,
        encoding_type: String::new(),
    }
}

#[test]
fn mem_put_bucket_twice() {
    let m = MemLayer::new();
    let r = m.put_bucket(put_bucket_req("b")).unwrap();
    assert_eq!(r.info.name, "b");
    assert_eq!(r.info.region, "region_b");
    assert!(matches!(m.put_bucket(put_bucket_req("b")), Err(S3Error::BucketAlreadyExists)));
    let l = m.list_buckets(list_buckets::Params {}).unwrap();
    assert_eq!(l.buckets.len(), 1);
    assert_eq!(m.get_bucket(get_bucket::Params { bucket: "b".to_string() }).unwrap().info.class, "class_b");
}

#[test]
fn mem_put_get_payload() {
    let m = MemLayer::new();
    m.put_bucket(put_bucket_req("b")).unwrap();
    let p = m.put_object(put_req("b", "k", b"payload")).unwrap();
    assert_eq!(p.object.size, 7);
    let g = m.get_object(get_req("b", "k", false)).unwrap();
    assert_eq!(g.body, Some(b"payload".to_vec()));
    assert_eq!(g.object.size, 7);
    assert_eq!(g.object.etag, "etag_b_k");
    let h = m.get_object(get_req("b", "k", true)).unwrap();
    assert!(h.body.is_none());
    assert_eq!(h.object.size, 7);
}

#[test]
fn mem_delete_bucket_then_get() {
    let m = MemLayer::new();
    m.put_bucket(put_bucket_req("b")).unwrap();
    m.put_object(put_req("b", "k", b"x")).unwrap();
    let d = m.delete_bucket(delete_bucket::Params { bucket: "b".to_string() }).unwrap();
    assert_eq!(d.info.name, "b");
    assert!(matches!(m.get_object(get_req("b", "k", false)), Err(S3Error::NoSuchBucket)));
    assert!(matches!(m.get_bucket(get_bucket::Params { bucket: "b".to_string() }), Err(S3Error::NoSuchBucket)));
    assert!(matches!(m.delete_bucket(delete_bucket::Params { bucket: "b".to_string() }), Err(S3Error::NoSuchBucket)));
    assert!(matches!(m.list_objects(list_req("b", "")), Err(S3Error::NoSuchBucket)));
}

#[test]
fn mem_delete_object_twice() {
    let m = MemLayer::new();
    m.put_bucket(put_bucket_req("b")).unwrap();
    m.put_object(put_req("b", "k", b"x")).unwrap();
    let req = || delete_object::Params { bucket: "b".to_string(), key: "k".to_string(), version_id: String::new() };
    let d = m.delete_object(req()).unwrap();
    assert_eq!((d.object.key.as_str(), d.object.size), ("k", 1));
    assert!(matches!(m.delete_object(req()), Err(S3Error::NoSuchKey)));
    assert!(matches!(m.get_object(get_req("b", "k", false)), Err(S3Error::NoSuchKey)));
}

#[test]
fn mem_list_prefix_exact() {
    let m = MemLayer::new();
    m.put_bucket(put_bucket_req("b")).unwrap();
    m.put_bucket(put_bucket_req("o")).unwrap();
    for k in ["xa", "xb", "a", "x"] {
        m.put_object(put_req("b", k, k.as_bytes())).unwrap();
    }
    m.put_object(put_req("o", "xo", b"")).unwrap();
    m.put_object(put_req("b", "xa", b"twice")).unwrap();
    let l = m.list_objects(list_req("b", "x")).unwrap();
    let mut keys: Vec<String> = l.objects.iter().map(|o| o.key.clone()).collect();
    keys.sort();
    assert_eq!(keys, vec!["x", "xa", "xb"]);
    assert!(l.objects.iter().all(|o| o.bucket == "b"));
    assert_eq!(l.objects.iter().find(|o| o.key == "xa").unwrap().size, 5);
    assert!(l.common_prefixes.is_empty());
    assert_eq!(m.list_objects(list_req("b", "")).unwrap().objects.len(), 4);
    assert_eq!(m.list_objects(list_req("b", "zz")).unwrap().objects.len(), 0);
}

#[test]
fn canned_backend_outcomes() {
    let s = S3Layer::new();
    let l = s.list_objects(list_req("b", "object_")).unwrap();
    let keys: Vec<&str> = l.objects.iter().map(|o| o.key.as_str()).collect();
    assert_eq!(keys, vec!["object_1", "object_2", "object_3"]);
    assert_eq!(s.list_objects(list_req("b", "x")).unwrap().objects.len(), 0);
    assert!(s.get_object(get_req("b", "k", true)).unwrap().body.is_none());
    assert_eq!(s.get_object(get_req("b", "k", false)).unwrap().body, Some(Vec::new()));
    assert_eq!(s.put_object(put_req("b", "k", b"abcd")).unwrap().object.size, 4);
    assert!(s.list_buckets(list_buckets::Params {}).unwrap().buckets.is_empty());
    assert_eq!(s.make_object_info("b", "k").etag, "etag_b_k");
    assert_eq!(s.make_bucket_info("b").owner.id, "user_id_b");
}

#[test]
fn canned_listing_exact() {
    let s = S3Layer::new();
    let l = s.list_objects(list_req("b", "object_2")).unwrap();
    assert_eq!(l.objects.len(), 1);
    assert_eq!(l.objects[0].key, "object_2");
    assert_eq!(l.objects[0].etag, "etag_b_object_2");
    assert_eq!(l.objects[0].size, 0);
    assert!(!l.is_truncated && l.next_marker.is_empty() && l.common_prefixes.is_empty());
    assert_eq!(s.list_objects(list_req("b", "z")).unwrap().objects.len(), 0);
}

#[test]
fn mem_listing_flags_and_recreated_bucket() {
    let m = MemLayer::new();
    assert!(m.list_buckets(list_buckets::Params {}).unwrap().buckets.is_empty());
    m.put_bucket(put_bucket_req("b")).unwrap();
    m.put_object(put_req("b", "k", b"p")).unwrap();
    m.delete_bucket(delete_bucket::Params { bucket: "b".to_string() }).unwrap();
    m.put_bucket(put_bucket_req("b")).unwrap();
    let l = m.list_objects(list_req("b", "")).unwrap();
    assert!(l.objects.is_empty());
    assert!(!l.is_truncated && l.next_marker.is_empty() && l.common_prefixes.is_empty());
}
