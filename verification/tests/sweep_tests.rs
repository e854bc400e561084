use crab_share::codec;
use crab_share::errors::CoreError;
use crab_share::keys::{key_expiry, make_object_key};
use crab_share::storage::parse_upload_session;
use crab_share::sweep::{select_expired, SweepListing};

const NOW: u64 = 1_700_000_000_000;

fn listing_page(keys: &[&str], token: Option<&str>) -> String {
    let mut body = String::from(
        r#"<?xml version="1.0" encoding="UTF-8"?>
<ListBucketResult xmlns="http://s3.amazonaws.com/doc/2006-03-01/">
    <Name>test</Name>
    <Prefix></Prefix>
    <KeyCount>1</KeyCount>
    <MaxKeys>1000</MaxKeys>
    <IsTruncated>false</IsTruncated>
"#,
    );
    for key in keys {
        body.push_str("    <Contents>\n");
        body.push_str(&format!("        <Key>{key}</Key>\n"));
        body.push_str("        <LastModified>2020-12-01T20:43:11.794Z</LastModified>\n");
        body.push_str("        <ETag>\"bfd537a51d15208163231b0711e0b1f3\"</ETag>\n");
        body.push_str("        <Size>4274</Size>\n");
        body.push_str("        <StorageClass>STANDARD</StorageClass>\n");
        body.push_str("    </Contents>\n");
    }
    if let Some(t) = token {
        body.push_str(&format!("    <NextContinuationToken>{t}</NextContinuationToken>\n"));
    }
    body.push_str("</ListBucketResult>\n");
    body
}

#[test]
fn three_pages_merge_before_any_decision() {
    // Continuation tokens A -> B -> C -> none: all three pages' keys are
    // gathered, in order, before anything is decided.
    let mut listing = SweepListing::new();
    let t1 = listing.ingest_page(&listing_page(&["k1", "k2"], Some("A"))).unwrap();
    assert_eq!(t1.as_deref(), Some("A"));
    let t2 = listing.ingest_page(&listing_page(&["k3"], Some("B"))).unwrap();
    assert_eq!(t2.as_deref(), Some("B"));
    let t3 = listing.ingest_page(&listing_page(&["k4", "k5"], None)).unwrap();
    assert_eq!(t3, None);
    assert_eq!(listing.keys, vec!["k1", "k2", "k3", "k4", "k5"]);
}

#[test]
fn expired_deleted_future_retained() {
    // One second past its expiry: deleted. One second before it: kept.
    let past = make_object_key(&codec::encode(NOW - 1000, 1), "old.txt");
    let future = make_object_key(&codec::encode(NOW + 1000, 2), "new.txt");
    let mut listing = SweepListing::new();
    listing
        .ingest_page(&listing_page(&[&past, &future], None))
        .unwrap();
    let records = listing.decode_all().expect("both keys decode");
    assert_eq!(records.len(), 2);
    assert_eq!(records[0].expiry_ms, NOW - 1000);
    assert_eq!(records[1].expiry_ms, NOW + 1000);
    let doomed = select_expired(&records, NOW);
    assert_eq!(doomed, vec![past]);
}

#[test]
fn expiry_exactly_now_is_deleted() {
    let key = make_object_key(&codec::encode(NOW, 3), "edge.txt");
    let mut listing = SweepListing::new();
    listing.ingest_page(&listing_page(&[&key], None)).unwrap();
    let records = listing.decode_all().unwrap();
    let doomed = select_expired(&records, NOW);
    assert_eq!(doomed, vec![key]);
}

#[test]
fn foreign_key_aborts_sweep() {
    let good = make_object_key(&codec::encode(NOW - 1000, 4), "a.txt");
    let mut listing = SweepListing::new();
    listing
        .ingest_page(&listing_page(&[&good, "not-an-identifier/b.txt"], None))
        .unwrap();
    match listing.decode_all() {
        Err(CoreError::Codec(key)) => assert_eq!(key, "not-an-identifier/b.txt"),
        _ => panic!("expected a codec error"),
    }
}

#[test]
fn malformed_listing_page_is_protocol_error() {
    let mut listing = SweepListing::new();
    listing.ingest_page(&listing_page(&["k1"], None)).unwrap();
    let r = listing.ingest_page("this is not XML");
    assert!(matches!(r, Err(CoreError::Protocol(_))));
    // the listing is unchanged by the failed page
    assert_eq!(listing.keys, vec!["k1"]);
}

#[test]
fn key_expiry_reads_identifier_before_slash() {
    let id = codec::encode(NOW, 5);
    let key = make_object_key(&id, "dir/nested name.bin");
    assert_eq!(key, format!("{id}/dir/nested name.bin"));
    assert_eq!(key_expiry(&key), Some(NOW));
    assert_eq!(key_expiry("no-slash-and-not-an-id"), None);
    assert_eq!(key_expiry(&id), Some(NOW));
}

#[test]
fn upload_session_read_from_response() {
    let body = r#"<?xml version="1.0" encoding="UTF-8"?>
<InitiateMultipartUploadResult xmlns="http://s3.amazonaws.com/doc/2006-03-01/">
    <Bucket>example-bucket</Bucket>
    <Key>example-object</Key>
    <UploadId>VXBsb2FkSWRFeGFtcGxl</UploadId>
</InitiateMultipartUploadResult>"#;
    let id = parse_upload_session(body).expect("valid response");
    assert_eq!(id, "VXBsb2FkSWRFeGFtcGxl");
}

#[test]
fn malformed_session_response_is_protocol_error() {
    let r = parse_upload_session("nope");
    assert!(matches!(r, Err(CoreError::Protocol(_))));
}
