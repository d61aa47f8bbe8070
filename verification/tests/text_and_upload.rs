use fia_docs_bot::text::{encode_spaces, str_eq, str_has_prefix, trim_str, u64_to_dec};
use fia_docs_bot::upload::{build_image_put, build_mirror_put, image_url, mirror_url};

#[test]
fn trim_removes_surrounding_whitespace() {
    assert_eq!(trim_str("  Entry List \n"), "Entry List");
    assert_eq!(trim_str("\t\r\n  "), "");
    assert_eq!(trim_str("no-trim"), "no-trim");
    assert_eq!(trim_str(""), "");
}

#[test]
fn encode_spaces_rewrites_each_space() {
    assert_eq!(encode_spaces("/decision doc.pdf"), "/decision%20doc.pdf");
    assert_eq!(encode_spaces("nospace"), "nospace");
    assert_eq!(encode_spaces(" "), "%20");
}

#[test]
fn decimal_rendering_is_exact() {
    assert_eq!(u64_to_dec(0), "0");
    assert_eq!(u64_to_dec(7), "7");
    assert_eq!(u64_to_dec(2024), "2024");
    assert_eq!(u64_to_dec(u64::MAX), "18446744073709551615");
}

#[test]
fn string_comparisons() {
    assert!(str_eq("abc", "abc"));
    assert!(!str_eq("abc", "abd"));
    assert!(!str_eq("abc", "ab"));
    assert!(str_has_prefix("event-title body", "event-title"));
    assert!(!str_has_prefix("event", "event-title"));
}

#[test]
fn mirror_url_layout() {
    // The event title stays raw; the document title is percent-encoded.
    let url = mirror_url(2024, "British Grand Prix", "Entry List v2");
    assert_eq!(
        url,
        "https://fia.ort.dev/mirror/2024/British Grand Prix/Entry%20List%20v2.pdf"
    );
}

#[test]
fn image_url_layout() {
    // Here the event title is percent-encoded and the id and page are appended.
    let url = image_url(2024, "British Grand Prix", 17, 3);
    assert_eq!(
        url,
        "https://fia.ort.dev/img/2024/British%20Grand%20Prix/17-3.jpg"
    );
}

#[test]
fn mirror_put_hashes_and_stamps() {
    let body: Vec<u8> = b"hello".to_vec();
    let put = build_mirror_put(2024, "Race", "Doc", body.clone(), 0, "AK", "SK");
    // sha256("hello"), as the upload headers must carry it.
    assert_eq!(
        put.content_sha256,
        "2cf24dba5fb0a30e26e83b2ac5b9e29e1b161e5c1fa7425e73043362938b9824"
    );
    assert_eq!(put.amz_date, "19700101T000000Z");
    assert_eq!(put.acl, "public-read");
    assert_eq!(put.content_type, "application/pdf");
    assert_eq!(put.host, "fia.ort.dev");
    assert_eq!(put.url, "https://fia.ort.dev/mirror/2024/Race/Doc.pdf");
    assert_eq!(put.body, body);
    // The signature is a real SigV4 authorization value, not an echo of
    // any input.
    assert!(put.authorization.starts_with("AWS4-HMAC-SHA256 Credential=AK/19700101/us-east-1/s3/aws4_request"));
}

#[test]
fn image_put_content_type_and_url() {
    let put = build_image_put(2024, "My Event", 5, 0, b"jpeg".to_vec(), 1700000000, "AK", "SK");
    assert_eq!(put.content_type, "image/jpeg");
    assert_eq!(put.url, "https://fia.ort.dev/img/2024/My%20Event/5-0.jpg");
    assert_eq!(put.amz_date.len(), 16);
}

#[test]
fn upload_url_is_idempotent() {
    // Re-preparing the same body for the same key addresses the same
    // content URL with the same hash.
    let a = build_mirror_put(2024, "Race", "Doc", b"same".to_vec(), 10, "AK", "SK");
    let b = build_mirror_put(2024, "Race", "Doc", b"same".to_vec(), 99, "AK", "SK");
    assert_eq!(a.url, b.url);
    assert_eq!(a.content_sha256, b.content_sha256);
}
