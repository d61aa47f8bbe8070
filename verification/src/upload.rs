//! The object-store uploader: content-hashed, SigV4-signed PUT requests.
//!
//! Everything that can be computed is computed and verified here: the
//! mirror and image URLs, the header values, and which inputs the
//! signature is a function of. The outside calls — hashing, percent
//! encoding, timestamp formatting and the signature itself — stand
//! behind trusted wrappers whose results are named.

use vstd::prelude::*;
use vstd::string::StringExecFns;

use crate::text::dec_of;
use crate::text::u64_to_dec;

verus! {

/// What `sha256::digest` returns on a byte string.
pub uninterp spec fn sha256_hex_of(data: Seq<u8>) -> Seq<char>;

/// What `urlencoding::encode` returns on a string.
pub uninterp spec fn urlencode_of(s: Seq<char>) -> Seq<char>;

/// What chrono's `%Y%m%dT%H%M%SZ` formatting of a Unix timestamp returns.
pub uninterp spec fn amz_date_of(ts: int) -> Seq<char>;

/// What `aws_sign_v4::AwsSign::sign` returns for a PUT of `body` to
/// `https://{host}{path}` with the four signed headers
/// `x-amz-content-sha256: digest`, `x-amz-acl: acl`, `X-Amz-Date: date`
/// and `host: host`.
pub uninterp spec fn sigv4_of(
    method: Seq<char>,
    host: Seq<char>,
    path: Seq<char>,
    date: Seq<char>,
    digest: Seq<char>,
    acl: Seq<char>,
    region: Seq<char>,
    service: Seq<char>,
    access: Seq<char>,
    secret: Seq<char>,
    body: Seq<u8>,
    ts: int,
) -> Seq<char>;

/// A character accepted inside an HTTP header value.
pub open spec fn header_char_ok(c: char) -> bool {
    ' ' <= c <= '~'
}

pub open spec fn header_value_ok(s: Seq<char>) -> bool {
    forall|i: int| 0 <= i < s.len() ==> header_char_ok(#[trigger] s[i])
}

/// The latest Unix second this module formats as a date: the end of the
/// four-digit years.
pub open spec fn max_timestamp() -> int {
    253402300799
}

/// Relies on `sha256::digest`: the lowercase hex digest of the bytes,
/// 64 hex characters, a function of the bytes alone.
#[verifier::external_body]
pub fn sha256_hex(data: &Vec<u8>) -> (r: String)
    ensures
        r@ == sha256_hex_of(data@),
        r@.len() == 64,
        forall|i: int|
            0 <= i < r@.len() ==> (('0' <= #[trigger] r@[i] <= '9') || ('a' <= r@[i] <= 'f')),
{
    sha256::digest(data.as_slice())
}

/// Relies on `urlencoding::encode`: percent-encodes every byte except
/// ASCII alphanumerics and `-`, `_`, `.`, `~`; a function of the string
/// alone.
#[verifier::external_body]
pub fn urlencode(s: &str) -> (r: String)
    ensures
        r@ == urlencode_of(s@),
{
    urlencoding::encode(s).into_owned()
}

/// Relies on `chrono::DateTime::from_timestamp` and its `format`: the
/// timestamp rendered as `yyyymmddThhmmssZ`, sixteen characters of
/// digits plus `T` and `Z`, a function of the timestamp alone.
#[verifier::external_body]
pub fn amz_date(ts: i64) -> (r: String)
    requires
        0 <= ts <= max_timestamp(),
    ensures
        r@ == amz_date_of(ts as int),
        r@.len() == 16,
        forall|i: int|
            0 <= i < r@.len() ==> (('0' <= #[trigger] r@[i] <= '9') || r@[i] == 'T' || r@[i]
                == 'Z'),
{
    let dt = chrono::DateTime::from_timestamp(ts, 0).unwrap();
    dt.format("%Y%m%dT%H%M%SZ").to_string()
}

/// Relies on `aws_sign_v4::AwsSign::new` and `sign`: the SigV4
/// `Authorization` value for a request to `https://{host}{path}` with
/// exactly the four headers named by [`sigv4_of`]; a function of its
/// arguments alone. The host is pinned to the upload host, the path to
/// a `/`-prefixed string (so the URL constructor inside cannot read a
/// port and reject it), and the header values to visible ASCII.
#[verifier::external_body]
fn sign_put(
    method: &str,
    host: &str,
    path: &str,
    date: &str,
    digest: &str,
    acl: &str,
    region: &str,
    service: &str,
    access: &str,
    secret: &str,
    body: &Vec<u8>,
    ts: i64,
) -> (r: String)
    requires
        0 <= ts <= max_timestamp(),
        host@ == spec_upload_host(),
        crate::text::spec_has_prefix(path@, "/"@),
        header_value_ok(date@),
        header_value_ok(digest@),
        header_value_ok(acl@),
    ensures
        r@ == sigv4_of(
            method@,
            host@,
            path@,
            date@,
            digest@,
            acl@,
            region@,
            service@,
            access@,
            secret@,
            body@,
            ts as int,
        ),
{
    let dt = chrono::DateTime::from_timestamp(ts, 0).unwrap();
    let url = format!("https://{}{}", host, path);
    let mut headers = reqwest::header::HeaderMap::new();
    headers.insert("x-amz-content-sha256", digest.parse().unwrap());
    headers.insert("x-amz-acl", acl.parse().unwrap());
    headers.insert("X-Amz-Date", date.parse().unwrap());
    headers.insert("host", host.parse().unwrap());
    let b = body.as_slice();
    let sign = aws_sign_v4::AwsSign::new(method, &url, &dt, &headers, region, access, secret, service, b);
    sign.sign()
}

/// The host all mirrors and images are served from.
pub open spec fn spec_upload_host() -> Seq<char> {
    "fia.ort.dev"@
}

/// `/mirror/{year}/{event}/{urlencode(title)}.pdf`
pub open spec fn spec_mirror_path(year: int, event: Seq<char>, title: Seq<char>) -> Seq<char> {
    "/mirror/"@ + dec_of(year) + "/"@ + event + "/"@ + urlencode_of(title) + ".pdf"@
}

/// `/img/{year}/{urlencode(event)}/{doc_id}-{page}.jpg`
pub open spec fn spec_image_path(year: int, event: Seq<char>, doc_id: int, page: int) -> Seq<
    char,
> {
    "/img/"@ + dec_of(year) + "/"@ + urlencode_of(event) + "/"@ + dec_of(doc_id) + "-"@ + dec_of(
        page,
    ) + ".jpg"@
}

pub open spec fn spec_mirror_url(year: int, event: Seq<char>, title: Seq<char>) -> Seq<char> {
    "https://"@ + spec_upload_host() + spec_mirror_path(year, event, title)
}

pub open spec fn spec_image_url(year: int, event: Seq<char>, doc_id: int, page: int) -> Seq<
    char,
> {
    "https://"@ + spec_upload_host() + spec_image_path(year, event, doc_id, page)
}

fn mirror_path(year: i32, event: &str, title: &str) -> (r: String)
    requires
        year >= 0,
    ensures
        r@ == spec_mirror_path(year as int, event@, title@),
{
    let mut r = String::from_str("/mirror/");
    r.append(u64_to_dec(year as u64).as_str());
    r.append("/");
    r.append(event);
    r.append("/");
    r.append(urlencode(title).as_str());
    r.append(".pdf");
    r
}

fn image_path(year: i32, event: &str, doc_id: u64, page: u64) -> (r: String)
    requires
        year >= 0,
    ensures
        r@ == spec_image_path(year as int, event@, doc_id as int, page as int),
{
    let mut r = String::from_str("/img/");
    r.append(u64_to_dec(year as u64).as_str());
    r.append("/");
    r.append(urlencode(event).as_str());
    r.append("/");
    r.append(u64_to_dec(doc_id).as_str());
    r.append("-");
    r.append(u64_to_dec(page).as_str());
    r.append(".jpg");
    r
}

/// The URL a document mirror is uploaded to.
pub fn mirror_url(year: i32, event: &str, title: &str) -> (r: String)
    requires
        year >= 0,
    ensures
        r@ == spec_mirror_url(year as int, event@, title@),
{
    let mut r = String::from_str("https://");
    r.append("fia.ort.dev");
    r.append(mirror_path(year, event, title).as_str());
    r
}

/// The URL one rendered page is uploaded to.
pub fn image_url(year: i32, event: &str, doc_id: u64, page: u64) -> (r: String)
    requires
        year >= 0,
    ensures
        r@ == spec_image_url(year as int, event@, doc_id as int, page as int),
{
    let mut r = String::from_str("https://");
    r.append("fia.ort.dev");
    r.append(image_path(year, event, doc_id, page).as_str());
    r
}

/// A fully prepared, signed PUT: the URL, every header value, and the
/// body. Sending it is plain I/O.
pub struct SignedPut {
    pub url: String,
    pub host: String,
    pub content_sha256: String,
    pub acl: String,
    pub amz_date: String,
    pub authorization: String,
    pub content_type: String,
    pub body: Vec<u8>,
}

impl SignedPut {
    /// What every signed PUT request looks like: `public-read` ACL,
    /// region `us-east-1`, service `s3`, hashed body, and a signature
    /// over exactly the four signed headers.
    pub open spec fn is_put_of(
        self,
        host: Seq<char>,
        path: Seq<char>,
        content_type: Seq<char>,
        body: Seq<u8>,
        now: int,
        access: Seq<char>,
        secret: Seq<char>,
    ) -> bool {
        &&& self.url@ == "https://"@ + host + path
        &&& self.host@ == host
        &&& self.content_sha256@ == sha256_hex_of(body)
        &&& self.acl@ == "public-read"@
        &&& self.amz_date@ == amz_date_of(now)
        &&& self.authorization@ == sigv4_of(
            "PUT"@,
            host,
            path,
            amz_date_of(now),
            sha256_hex_of(body),
            "public-read"@,
            "us-east-1"@,
            "s3"@,
            access,
            secret,
            body,
            now,
        )
        &&& self.content_type@ == content_type
        &&& self.body@ == body
    }
}

fn build_signed_put(
    path: String,
    content_type: &str,
    body: Vec<u8>,
    now: i64,
    access: &str,
    secret: &str,
) -> (r: SignedPut)
    requires
        0 <= now <= max_timestamp(),
        crate::text::spec_has_prefix(path@, "/"@),
    ensures
        r.is_put_of(
            spec_upload_host(),
            path@,
            content_type@,
            body@,
            now as int,
            access@,
            secret@,
        ),
{
    let host = String::from_str("fia.ort.dev");
    let digest = sha256_hex(&body);
    let date = amz_date(now);
    proof {
        reveal_strlit("fia.ort.dev");
        reveal_strlit("public-read");
        assert(host@ == spec_upload_host());
        assert(header_value_ok("public-read"@));
        assert(header_value_ok(date@));
        assert(header_value_ok(digest@));
    }
    let authorization = sign_put(
        "PUT",
        host.as_str(),
        path.as_str(),
        date.as_str(),
        digest.as_str(),
        "public-read",
        "us-east-1",
        "s3",
        access,
        secret,
        &body,
        now,
    );
    let mut url = String::from_str("https://");
    url.append(host.as_str());
    url.append(path.as_str());
    SignedPut {
        url,
        host,
        content_sha256: digest,
        acl: String::from_str("public-read"),
        amz_date: date,
        authorization,
        content_type: String::from_str(content_type),
        body,
    }
}

/// The signed PUT that mirrors one PDF, as the scraper uploads it.
pub fn build_mirror_put(
    year: i32,
    event_title: &str,
    doc_title: &str,
    body: Vec<u8>,
    now: i64,
    access: &str,
    secret: &str,
) -> (r: SignedPut)
    requires
        year >= 0,
        0 <= now <= max_timestamp(),
    ensures
        r.is_put_of(
            spec_upload_host(),
            spec_mirror_path(year as int, event_title@, doc_title@),
            "application/pdf"@,
            body@,
            now as int,
            access@,
            secret@,
        ),
        r.url@ == spec_mirror_url(year as int, event_title@, doc_title@),
{
    let path = mirror_path(year, event_title, doc_title);
    proof {
        reveal_strlit("/mirror/");
        reveal_strlit("/");
        assert(path@[0] == '/');
        assert(path@.subrange(0, 1) =~= "/"@);
    }
    build_signed_put(path, "application/pdf", body, now, access, secret)
}

/// The signed PUT that uploads one rendered page.
pub fn build_image_put(
    year: i32,
    event_title: &str,
    doc_id: u64,
    page: u64,
    body: Vec<u8>,
    now: i64,
    access: &str,
    secret: &str,
) -> (r: SignedPut)
    requires
        year >= 0,
        0 <= now <= max_timestamp(),
    ensures
        r.is_put_of(
            spec_upload_host(),
            spec_image_path(year as int, event_title@, doc_id as int, page as int),
            "image/jpeg"@,
            body@,
            now as int,
            access@,
            secret@,
        ),
        r.url@ == spec_image_url(year as int, event_title@, doc_id as int, page as int),
{
    let path = image_path(year, event_title, doc_id, page);
    proof {
        reveal_strlit("/img/");
        reveal_strlit("/");
        assert(path@[0] == '/');
        assert(path@.subrange(0, 1) =~= "/"@);
    }
    build_signed_put(path, "image/jpeg", body, now, access, secret)
}

/// Uploading the same body to the same key is idempotent on the URL:
/// two prepared PUTs for equal inputs address the same content URL, and
/// equal bodies carry the same content hash.
pub proof fn lemma_upload_idempotent(
    a: SignedPut,
    b: SignedPut,
    host: Seq<char>,
    path: Seq<char>,
    content_type: Seq<char>,
    body: Seq<u8>,
    now1: int,
    now2: int,
    access: Seq<char>,
    secret: Seq<char>,
)
    requires
        a.is_put_of(host, path, content_type, body, now1, access, secret),
        b.is_put_of(host, path, content_type, body, now2, access, secret),
    ensures
        a.url@ == b.url@,
        a.content_sha256@ == b.content_sha256@,
{
}

} // verus!
