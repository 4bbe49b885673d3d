//! Request signing for the Volcengine OpenAPI (HMAC-SHA256, SigV4 style).
use vstd::prelude::*;
use vstd::string::StringSliceAdditionalSpecFns;
use crate::text::chars_of;
use crate::dsh::utf8_of;
use hmac::Mac;
use sha2::Digest;

verus! {

/// The SHA-256 digest of some bytes (as `sha2::Sha256` computes it).
pub uninterp spec fn sha256_of(data: Seq<u8>) -> Seq<u8>;

/// The HMAC-SHA256 tag of `msg` under `key` (as `hmac::Hmac<sha2::Sha256>` computes it).
pub uninterp spec fn hmac_sha256_of(key: Seq<u8>, msg: Seq<u8>) -> Seq<u8>;

/// SHA-256 of `data` with `sha2::Sha256::new`, `update` and `finalize`.
/// Trusted: the digest is the named value and is 32 bytes long (the output size of SHA-256).
#[verifier::external_body]
fn sha256(data: &[u8]) -> (r: Vec<u8>)
    ensures
        r@ == sha256_of(data@),
        r@.len() == 32,
{
    let mut h = sha2::Sha256::new();
    h.update(data);
    h.finalize().to_vec()
}

/// HMAC-SHA256 with `Hmac::<Sha256>::new_from_slice`, `update` and `finalize`.
/// Trusted: the tag is the named value and is 32 bytes long; `new_from_slice`
/// accepts keys of any length for HMAC, so it does not fail.
#[verifier::external_body]
fn hmac_sha256(key: &[u8], msg: &[u8]) -> (r: Vec<u8>)
    ensures
        r@ == hmac_sha256_of(key@, msg@),
        r@.len() == 32,
{
    let mut mac = <hmac::Hmac<sha2::Sha256> as hmac::Mac>::new_from_slice(key).expect("hmac key");
    mac.update(msg);
    mac.finalize().into_bytes().to_vec()
}

/// The lowercase hexadecimal digit of a value below 16.
pub open spec fn hex_digit(v: u8) -> char {
    if v < 10 {
        ((v + 48) as u8) as char
    } else {
        ((v + 87) as u8) as char
    }
}

/// Two lowercase hex digits per byte, high nibble first.
pub open spec fn hex_lower(b: Seq<u8>) -> Seq<char>
    decreases b.len(),
{
    if b.len() == 0 {
        Seq::empty()
    } else {
        hex_lower(b.drop_last()) + seq![hex_digit(b.last() / 16), hex_digit(b.last() % 16)]
    }
}

/// The hex encoding has two characters per byte.
pub proof fn lemma_hex_len(b: Seq<u8>)
    ensures
        hex_lower(b).len() == 2 * b.len(),
    decreases b.len(),
{
    if b.len() > 0 {
        lemma_hex_len(b.drop_last());
    }
}

fn hex_char(v: u8) -> (c: char)
    requires
        v < 16,
    ensures
        c == hex_digit(v),
{
    if v < 10 {
        (v + 48) as char
    } else {
        (v + 87) as char
    }
}

/// Lowercase hex encoding.
pub fn to_hex(b: &[u8]) -> (r: Vec<char>)
    ensures
        r@ == hex_lower(b@),
{
    let mut out: Vec<char> = Vec::new();
    let mut i: usize = 0;
    while i < b.len()
        invariant
            i <= b.len(),
            out@ == hex_lower(b@.take(i as int)),
        decreases b.len() - i,
    {
        assert(b@.take(i + 1).drop_last() =~= b@.take(i as int));
        let x = b[i];
        out.push(hex_char(x / 16));
        out.push(hex_char(x % 16));
        i = i + 1;
        assert(out@ =~= hex_lower(b@.take(i as int)));
    }
    assert(b@.take(b.len() as int) =~= b@);
    out
}

/// Lowercase hex SHA-256 of some bytes.
pub open spec fn sha256_hex_of(data: Seq<u8>) -> Seq<char> {
    hex_lower(sha256_of(data))
}

fn push_lit(v: &mut Vec<char>, s: &str)
    ensures
        final(v)@ == old(v)@ + s@,
{
    let c = chars_of(s);
    push_chars(v, &c);
}

fn push_chars(v: &mut Vec<char>, c: &Vec<char>)
    ensures
        final(v)@ == old(v)@ + c@,
{
    let mut i: usize = 0;
    while i < c.len()
        invariant
            i <= c.len(),
            v@ == old(v)@ + c@.take(i as int),
        decreases c.len() - i,
    {
        v.push(c[i]);
        i = i + 1;
        assert(v@ =~= old(v)@ + c@.take(i as int));
    }
    assert(c@.take(c.len() as int) =~= c@);
}

fn bytes_of(v: &Vec<char>) -> (r: Vec<u8>)
    ensures
        r@ == utf8_of(v@),
{
    let s = crate::text::string_of(v);
    let b = s.as_str().as_bytes();
    let mut out: Vec<u8> = Vec::new();
    let mut i: usize = 0;
    while i < b.len()
        invariant
            i <= b.len(),
            out@ == b@.take(i as int),
        decreases b.len() - i,
    {
        out.push(b[i]);
        i = i + 1;
        assert(out@ =~= b@.take(i as int));
    }
    assert(b@.take(b.len() as int) =~= b@);
    out
}

/// The API host.
pub open spec fn api_host() -> Seq<char> {
    "open.volcengineapi.com"@
}

/// The query string of an action.
pub open spec fn canonical_query(action: Seq<char>) -> Seq<char> {
    "Action="@ + action + "&Version=2024-01-01"@
}

/// The canonical request: method, path, query, signed headers and payload hash.
pub open spec fn canonical_request(action: Seq<char>, payload_hash: Seq<char>, amz_date: Seq<char>) -> Seq<char> {
    "POST\n/\n"@ + canonical_query(action) + "\n"@ + "host:open.volcengineapi.com\nx-content-sha256:"@ + payload_hash
        + "\nx-date:"@ + amz_date + "\n"@ + "\n"@ + "host;x-content-sha256;x-date"@ + "\n"@ + payload_hash
}

/// The credential scope of a day.
pub open spec fn credential_scope(date_stamp: Seq<char>) -> Seq<char> {
    date_stamp + "/cn-beijing/ark/request"@
}

/// The string to sign.
pub open spec fn string_to_sign(amz_date: Seq<char>, date_stamp: Seq<char>, creq: Seq<char>) -> Seq<char> {
    "HMAC-SHA256\n"@ + amz_date + "\n"@ + credential_scope(date_stamp) + "\n"@ + sha256_hex_of(utf8_of(creq))
}

/// The signing key: the secret chained through date, region, service and "request".
pub open spec fn signing_key(secret: Seq<char>, date_stamp: Seq<char>) -> Seq<u8> {
    let k_date = hmac_sha256_of(utf8_of(secret), utf8_of(date_stamp));
    let k_region = hmac_sha256_of(k_date, utf8_of("cn-beijing"@));
    let k_service = hmac_sha256_of(k_region, utf8_of("ark"@));
    hmac_sha256_of(k_service, utf8_of("request"@))
}

/// A signed request: where to send it and the headers that carry the signature.
pub struct SignedRequest {
    pub url: String,
    pub x_date: String,
    pub payload_hash: String,
    pub authorization: String,
}

/// `r` signs a POST of `body` for `action` at time `amz_date` (`YYYYMMDDTHHMMSSZ`).
pub open spec fn is_signed_request(
    r: SignedRequest,
    action: Seq<char>,
    ak_id: Seq<char>,
    ak_secret: Seq<char>,
    amz_date: Seq<char>,
    body: Seq<u8>,
) -> bool {
    let date_stamp = vstd::utf8::decode_utf8(utf8_of(amz_date).subrange(0, 8));
    let payload_hash = sha256_hex_of(body);
    let creq = canonical_request(action, payload_hash, amz_date);
    let sts = string_to_sign(amz_date, date_stamp, creq);
    let signature = hex_lower(hmac_sha256_of(signing_key(ak_secret, date_stamp), utf8_of(sts)));
    &&& r.url@ == "https://"@ + api_host() + "/?"@ + canonical_query(action)
    &&& r.x_date@ == amz_date
    &&& r.payload_hash@ == payload_hash
    &&& r.authorization@ == "HMAC-SHA256 Credential="@ + ak_id + "/"@ + credential_scope(date_stamp)
        + ", SignedHeaders="@ + "host;x-content-sha256;x-date"@ + ", Signature="@ + signature
}

/// Signs a POST of `body` for `action` with the access key (`ak_id`, `ak_secret`) at
/// time `amz_date`.
pub fn sign_request(action: &str, ak_id: &String, ak_secret: &String, amz_date: &String, body: &[u8]) -> (r: SignedRequest)
    requires
        utf8_of(amz_date@).len() >= 8,
        vstd::utf8::is_char_boundary(utf8_of(amz_date@), 8),
    ensures
        is_signed_request(r, action@, ak_id@, ak_secret@, amz_date@, body@),
{
    let date_str = amz_date.as_str();
    assert(date_str.spec_bytes() == utf8_of(amz_date@));
    let (stamp, _rest) = date_str.split_at(8);
    proof {
        vstd::utf8::encode_utf8_decode_utf8(stamp@);
    }
    let date_stamp = chars_of(stamp);
    let date_chars = chars_of(date_str);
    let ghost ds = date_stamp@;
    assert(ds == vstd::utf8::decode_utf8(utf8_of(amz_date@).subrange(0, 8)));

    let payload_hash = to_hex(sha256(body).as_slice());

    let mut query: Vec<char> = Vec::new();
    push_lit(&mut query, "Action=");
    push_lit(&mut query, action);
    push_lit(&mut query, "&Version=2024-01-01");

    let mut creq: Vec<char> = Vec::new();
    push_lit(&mut creq, "POST\n/\n");
    push_chars(&mut creq, &query);
    push_lit(&mut creq, "\n");
    push_lit(&mut creq, "host:open.volcengineapi.com\nx-content-sha256:");
    push_chars(&mut creq, &payload_hash);
    push_lit(&mut creq, "\nx-date:");
    push_chars(&mut creq, &date_chars);
    push_lit(&mut creq, "\n");
    push_lit(&mut creq, "\n");
    push_lit(&mut creq, "host;x-content-sha256;x-date");
    push_lit(&mut creq, "\n");
    push_chars(&mut creq, &payload_hash);
    assert(creq@ =~= canonical_request(action@, payload_hash@, amz_date@));

    let mut scope: Vec<char> = Vec::new();
    push_chars(&mut scope, &date_stamp);
    push_lit(&mut scope, "/cn-beijing/ark/request");

    let creq_hash = to_hex(sha256(bytes_of(&creq).as_slice()).as_slice());
    let mut sts: Vec<char> = Vec::new();
    push_lit(&mut sts, "HMAC-SHA256\n");
    push_chars(&mut sts, &date_chars);
    push_lit(&mut sts, "\n");
    push_chars(&mut sts, &scope);
    push_lit(&mut sts, "\n");
    push_chars(&mut sts, &creq_hash);
    assert(sts@ =~= string_to_sign(amz_date@, ds, creq@));

    let k_date = hmac_sha256(bytes_of(&chars_of(ak_secret.as_str())).as_slice(), bytes_of(&date_stamp).as_slice());
    let k_region = hmac_sha256(k_date.as_slice(), bytes_of(&chars_of("cn-beijing")).as_slice());
    let k_service = hmac_sha256(k_region.as_slice(), bytes_of(&chars_of("ark")).as_slice());
    let k_signing = hmac_sha256(k_service.as_slice(), bytes_of(&chars_of("request")).as_slice());
    let signature = to_hex(hmac_sha256(k_signing.as_slice(), bytes_of(&sts).as_slice()).as_slice());

    let mut auth: Vec<char> = Vec::new();
    push_lit(&mut auth, "HMAC-SHA256 Credential=");
    push_chars(&mut auth, &chars_of(ak_id.as_str()));
    push_lit(&mut auth, "/");
    push_chars(&mut auth, &scope);
    push_lit(&mut auth, ", SignedHeaders=");
    push_lit(&mut auth, "host;x-content-sha256;x-date");
    push_lit(&mut auth, ", Signature=");
    push_chars(&mut auth, &signature);

    let mut url: Vec<char> = Vec::new();
    push_lit(&mut url, "https://");
    push_lit(&mut url, "open.volcengineapi.com");
    push_lit(&mut url, "/?");
    push_chars(&mut url, &query);

    let r = SignedRequest {
        url: crate::text::string_of(&url),
        x_date: amz_date.clone(),
        payload_hash: crate::text::string_of(&payload_hash),
        authorization: crate::text::string_of(&auth),
    };
    assert(r.authorization@ =~= "HMAC-SHA256 Credential="@ + ak_id@ + "/"@ + credential_scope(ds)
        + ", SignedHeaders="@ + "host;x-content-sha256;x-date"@ + ", Signature="@ + signature@);
    assert(r.url@ =~= "https://"@ + api_host() + "/?"@ + canonical_query(action@));
    r
}

} // verus!
