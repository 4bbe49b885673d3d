use hmac::{Hmac, Mac};
use sha2::{Digest, Sha256};
use zcode_usage::sigv4::{sign_request, to_hex};

fn hex(b: &[u8]) -> String {
    b.iter().map(|x| format!("{:02x}", x)).collect()
}

fn hmac(key: &[u8], msg: &[u8]) -> Vec<u8> {
    let mut m = Hmac::<Sha256>::new_from_slice(key).unwrap();
    m.update(msg);
    m.finalize().into_bytes().to_vec()
}

#[test]
fn to_hex_is_lower_case_two_digits_per_byte() {
    let h: String = to_hex(&[0x00, 0x0f, 0xa5, 0xff]).into_iter().collect();
    assert_eq!(h, "000fa5ff");
    assert!(to_hex(&[]).is_empty());
}

#[test]
fn signing_an_empty_body() {
    let r = sign_request("GetCodingPlanUsage", &"AKID".to_string(), &"SECRET".to_string(), &"20240102T030405Z".to_string(), b"");
    assert_eq!(r.url, "https://open.volcengineapi.com/?Action=GetCodingPlanUsage&Version=2024-01-01");
    assert_eq!(r.x_date, "20240102T030405Z");
    assert_eq!(r.payload_hash, "e3b0c44298fc1c149afbf4c8996fb92427ae41e4649b934ca495991b7852b855");
    assert!(r.authorization.starts_with(
        "HMAC-SHA256 Credential=AKID/20240102/cn-beijing/ark/request, SignedHeaders=host;x-content-sha256;x-date, Signature="
    ));
}

#[test]
fn the_signature_follows_the_signing_chain() {
    let body = b"{}";
    let date = "20240102T030405Z";
    let r = sign_request("GetAFPUsage", &"AKID".to_string(), &"SECRET".to_string(), &date.to_string(), body);
    let payload = hex(&Sha256::digest(body));
    assert_eq!(r.payload_hash, payload);
    let creq = format!(
        "POST\n/\nAction=GetAFPUsage&Version=2024-01-01\nhost:open.volcengineapi.com\nx-content-sha256:{payload}\nx-date:{date}\n\nhost;x-content-sha256;x-date\n{payload}"
    );
    let sts = format!("HMAC-SHA256\n{date}\n20240102/cn-beijing/ark/request\n{}", hex(&Sha256::digest(creq.as_bytes())));
    let k = hmac(b"SECRET", b"20240102");
    let k = hmac(&k, b"cn-beijing");
    let k = hmac(&k, b"ark");
    let k = hmac(&k, b"request");
    let sig = hex(&hmac(&k, sts.as_bytes()));
    assert!(r.authorization.ends_with(&format!("Signature={sig}")));
    assert_eq!(sig.len(), 64);
}

#[test]
fn a_different_body_changes_hash_and_signature() {
    let a = sign_request("A", &"k".to_string(), &"s".to_string(), &"20240102T000000Z".to_string(), b"x");
    let b = sign_request("A", &"k".to_string(), &"s".to_string(), &"20240102T000000Z".to_string(), b"y");
    assert_ne!(a.payload_hash, b.payload_hash);
    assert_ne!(a.authorization, b.authorization);
}
