use tako::error::Error;
use tako::keys::{decode_secret, generate, key_pair_from_pkcs8, KeyPair};
use tako::layout::{blob_file_name, manifest_file_name};
use tako::manifest::{parse_manifest, Manifest};
use tako::version::Version;

fn key_pair() -> KeyPair {
    generate().unwrap()
}

fn digest(b: u8) -> [u8; 32] {
    [b; 32]
}

#[test]
fn signed_manifest_verifies() {
    let k = key_pair();
    let m = Manifest::sign(&Version::parse("1.2").unwrap(), &digest(7), &k.secret);
    assert!(m.verify(&k.public).is_ok());
    assert_eq!(m.signature().len(), 64);
    assert_eq!(m.version().as_str(), "1.2");
    assert_eq!(m.digest(), digest(7));
}

#[test]
fn signing_is_deterministic() {
    let k = key_pair();
    let a = Manifest::sign(&Version::parse("1.2").unwrap(), &digest(7), &k.secret);
    let b = Manifest::sign(&Version::parse("1.2").unwrap(), &digest(7), &k.secret);
    assert_eq!(a.signature(), b.signature());
}

#[test]
fn verification_fails_under_another_key() {
    let k = key_pair();
    let other = key_pair();
    let m = Manifest::sign(&Version::parse("1.2").unwrap(), &digest(7), &k.secret);
    assert!(matches!(m.verify(&other.public), Err(Error::InvalidSignature)));
}

#[test]
fn verification_fails_on_tampered_fields() {
    let k = key_pair();
    let m = Manifest::sign(&Version::parse("1.2").unwrap(), &digest(7), &k.secret);
    let text = m.serialize();

    let tampered_version = text.replace("\n1.2", "\n1.3");
    let m2 = parse_manifest(&tampered_version).unwrap();
    assert!(matches!(m2.verify(&k.public), Err(Error::InvalidSignature)));

    let tampered_digest = format!("08{}", &text[2..]);
    let m3 = parse_manifest(&tampered_digest).unwrap();
    assert!(matches!(m3.verify(&k.public), Err(Error::InvalidSignature)));

    let mut sig = m.signature().to_vec();
    sig[0] ^= 1;
    let hex: String = digest(7).iter().map(|b| format!("{:02x}", b)).collect();
    let tampered_sig = format!("{}\n{}\n1.2", hex, base64::encode(&sig));
    let m4 = parse_manifest(&tampered_sig).unwrap();
    assert!(matches!(m4.verify(&k.public), Err(Error::InvalidSignature)));

    let mut public = k.public;
    public[0] ^= 1;
    assert!(matches!(m.verify(&public), Err(Error::InvalidSignature)));
}

#[test]
fn manifest_text_round_trips() {
    let k = key_pair();
    for ver in ["1.0", "2021-03-01", "odd\nversion with newline"] {
        let m = Manifest::sign(&Version::parse(ver).unwrap(), &digest(0xab), &k.secret);
        let text = m.serialize();
        assert!(text.starts_with(&"ab".repeat(32)));
        let back = parse_manifest(&text).unwrap();
        assert_eq!(back.version().as_str(), ver);
        assert_eq!(back.digest(), m.digest());
        assert_eq!(back.signature(), m.signature());
        assert!(back.verify(&k.public).is_ok());
    }
}

#[test]
fn broken_manifests_are_refused() {
    let hex = "ab".repeat(32);
    let sig = base64::encode([1u8; 64]);
    let good = format!("{}\n{}\n1.0", hex, sig);
    assert!(parse_manifest(&good).is_ok());
    let cases = [
        String::new(),
        format!("{}\n{}\n", hex, sig),
        format!("{}\n{}", hex, sig),
        format!("{}\n{}\n1.0", "zz".repeat(32), sig),
        format!("{}\n{}\n1.0", "AB".repeat(32), sig),
        format!("{}x\n{}\n1.0", hex, sig),
        format!("{}\n{}\n1.0", hex, base64::encode([1u8; 63])),
        format!("{}\nnot base64!\n1.0", hex),
    ];
    for c in cases.iter() {
        assert!(matches!(parse_manifest(c), Err(Error::InvalidManifest(_))), "{:?}", c);
    }
}

#[test]
fn secret_key_decoding() {
    let k = key_pair();
    let text = base64::encode(k.secret.as_bytes());
    let decoded = decode_secret(&text).unwrap();
    assert_eq!(decoded.public_key(), k.public);
    assert!(matches!(decode_secret("not base64!"), Err(Error::InvalidSecretKeyData)));
    assert!(matches!(decode_secret("AAAA"), Err(Error::InvalidSecretKeyData)));
    assert!(matches!(decode_secret("ünïcode"), Err(Error::InvalidSecretKeyData)));
}

#[test]
fn layout_names_are_hex() {
    assert_eq!(manifest_file_name(&Version::parse("1.0").unwrap()), "312e30");
    assert_eq!(blob_file_name(&[0x0f; 32]), "0f".repeat(32));
}

#[test]
fn key_pair_from_generated_bytes() {
    let k = key_pair();
    let again = key_pair_from_pkcs8(k.secret.as_bytes().to_vec()).unwrap();
    assert_eq!(again.public, k.public);
    assert!(matches!(key_pair_from_pkcs8(vec![1, 2, 3]), Err(Error::KeyGenerationFailed)));
}

#[test]
fn key_pair_base64_texts() {
    let k = key_pair();
    let (secret, public) = k.to_base64();
    assert_eq!(base64::decode(&secret).unwrap(), k.secret.as_bytes());
    assert_eq!(base64::decode(&public).unwrap(), k.public.to_vec());
    assert_eq!(public.len(), 44);
    assert_eq!(decode_secret(&secret).unwrap().public_key(), k.public);
}
