use tako::error::Error;
use tako::keys::generate;
use tako::store::{PublishOutcome, ServerIndex};
use tako::version::Version;

#[test]
fn publishing_twice_is_idempotent() {
    let k = generate().unwrap();
    let mut index = ServerIndex::new(Vec::new(), Vec::new());
    let v = Version::parse("1.0").unwrap();
    let first = index.publish(&v, &[1u8; 32], &k.secret).unwrap();
    assert!(matches!(first, PublishOutcome::Stored { new_blob: true, .. }));
    let second = index.publish(&v, &[1u8; 32], &k.secret).unwrap();
    assert!(matches!(second, PublishOutcome::AlreadyStored));
    assert_eq!(index.len(), 1);
}

#[test]
fn publishing_other_digest_is_duplicate() {
    let k = generate().unwrap();
    let mut index = ServerIndex::new(Vec::new(), Vec::new());
    let v = Version::parse("1.0").unwrap();
    index.publish(&v, &[1u8; 32], &k.secret).unwrap();
    match index.publish(&v, &[2u8; 32], &k.secret) {
        Err(Error::Duplicate(d)) => assert_eq!(d.as_str(), "1.0"),
        other => panic!("unexpected {:?}", other.is_ok()),
    }
    assert_eq!(index.len(), 1);
    assert!(matches!(index.publish(&v, &[1u8; 32], &k.secret), Ok(PublishOutcome::AlreadyStored)));
}

#[test]
fn colliding_version_is_duplicate() {
    let k = generate().unwrap();
    let mut index = ServerIndex::new(Vec::new(), Vec::new());
    index.publish(&Version::parse("1.0").unwrap(), &[1u8; 32], &k.secret).unwrap();
    match index.publish(&Version::parse("1-0").unwrap(), &[1u8; 32], &k.secret) {
        Err(Error::Duplicate(d)) => assert_eq!(d.as_str(), "1-0"),
        other => panic!("unexpected {:?}", other.is_ok()),
    }
    assert_eq!(index.len(), 1);
}

#[test]
fn shared_blob_is_written_once() {
    let k = generate().unwrap();
    let mut index = ServerIndex::new(Vec::new(), Vec::new());
    let a = index.publish(&Version::parse("1.0").unwrap(), &[5u8; 32], &k.secret).unwrap();
    let b = index.publish(&Version::parse("1.1").unwrap(), &[5u8; 32], &k.secret).unwrap();
    assert!(matches!(a, PublishOutcome::Stored { new_blob: true, .. }));
    match b {
        PublishOutcome::Stored { manifest, new_blob } => {
            assert!(!new_blob);
            assert_eq!(manifest.version().as_str(), "1.1");
            assert!(manifest.verify(&k.public).is_ok());
        }
        PublishOutcome::AlreadyStored => panic!("expected a new manifest"),
    }
    assert_eq!(index.len(), 2);
}
