use tako::error::Error;
use tako::fetch::{
    check_digest, digest_of, select_candidate, step, verify_blob, FetchAction, FetchEvent, FetchState,
};
use tako::keys::{generate, KeyPair};
use tako::manifest::Manifest;
use tako::version::Version;

fn manifest_text(k: &KeyPair, version: &str, blob: &[u8]) -> String {
    Manifest::sign(&Version::parse(version).unwrap(), &digest_of(blob), &k.secret).serialize()
}

#[test]
fn newest_candidate_is_selected() {
    let k = generate().unwrap();
    let texts = vec![
        manifest_text(&k, "1.0", b"a"),
        manifest_text(&k, "1.2", b"b"),
        manifest_text(&k, "0.9", b"c"),
    ];
    let installed = Version::parse("1.0").unwrap();
    let m = select_candidate(Some(&installed), &texts, &k.public).unwrap();
    assert_eq!(m.version().as_str(), "1.2");
    assert_eq!(m.digest(), digest_of(b"b"));
}

#[test]
fn nothing_newer_is_no_candidate() {
    let k = generate().unwrap();
    let texts = vec![manifest_text(&k, "1.0", b"a")];
    let installed = Version::parse("1.0").unwrap();
    assert!(select_candidate(Some(&installed), &texts, &k.public).is_none());
    assert!(select_candidate(None, &texts, &k.public).is_some());
    assert!(select_candidate(None, &Vec::new(), &k.public).is_none());
}

#[test]
fn bad_candidates_are_skipped() {
    let k = generate().unwrap();
    let stranger = generate().unwrap();
    let texts = vec![
        "garbage".to_string(),
        manifest_text(&stranger, "9.0", b"evil"),
        manifest_text(&k, "1.1", b"good"),
    ];
    let m = select_candidate(None, &texts, &k.public).unwrap();
    assert_eq!(m.version().as_str(), "1.1");
}

#[test]
fn digest_check() {
    let k = generate().unwrap();
    let m = Manifest::sign(&Version::parse("1.0").unwrap(), &digest_of(b"image"), &k.secret);
    assert!(verify_blob(&m, b"image").is_ok());
    assert!(matches!(verify_blob(&m, b"imagf"), Err(Error::DigestMismatch)));
    assert!(check_digest(&m, &digest_of(b"image")).is_ok());
    assert!(matches!(check_digest(&m, &[0u8; 32]), Err(Error::DigestMismatch)));
}

#[test]
fn sha256_of_known_input() {
    let d = digest_of(b"abc");
    assert_eq!(d[0], 0xba);
    assert_eq!(d[1], 0x78);
    assert_eq!(d[31], 0xad);
}

#[test]
fn fetch_runs_to_done_with_restarts() {
    let k = generate().unwrap();
    let texts = vec![manifest_text(&k, "1.0", b"old"), manifest_text(&k, "1.2", b"new")];
    let installed = Version::parse("1.0").unwrap();
    let (s, a) = step(FetchState::Idle, FetchEvent::Start(Some(installed), false), &k.public, 2);
    assert!(matches!(a, FetchAction::ListManifests));
    let (s, a) = step(s, FetchEvent::Listed(texts), &k.public, 2);
    match a {
        FetchAction::Download(d) => assert_eq!(d, digest_of(b"new")),
        _ => panic!("expected a download"),
    }
    let (s, a) = step(s, FetchEvent::Downloaded(b"new".to_vec()), &k.public, 2);
    match a {
        FetchAction::Install(m) => assert_eq!(m.version().as_str(), "1.2"),
        _ => panic!("expected an install"),
    }
    let (s, a) = step(s, FetchEvent::Installed, &k.public, 2);
    assert!(matches!(a, FetchAction::Restart(0)));
    let (s, a) = step(s, FetchEvent::Restarted, &k.public, 2);
    assert!(matches!(a, FetchAction::Restart(1)));
    let (s, a) = step(s, FetchEvent::Restarted, &k.public, 2);
    assert!(matches!(a, FetchAction::Finish));
    assert!(matches!(s, FetchState::Done));
}

#[test]
fn fetch_without_newer_version_is_no_candidate() {
    let k = generate().unwrap();
    let texts = vec![manifest_text(&k, "1.0", b"old")];
    let installed = Version::parse("1.0").unwrap();
    let (s, _) = step(FetchState::Idle, FetchEvent::Start(Some(installed), false), &k.public, 0);
    let (s, a) = step(s, FetchEvent::Listed(texts), &k.public, 0);
    assert!(matches!(s, FetchState::NoCandidate));
    assert!(matches!(a, FetchAction::Finish));
}

#[test]
fn init_with_installed_version_is_no_candidate() {
    let k = generate().unwrap();
    let installed = Version::parse("1.0").unwrap();
    let (s, a) = step(FetchState::Idle, FetchEvent::Start(Some(installed), true), &k.public, 0);
    assert!(matches!(s, FetchState::NoCandidate));
    assert!(matches!(a, FetchAction::Finish));
    let (_, a) = step(FetchState::Idle, FetchEvent::Start(None, true), &k.public, 0);
    assert!(matches!(a, FetchAction::ListManifests));
}

#[test]
fn mismatching_blob_is_never_installed() {
    let k = generate().unwrap();
    let texts = vec![manifest_text(&k, "1.2", b"new")];
    let (s, _) = step(FetchState::Idle, FetchEvent::Start(None, false), &k.public, 1);
    let (s, _) = step(s, FetchEvent::Listed(texts), &k.public, 1);
    let (s, a) = step(s, FetchEvent::Downloaded(b"tampered".to_vec()), &k.public, 1);
    assert!(matches!(s, FetchState::Failed(Error::DigestMismatch)));
    assert!(matches!(a, FetchAction::Finish));
}

#[test]
fn failure_event_ends_the_fetch() {
    let k = generate().unwrap();
    let (s, _) = step(FetchState::Idle, FetchEvent::Start(None, false), &k.public, 1);
    let (s, a) = step(s, FetchEvent::Failure(Error::DownloadError("timeout".to_string())), &k.public, 1);
    assert!(matches!(s, FetchState::Failed(Error::DownloadError(_))));
    assert!(matches!(a, FetchAction::Finish));
    let (s2, a2) = step(s, FetchEvent::Installed, &k.public, 1);
    assert!(matches!(s2, FetchState::Failed(Error::DownloadError(_))));
    assert!(matches!(a2, FetchAction::Finish));
}

#[test]
fn first_of_equal_versions_wins() {
    let k = generate().unwrap();
    let texts = vec![manifest_text(&k, "1.01", b"first"), manifest_text(&k, "1.1", b"second")];
    let m = select_candidate(None, &texts, &k.public).unwrap();
    assert_eq!(m.version().as_str(), "1.01");
    assert_eq!(m.digest(), digest_of(b"first"));
}

#[test]
fn unfit_event_fails_the_fetch() {
    let k = generate().unwrap();
    let (s, a) = step(FetchState::Idle, FetchEvent::Installed, &k.public, 0);
    assert!(matches!(s, FetchState::Failed(Error::OperationError(_))));
    assert!(matches!(a, FetchAction::Finish));
}
