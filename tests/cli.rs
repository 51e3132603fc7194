use tako::cli::{parse, Cmd, KeySource};

fn args(words: &[&str]) -> Vec<String> {
    words.iter().map(|w| w.to_string()).collect()
}

#[test]
fn no_command_is_an_error() {
    assert!(parse(&args(&["tako"]), None).is_err());
}

#[test]
fn fetch_collects_config_files() {
    match parse(&args(&["tako", "fetch", "a.conf", "b.conf"]), None) {
        Ok(Cmd::Fetch(f)) => assert_eq!(f, args(&["a.conf", "b.conf"])),
        _ => panic!("expected fetch"),
    }
    match parse(&args(&["tako", "fetch", "--init", "--", "--odd.conf"]), None) {
        Ok(Cmd::Init(f)) => assert_eq!(f, args(&["--odd.conf"])),
        _ => panic!("expected init"),
    }
    assert!(parse(&args(&["tako", "fetch"]), None).is_err());
    assert!(parse(&args(&["tako", "fetch", "--bogus", "a"]), None).is_err());
}

#[test]
fn store_reads_options() {
    let a = args(&["tako", "store", "--key=SECRET-REDACTED", "-o", "/srv", "img", "1.0"]);
    match parse(&a, None) {
        Ok(Cmd::Store(s)) => {
            assert_eq!(s.secret_key.as_deref(), Some("SECRET-REDACTED"));
            assert_eq!(s.secret_key_path, None);
            assert_eq!(s.output_path, "/srv");
            assert_eq!(s.image_path, "img");
            assert_eq!(s.version, "1.0");
        }
        _ => panic!("expected store"),
    }
}

#[test]
fn store_key_precedence() {
    let with_file = args(&["tako", "store", "-fkey.txt", "--output", "/srv", "img", "1.0"]);
    match parse(&with_file, Some("envkey".to_string())) {
        Ok(Cmd::Store(s)) => {
            assert_eq!(s.secret_key, None);
            assert_eq!(s.secret_key_path.as_deref(), Some("key.txt"));
        }
        _ => panic!("expected store"),
    }
    let from_env = args(&["tako", "store", "--output", "/srv", "img", "1.0"]);
    match parse(&from_env, Some("envkey".to_string())) {
        Ok(Cmd::Store(s)) => assert_eq!(s.secret_key.as_deref(), Some("envkey")),
        _ => panic!("expected store"),
    }
    assert!(parse(&from_env, None).is_err());
}

#[test]
fn store_missing_parts_are_errors() {
    assert!(parse(&args(&["tako", "store", "-k", "x", "img", "1.0"]), None).is_err());
    assert!(parse(&args(&["tako", "store", "-k", "x", "-o", "/srv", "img"]), None).is_err());
    assert!(parse(&args(&["tako", "store", "-k"]), None).is_err());
    assert!(parse(&args(&["tako", "store", "-k", "x", "-o", "/srv", "a", "b", "c"]), None).is_err());
}

#[test]
fn help_version_and_gen_key() {
    assert!(matches!(parse(&args(&["tako", "--version"]), None), Ok(Cmd::Version)));
    assert!(matches!(parse(&args(&["tako", "gen-key"]), None), Ok(Cmd::GenKey)));
    assert!(parse(&args(&["tako", "gen-key", "extra"]), None).is_err());
    match parse(&args(&["tako", "--help"]), None) {
        Ok(Cmd::Help(c)) => assert_eq!(c, "tako"),
        _ => panic!("expected help"),
    }
    match parse(&args(&["tako", "-h", "store"]), None) {
        Ok(Cmd::Help(c)) => assert_eq!(c, "store"),
        _ => panic!("expected help"),
    }
    match parse(&args(&["tako", "fetch", "-h"]), None) {
        Ok(Cmd::Help(c)) => assert_eq!(c, "fetch"),
        _ => panic!("expected help"),
    }
    assert!(parse(&args(&["tako", "frobnicate"]), None).is_err());
}

fn err_of(words: &[&str], env: Option<&str>) -> String {
    match parse(&args(words), env.map(|e| e.to_string())) {
        Err(m) => m,
        Ok(_) => panic!("expected an error"),
    }
}

#[test]
fn error_messages_name_the_problem() {
    assert_eq!(err_of(&["tako"], None), "No command provided. See --help.");
    assert_eq!(err_of(&["tako", "fetch", "--init"], None), "Expected at least one fetch config filename.");
    assert_eq!(err_of(&["tako", "frobnicate"], None), "Unexpected argument 'frobnicate'.");
    assert_eq!(err_of(&["tako", "gen-key", "x"], None), "Unexpected argument 'x'.");
    assert_eq!(err_of(&["tako", "fetch", "--bogus", "a"], None), "Unexpected argument '--bogus'.");
    assert_eq!(err_of(&["tako", "fetch", "-x"], None), "Unexpected argument '-x'.");
    assert_eq!(err_of(&["tako", "--help", "fetch", "x"], None), "Unexpected argument 'x'.");
    assert_eq!(err_of(&["tako", "--help", "--init"], None), "Unexpected argument '--init'.");
    assert_eq!(err_of(&["tako", "fetch", "--help", "a"], None), "Unexpected argument 'a'.");
}

#[test]
fn store_error_messages() {
    assert_eq!(
        err_of(&["tako", "store", "--output", "srv", "img", "1.0"], None),
        "Secret key not provided. Pass it via --key, read if from a key file with --key-file, or set the TAKO_SECRET_KEY environment variable."
    );
    assert_eq!(
        err_of(&["tako", "store", "--key", "K", "img", "1.0"], None),
        "Server directory not provided. Pass it via --output."
    );
    assert_eq!(
        err_of(&["tako", "store", "--key", "K", "--output", "srv"], None),
        "Image path not provided. See 'tako store --help' for usage."
    );
    assert_eq!(
        err_of(&["tako", "store", "--key", "K", "--output", "srv", "img"], None),
        "Version not provided. See 'tako store --help' for usage."
    );
    assert_eq!(
        err_of(&["tako", "store", "--key", "K", "--output", "srv", "img", "1.0", "x"], None),
        "Unexpected argument 'x'."
    );
    assert_eq!(err_of(&["tako", "store", "--key"], None), "Expected secret key after --key.");
    assert_eq!(err_of(&["tako", "store", "-f"], None), "Expected key path after --key-file.");
    assert_eq!(
        err_of(&["tako", "store", "--output", "--key", "K"], None),
        "Unexpected argument '--key'. Expected server directory after --output."
    );
}

#[test]
fn key_value_wins_over_key_file() {
    let both = args(&["tako", "store", "-k", "K", "-f", "file", "-o", "srv", "img", "1.0"]);
    match parse(&both, None) {
        Ok(Cmd::Store(s)) => assert!(matches!(s.key_source(), KeySource::Value(v) if v == "K")),
        _ => panic!("expected store"),
    }
    let file = args(&["tako", "store", "-f", "file", "-o", "srv", "img", "1.0"]);
    match parse(&file, None) {
        Ok(Cmd::Store(s)) => assert!(matches!(s.key_source(), KeySource::File(p) if p == "file")),
        _ => panic!("expected store"),
    }
}
