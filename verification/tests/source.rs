//! The sources that the repository pins, and the SDK that it needs.

use neo::command::CommandOutput;
use neo::sdk::{parse_sdk_major, verify_sdk, MINIMUM_SDK_MAJOR};
use neo::source::{verify_pinned_source, verify_pinned_source_contents, LIBNEO_HTTPS_SOURCE};

fn refusal<T>(result: Result<T, neo::failure::Failure>) -> String {
    match result {
        Ok(_) => panic!("accepted"),
        Err(refusal) => refusal.message().to_string(),
    }
}

fn ran(success: bool, status: &str, stdout: &[u8], stderr: &[u8]) -> Result<CommandOutput, String> {
    Ok(CommandOutput {
        success,
        status: status.to_string(),
        stdout: stdout.to_vec(),
        stderr: stderr.to_vec(),
    })
}

#[test]
fn accepts_pinned_https_source() {
    let manifest = format!("source = {LIBNEO_HTTPS_SOURCE:?}");
    verify_pinned_source_contents(manifest.as_bytes(), b"lockfile").unwrap();
}

#[test]
fn rejects_missing_pinned_https_source() {
    let error = refusal(verify_pinned_source_contents(b"manifest", b"lockfile"));
    assert!(error.contains("Cargo.toml"));
    assert!(error.contains(LIBNEO_HTTPS_SOURCE));
}

#[test]
fn rejects_ssh_urls_in_source_files() {
    let manifest = format!("source = {LIBNEO_HTTPS_SOURCE:?}");
    for (manifest, lockfile, expected) in [
        (
            format!("{manifest}\nother = \"ssh://example.invalid/repository\""),
            "lockfile".to_owned(),
            "Cargo.toml",
        ),
        (
            manifest.clone(),
            "source = \"ssh://example.invalid/repository\"".to_owned(),
            "Cargo.lock",
        ),
    ] {
        let error = refusal(verify_pinned_source_contents(
            manifest.as_bytes(),
            lockfile.as_bytes(),
        ));
        assert!(error.contains(expected));
        assert!(error.contains("ssh://"));
    }
}

#[test]
fn reads_the_source_files_in_order() {
    let manifest = Ok(LIBNEO_HTTPS_SOURCE.as_bytes().to_vec());
    let lockfile = Ok(b"lockfile".to_vec());
    let missing = Err("No such file or directory (os error 2)".to_string());
    assert_eq!(
        verify_pinned_source(b"/repository", &manifest, &lockfile).unwrap(),
        "verified libneo uses the pinned HTTPS source"
    );
    assert_eq!(
        refusal(verify_pinned_source(b"/repository", &missing, &missing)),
        "cannot read /repository/Cargo.toml: No such file or directory (os error 2)"
    );
    assert_eq!(
        refusal(verify_pinned_source(b"/repository", &manifest, &missing)),
        "cannot read /repository/Cargo.lock: No such file or directory (os error 2)"
    );
    assert_eq!(
        refusal(verify_pinned_source_contents(b"", b"ssh://")),
        "Cargo.toml does not contain the required libneo source https://github.com/superneoai/libneo.git"
    );
    assert_eq!(
        refusal(verify_pinned_source_contents(
            LIBNEO_HTTPS_SOURCE.as_bytes(),
            b"ssh://"
        )),
        "Cargo.lock contains an ssh:// URL; libneo sources must use HTTPS"
    );
}

#[test]
fn parses_sdk_major_version() {
    assert_eq!(parse_sdk_major(b"26.5\n").unwrap(), 26);
    assert_eq!(parse_sdk_major(b"27\n").unwrap(), 27);
}

#[test]
fn rejects_missing_or_unparseable_sdk_version() {
    for output in [b"".as_slice(), b"not-a-version", b".5", b"25x.1"] {
        let error = refusal(parse_sdk_major(output));
        assert!(error.contains("unparseable SDK version"));
    }
}

#[test]
fn quotes_the_sdk_version_that_it_refuses() {
    assert_eq!(
        refusal(parse_sdk_major(b" 2\"x.1\n")),
        "xcrun returned an unparseable SDK version \"2\\\"x.1\""
    );
    assert_eq!(
        refusal(parse_sdk_major(b"4294967296.0")),
        format!(
            "cannot parse SDK major version \"4294967296\": {}",
            "4294967296".parse::<u32>().unwrap_err()
        )
    );
    assert_eq!(parse_sdk_major(b"4294967295").unwrap(), u32::MAX);
    assert_eq!(parse_sdk_major(b"0026").unwrap(), 26);
    assert_eq!(
        refusal(parse_sdk_major(b"26\xff")),
        format!(
            "xcrun returned a non-UTF-8 SDK version: {}",
            std::str::from_utf8(b"26\xff").unwrap_err()
        )
    );
}

#[test]
fn requires_a_recent_sdk() {
    assert_eq!(MINIMUM_SDK_MAJOR, 26);
    assert_eq!(
        verify_sdk(&ran(true, "exit status: 0", b"26.1\n", b"")).unwrap(),
        "verified macOS SDK major version 26"
    );
    assert_eq!(
        refusal(verify_sdk(&ran(true, "exit status: 0", b"25.9\n", b""))),
        "macOS SDK major version 25 is below the required 26"
    );
    assert_eq!(
        refusal(verify_sdk(&ran(false, "exit status: 1", b"", b" no SDK \n"))),
        "xcrun --show-sdk-version exited with exit status: 1: no SDK"
    );
    assert_eq!(
        refusal(verify_sdk(&Err("not found".to_string()))),
        "cannot run xcrun --show-sdk-version: not found"
    );
}
