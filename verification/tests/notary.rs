//! What the notary service says of a submission.

use neo::command::CommandOutput;
use neo::failure::Failure;
use neo::notary::{
    read_submission, submission_field, validate_notary_log, verify_notary_archive,
};
use plist::Dictionary;

fn refusal<T>(result: Result<T, Failure>) -> String {
    match result {
        Ok(_) => panic!("accepted"),
        Err(refusal) => refusal.message().to_string(),
    }
}

fn wrote(stdout: &str) -> Result<CommandOutput, String> {
    Ok(CommandOutput {
        success: true,
        status: "exit status: 0".to_string(),
        stdout: stdout.as_bytes().to_vec(),
        stderr: Vec::new(),
    })
}

fn plist_text(body: &str) -> String {
    format!(
        "<?xml version=\"1.0\" encoding=\"UTF-8\"?>\n<plist version=\"1.0\">{body}</plist>\n"
    )
}

#[test]
fn reads_notary_submission_fields() {
    let mut dictionary = Dictionary::new();
    dictionary.insert("id".into(), "submission-id".into());
    dictionary.insert("status".into(), "Accepted".into());
    let submission = Some(dictionary);
    assert_eq!(
        submission_field(&submission, "id").unwrap(),
        "submission-id"
    );
    assert_eq!(submission_field(&submission, "status").unwrap(), "Accepted");
}

#[test]
fn reads_a_written_submission() {
    let text = plist_text(
        "<dict><key>id</key><string>submission-id</string><key>status</key><string>Invalid</string></dict>",
    );
    let submission = read_submission(text.as_bytes()).unwrap();
    assert_eq!(submission.id, "submission-id");
    assert_eq!(submission.status, "Invalid");
    for body in [
        "<string>id</string>",
        "<dict><key>status</key><string>Accepted</string></dict>",
        "<dict><key>id</key><integer>1</integer></dict>",
    ] {
        assert_eq!(
            refusal(read_submission(plist_text(body).as_bytes())),
            "notarytool response has no string id field"
        );
    }
    assert_eq!(
        refusal(read_submission(
            plist_text("<dict><key>id</key><string>1</string></dict>").as_bytes()
        )),
        "notarytool response has no string status field"
    );
    let error = plist::Value::from_reader(std::io::Cursor::new(b"nothing")).unwrap_err();
    let cause = std::error::Error::source(&error).unwrap();
    assert_eq!(
        refusal(read_submission(b"nothing")),
        format!("{error}\ncaused by: {cause}")
    );
}

#[test]
fn requires_an_empty_notary_issue_list() {
    assert!(validate_notary_log(br#"{"issues":[]}"#).is_ok());
    assert!(validate_notary_log(br#"{"issues":null}"#).is_ok());
    assert!(validate_notary_log(br#"{"issues":[{"severity":"warning"}]}"#).is_err());
}

#[test]
fn shows_the_notary_issues() {
    validate_notary_log(br#"{"status":"Accepted"}"#).unwrap();
    validate_notary_log(br#"["issues"]"#).unwrap();
    assert_eq!(
        refusal(validate_notary_log(
            br#"{"issues": [ {"severity": "warning"} ]}"#
        )),
        "notary log contains issues: [{\"severity\":\"warning\"}]"
    );
    assert_eq!(
        refusal(validate_notary_log(br#"{"issues": false}"#)),
        "notary log contains issues: false"
    );
    assert_eq!(
        refusal(validate_notary_log(b"{")),
        format!(
            "invalid notary log JSON: {}",
            serde_json::from_slice::<serde_json::Value>(b"{").unwrap_err()
        )
    );
}

#[test]
fn rejects_interleaved_archive_entries() {
    assert_eq!(
        verify_notary_archive(
            b"/dist/NEO.zip",
            &wrote("NEO.app/\nNEO.app/Contents/a._b\n__MACOSX/NEO.app/._Contents\n")
        )
        .unwrap(),
        "verified notary archive has zero interleaved AppleDouble entries"
    );
    assert_eq!(
        refusal(verify_notary_archive(
            b"/dist/NEO.zip",
            &wrote("NEO.app/\nNEO.app/._Contents\n._NEO.app/x\n")
        )),
        "notary archive contains interleaved AppleDouble entries: [\"NEO.app/._Contents\", \"._NEO.app/x\"]"
    );
    let failed = Ok(CommandOutput {
        success: false,
        status: "exit status: 9".to_string(),
        stdout: Vec::new(),
        stderr: b"cannot find\n".to_vec(),
    });
    assert_eq!(
        refusal(verify_notary_archive(b"/dist/NEO.zip", &failed)),
        "zipinfo -1 /dist/NEO.zip exited with exit status: 9: cannot find"
    );
}
